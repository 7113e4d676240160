use tforge::remote::cache_dir;
use tforge::remote::repo_name_from_url;

#[test]
fn test_repo_name_https() {
    assert_eq!(
        repo_name_from_url("https://github.com/user/my-template.git").unwrap(),
        "my-template"
    );
}

#[test]
fn test_repo_name_no_git_suffix() {
    assert_eq!(
        repo_name_from_url("https://github.com/user/my-template").unwrap(),
        "my-template"
    );
}

#[test]
fn test_repo_name_trailing_slash() {
    assert_eq!(
        repo_name_from_url("https://github.com/user/my-template/").unwrap(),
        "my-template"
    );
}

#[test]
fn test_repo_name_empty_is_error() {
    assert!(repo_name_from_url("").is_err());
    assert!(repo_name_from_url("///").is_err());
}

#[test]
fn test_cache_dir_under_config() {
    let dir = cache_dir();
    assert!(dir.ends_with("tforge/templates"));
}

#[test]
fn test_cache_dir_path() {
    let dir = cache_dir();
    assert!(dir.ends_with("tforge/templates"));
}
