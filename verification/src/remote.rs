//! Community templates: the cache location, the name a repository URL
//! denotes, and keyword search over a registry.  Cloning, pulling and
//! directory scanning are external collaborators' concerns.

use crate::registry::{holds_similar, similar, Registry};
use crate::strutil::{
    find_sub, rfind_char, spec_find, spec_rfind, spec_strip_end, spec_strip_suffix_rep,
    strip_end_char, strip_suffix_rep,
};
use vstd::prelude::*;

verus! {

/// The template cache directory: `templates` under the tool's
/// configuration directory.
pub fn cache_dir() -> (r: String)
    ensures
        exists|base: Seq<char>| r@ == base + "/tforge/templates"@,
{
    let mut out = crate::config::config_dir();
    let ghost base = choose|base: Seq<char>| out@ == base + "/tforge"@;
    out.append("/templates");
    proof {
        reveal_strlit("/tforge");
        reveal_strlit("/templates");
        reveal_strlit("/tforge/templates");
        assert(out@ =~= base + "/tforge/templates"@);
    }
    out
}

/// The last path segment of the URL, once trailing slashes are dropped.
pub open spec fn spec_last_segment(s: Seq<char>) -> Seq<char> {
    let t = spec_strip_end(s, '/');
    match spec_rfind(t, '/') {
        Some(i) => t.skip(i + 1),
        None => t,
    }
}

/// The repository name a git URL denotes: its last path segment without
/// any trailing `.git`.
pub open spec fn spec_repo_name(url: Seq<char>) -> Seq<char> {
    spec_strip_suffix_rep(spec_last_segment(url), ".git"@)
}

/// Failure to derive a repository name from a URL.
#[derive(Debug)]
pub struct RepoNameError {}

impl RepoNameError {
    /// Render the error as text.
    pub fn message(&self) -> (r: String)
        ensures
            r@ == "cannot extract repo name from URL"@,
    {
        let mut s = String::new();
        s.append("cannot extract repo name from URL");
        proof {
            assert(s@ =~= "cannot extract repo name from URL"@);
        }
        s
    }
}

/// Extract a repository name from a git URL: the last path segment,
/// without trailing slashes or a `.git` suffix.  An empty result is an
/// error.
pub fn repo_name_from_url(url: &str) -> (r: Result<String, RepoNameError>)
    ensures
        match r {
            Ok(name) => name@ == spec_repo_name(url@) && name@.len() > 0,
            Err(_) => spec_repo_name(url@).len() == 0,
        },
{
    let trimmed = strip_end_char(url, '/');
    let tlen = trimmed.unicode_len();
    let last = match rfind_char(trimmed, '/') {
        Some(i) => {
            proof {
                lemma_rfind_in_bounds(trimmed@, '/', i as int);
                assert(trimmed@.subrange(i + 1, tlen as int) =~= trimmed@.skip(i + 1));
            }
            trimmed.substring_char(i + 1, tlen)
        },
        None => trimmed,
    };
    let name = strip_suffix_rep(last, ".git");
    if name.unicode_len() == 0 {
        Err(RepoNameError {  })
    } else {
        Ok(name.to_owned())
    }
}

/// A found occurrence index lies within the sequence.
proof fn lemma_rfind_in_bounds(s: Seq<char>, c: char, i: int)
    requires
        spec_rfind(s, c) == Some(i),
    ensures
        0 <= i < s.len(),
        s[i] == c,
    decreases s.len(),
{
    if s.len() > 0 {
        if s[s.len() - 1] == c {
        } else {
            lemma_rfind_in_bounds(s.drop_last(), c, i);
            assert(s.drop_last()[i] == s[i]);
        }
    }
}

/// The case-folded text of `s`, as the platform's Unicode lowercasing
/// produces it: a function of the characters alone.
pub uninterp spec fn lower_of(s: Seq<char>) -> Seq<char>;

/// Lowercase `s`.
///
/// Relies on `str::to_lowercase`: the result depends on the characters
/// alone, and an empty string stays empty.
#[verifier::external_body]
fn to_lower(s: &str) -> (r: String)
    ensures
        r@ == lower_of(s@),
        s@.len() == 0 ==> r@.len() == 0,
{
    s.to_lowercase()
}

/// Whether a template matches a (case-folded) search query: its name,
/// description, or category contains the query, case-insensitively.
pub open spec fn matches_query(t: TemplateManifestLike, q: Seq<char>) -> bool {
    ||| spec_find(lower_of(t.name), q) is Some
    ||| spec_find(lower_of(t.description), q) is Some
    ||| spec_find(lower_of(t.category), q) is Some
}

/// The searchable text of a template.
pub struct TemplateManifestLike {
    pub name: Seq<char>,
    pub description: Seq<char>,
    pub category: Seq<char>,
}

/// The searchable text of a manifest.
pub open spec fn searchable(t: crate::types::TemplateManifest) -> TemplateManifestLike {
    TemplateManifestLike {
        name: t.template.name@,
        description: t.template.description@,
        category: t.template.category@,
    }
}

/// Search templates by name, description, or category: a case-insensitive
/// substring match, returning copies of the matching templates.
pub fn search_templates(registry: &Registry, query: &str) -> (r: Vec<
    crate::types::TemplateManifest,
>)
    ensures
        forall|j: int|
            0 <= j < r@.len() ==> holds_similar(registry.spec_templates(), #[trigger] r@[j])
                && matches_query(searchable(r@[j]), lower_of(query@)),
        forall|k: int|
            0 <= k < registry.spec_templates().len() && matches_query(
                searchable(#[trigger] registry.spec_templates()[k]),
                lower_of(query@),
            ) ==> exists|j: int|
                0 <= j < r@.len() && similar(r@[j], registry.spec_templates()[k]),
        // the matches come out in registry order, one per held position
        exists|picks: Seq<int>|
            #![trigger picks.len()]
            {
                &&& picks.len() == r@.len()
                &&& forall|j1: int, j2: int| 0 <= j1 < j2 < picks.len() ==> picks[j1] < picks[j2]
                &&& forall|j: int|
                    0 <= j < picks.len() ==> 0 <= #[trigger] picks[j]
                        < registry.spec_templates().len() && similar(
                        r@[j],
                        registry.spec_templates()[picks[j]],
                    )
            },
{
    let needle = to_lower(query);
    let templates = registry.templates();
    let n = templates.len();
    let mut out: Vec<crate::types::TemplateManifest> = Vec::new();
    let ghost mut picks: Seq<int> = Seq::empty();
    let mut i: usize = 0;
    while i < n
        invariant
            n == registry.spec_templates().len(),
            templates@ == registry.spec_templates(),
            needle@ == lower_of(query@),
            i <= n,
            picks.len() == out@.len(),
            forall|j1: int, j2: int| 0 <= j1 < j2 < picks.len() ==> picks[j1] < picks[j2],
            forall|j: int|
                0 <= j < picks.len() ==> 0 <= #[trigger] picks[j] < i && similar(
                    out@[j],
                    registry.spec_templates()[picks[j]],
                ),
            forall|j: int|
                0 <= j < out@.len() ==> holds_similar(registry.spec_templates(), #[trigger] out@[j])
                    && matches_query(searchable(out@[j]), lower_of(query@)),
            forall|k: int|
                0 <= k < i && matches_query(
                    searchable(#[trigger] registry.spec_templates()[k]),
                    lower_of(query@),
                ) ==> exists|j: int|
                    0 <= j < out@.len() && similar(out@[j], registry.spec_templates()[k]),
        decreases n - i,
    {
        let t = &templates[i];
        let name_l = to_lower(t.template.name.as_str());
        let desc_l = to_lower(t.template.description.as_str());
        let cat_l = to_lower(t.template.category.as_str());
        let hit = match find_sub(name_l.as_str(), needle.as_str()) {
            Some(_) => true,
            None => match find_sub(desc_l.as_str(), needle.as_str()) {
                Some(_) => true,
                None => match find_sub(cat_l.as_str(), needle.as_str()) {
                    Some(_) => true,
                    None => false,
                },
            },
        };
        if hit {
            let ghost prev = out@;
            let ghost prev_picks = picks;
            out.push(t.duplicate());
            proof {
                picks = picks.push(i as int);
                assert(forall|j: int| 0 <= j < prev.len() ==> out@[j] == prev[j]);
                assert(forall|j: int| 0 <= j < prev_picks.len() ==> picks[j] == prev_picks[j]);
                assert(picks[picks.len() - 1] == i as int);
                assert(similar(out@.last(), registry.spec_templates()[i as int]));
                assert(matches_query(searchable(out@.last()), lower_of(query@)));
            }
        }
        i = i + 1;
    }
    proof {
        assert(picks.len() == out@.len() && (forall|j1: int, j2: int|
            0 <= j1 < j2 < picks.len() ==> picks[j1] < picks[j2]) && (forall|j: int|
            0 <= j < picks.len() ==> 0 <= #[trigger] picks[j] < registry.spec_templates().len()
                && similar(out@[j], registry.spec_templates()[picks[j]])));
    }
    out
}

} // verus!
