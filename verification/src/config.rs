//! Persistent configuration model and its well-known locations, plus the
//! LLM-provider defaults the configuration dialogue offers.

use crate::strutil::{spec_trim, str_eq, trim};
use vstd::prelude::*;

verus! {

/// Which LLM service a configuration points at.
#[derive(Debug, PartialEq, Eq, Structural, Clone, Copy)]
pub enum LlmProvider {
    Anthropic,
    Openai,
    Gemini,
    Ollama,
}

/// Connection settings for an LLM provider.
#[derive(Debug)]
pub struct LlmConfig {
    pub provider: LlmProvider,
    pub model: String,
    pub api_key_env: Option<String>,
    pub endpoint: Option<String>,
}

/// The tool's persistent configuration.
#[derive(Debug)]
pub struct TforgeConfig {
    pub llm: Option<LlmConfig>,
}

impl Default for TforgeConfig {
    /// No LLM configured.
    fn default() -> (r: TforgeConfig)
        ensures
            r.llm is None,
    {
        TforgeConfig { llm: None }
    }
}

/// The platform's configuration directory, as text; `None` when the
/// platform defines none.
///
/// Relies on `dirs::config_dir`: the result depends on the machine and
/// environment, so nothing is promised of it.
#[verifier::external_body]
fn os_config_dir() -> (r: Option<String>) {
    dirs::config_dir().map(|p| p.to_string_lossy().into_owned())
}

/// The tool's configuration directory: `tforge` under the platform's
/// configuration directory, or under `.` when the platform defines none.
pub fn config_dir() -> (r: String)
    ensures
        exists|base: Seq<char>| r@ == base + "/tforge"@,
{
    let mut out = match os_config_dir() {
        Some(d) => d,
        None => ".".to_owned(),
    };
    let ghost base = out@;
    out.append("/tforge");
    proof {
        assert(out@ == base + "/tforge"@);
    }
    out
}

/// The default configuration file path: `config.toml` in the tool's
/// configuration directory.
pub fn default_path() -> (r: String)
    ensures
        exists|base: Seq<char>| r@ == base + "/tforge/config.toml"@,
{
    let mut out = config_dir();
    let ghost base = choose|base: Seq<char>| out@ == base + "/tforge"@;
    out.append("/config.toml");
    proof {
        reveal_strlit("/tforge");
        reveal_strlit("/config.toml");
        reveal_strlit("/tforge/config.toml");
        assert(out@ =~= base + "/tforge/config.toml"@);
    }
    out
}

impl TforgeConfig {
    /// The default configuration file path.
    pub fn default_path() -> (r: String)
        ensures
            exists|base: Seq<char>| r@ == base + "/tforge/config.toml"@,
    {
        default_path()
    }
}

/// Parse a provider name; only the four known names are accepted.
pub fn parse_provider(input: &str) -> (r: Option<LlmProvider>)
    ensures
        input@ == "anthropic"@ ==> r == Some(LlmProvider::Anthropic),
        input@ == "openai"@ ==> r == Some(LlmProvider::Openai),
        input@ == "gemini"@ ==> r == Some(LlmProvider::Gemini),
        input@ == "ollama"@ ==> r == Some(LlmProvider::Ollama),
        (input@ != "anthropic"@ && input@ != "openai"@ && input@ != "gemini"@ && input@
            != "ollama"@) ==> r is None,
{
    proof {
        reveal_strlit("anthropic");
        reveal_strlit("openai");
        reveal_strlit("gemini");
        reveal_strlit("ollama");
        assert("anthropic"@.len() == 9);
        assert("openai"@.len() == 6);
        assert("gemini"@.len() == 6);
        assert("ollama"@.len() == 6);
        assert("gemini"@[0] == 'g' && "openai"@[0] == 'o' && "ollama"@[0] == 'o');
        assert("openai"@[1] == 'p' && "ollama"@[1] == 'l');
    }
    if str_eq(input, "anthropic") {
        Some(LlmProvider::Anthropic)
    } else if str_eq(input, "openai") {
        Some(LlmProvider::Openai)
    } else if str_eq(input, "gemini") {
        Some(LlmProvider::Gemini)
    } else if str_eq(input, "ollama") {
        Some(LlmProvider::Ollama)
    } else {
        None
    }
}

/// The label shown for a provider.
pub fn provider_label(provider: &LlmProvider) -> (r: &'static str)
    ensures
        match provider {
            LlmProvider::Anthropic => r@ == "anthropic"@,
            LlmProvider::Openai => r@ == "openai"@,
            LlmProvider::Gemini => r@ == "gemini"@,
            LlmProvider::Ollama => r@ == "ollama"@,
        },
{
    match provider {
        LlmProvider::Anthropic => "anthropic",
        LlmProvider::Openai => "openai",
        LlmProvider::Gemini => "gemini",
        LlmProvider::Ollama => "ollama",
    }
}

/// The default model offered for a provider.
pub fn default_model_for(provider: &LlmProvider) -> (r: &'static str)
    ensures
        match provider {
            LlmProvider::Anthropic => r@ == "sonnet-4-6"@,
            LlmProvider::Openai => r@ == "gpt-4o-mini"@,
            LlmProvider::Gemini => r@ == "gemini-2.0-flash"@,
            LlmProvider::Ollama => r@ == "llama3.2"@,
        },
{
    match provider {
        LlmProvider::Anthropic => "sonnet-4-6",
        LlmProvider::Openai => "gpt-4o-mini",
        LlmProvider::Gemini => "gemini-2.0-flash",
        LlmProvider::Ollama => "llama3.2",
    }
}

/// The default API-key environment variable for a provider, if any.
pub fn default_api_key_env_for(provider: &LlmProvider) -> (r: Option<&'static str>)
    ensures
        match provider {
            LlmProvider::Anthropic => r matches Some(s) && s@ == "ANTHROPIC_API_KEY"@,
            LlmProvider::Openai => r matches Some(s) && s@ == "OPENAI_API_KEY"@,
            LlmProvider::Gemini => r matches Some(s) && s@ == "GEMINI_API_KEY"@,
            LlmProvider::Ollama => r is None,
        },
{
    match provider {
        LlmProvider::Anthropic => Some("ANTHROPIC_API_KEY"),
        LlmProvider::Openai => Some("OPENAI_API_KEY"),
        LlmProvider::Gemini => Some("GEMINI_API_KEY"),
        LlmProvider::Ollama => None,
    }
}

/// The default endpoint override for a provider, if any.
pub fn default_endpoint_for(provider: &LlmProvider) -> (r: Option<&'static str>)
    ensures
        match provider {
            LlmProvider::Gemini => r matches Some(s) && s@
                == "https://generativelanguage.googleapis.com/v1beta/openai"@,
            LlmProvider::Ollama => r matches Some(s) && s@ == "http://localhost:11434/v1"@,
            _ => r is None,
        },
{
    match provider {
        LlmProvider::Gemini => Some("https://generativelanguage.googleapis.com/v1beta/openai"),
        LlmProvider::Ollama => Some("http://localhost:11434/v1"),
        _ => None,
    }
}

/// Trim an input; an all-whitespace input becomes `None`.
pub fn normalized_opt(input: String) -> (r: Option<String>)
    ensures
        match r {
            Some(s) => s@ == spec_trim(input@) && spec_trim(input@).len() > 0,
            None => spec_trim(input@).len() == 0,
        },
{
    let t = trim(input.as_str());
    if t.unicode_len() == 0 {
        None
    } else {
        Some(t.to_owned())
    }
}

} // verus!
