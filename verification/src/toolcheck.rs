//! External tool availability: the status a lookup yields, and the
//! installation hint offered for well-known tools.

use crate::strutil::str_eq;
use vstd::prelude::*;

verus! {

/// Whether an external tool was found on the system, and where.
#[derive(Debug)]
pub enum ToolStatus {
    Found(String),
    NotFound,
}

/// The installation hint for a tool name.
pub open spec fn spec_install_hint(tool: Seq<char>) -> Seq<char> {
    if tool == "flutter"@ {
        "Install Flutter: https://docs.flutter.dev/get-started/install"@
    } else if tool == "gcloud"@ {
        "Install gcloud CLI: https://cloud.google.com/sdk/docs/install"@
    } else if tool == "firebase"@ {
        "Install Firebase CLI: npm install -g firebase-tools"@
    } else if tool == "flutterfire"@ {
        "Install FlutterFire CLI: dart pub global activate flutterfire_cli"@
    } else if tool == "node"@ || tool == "npm"@ || tool == "npx"@ {
        "Install Node.js: https://nodejs.org/"@
    } else if tool == "cargo"@ {
        "Install Rust: https://rustup.rs/"@
    } else if tool == "docker"@ {
        "Install Docker: https://docs.docker.com/get-docker/"@
    } else if tool == "terraform"@ {
        "Install Terraform: https://developer.hashicorp.com/terraform/install"@
    } else {
        "Please install this tool and try again"@
    }
}

/// How to install a missing tool.
pub fn install_hint(tool: &str) -> (r: &'static str)
    ensures
        r@ == spec_install_hint(tool@),
{
    if str_eq(tool, "flutter") {
        "Install Flutter: https://docs.flutter.dev/get-started/install"
    } else if str_eq(tool, "gcloud") {
        "Install gcloud CLI: https://cloud.google.com/sdk/docs/install"
    } else if str_eq(tool, "firebase") {
        "Install Firebase CLI: npm install -g firebase-tools"
    } else if str_eq(tool, "flutterfire") {
        "Install FlutterFire CLI: dart pub global activate flutterfire_cli"
    } else if str_eq(tool, "node") || str_eq(tool, "npm") || str_eq(tool, "npx") {
        "Install Node.js: https://nodejs.org/"
    } else if str_eq(tool, "cargo") {
        "Install Rust: https://rustup.rs/"
    } else if str_eq(tool, "docker") {
        "Install Docker: https://docs.docker.com/get-docker/"
    } else if str_eq(tool, "terraform") {
        "Install Terraform: https://developer.hashicorp.com/terraform/install"
    } else {
        "Please install this tool and try again"
    }
}

} // verus!
