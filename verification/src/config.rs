//! Workspace configuration presets: the fields a configuration file
//! supplies, their defaults, and the check that the requested license
//! is among the allowed ones.

use vstd::prelude::*;

verus! {

/// Options of the header generator.
pub struct GeneratorConfig {
    pub spdx_only: bool,
    pub license_file: Option<String>,
    pub allowed_licenses: Vec<String>,
    pub ignore_patterns: Vec<String>,
    pub gitignore: bool,
}

/// Workspace-wide configuration presets: the target license type, the
/// author and year substituted into headers, and generator options.
pub struct Config {
    pub license_type: String,
    pub author: String,
    pub year: u16,
    pub generator: GeneratorConfig,
}

/// The license type assumed when the configuration names none.
pub fn default_license_type() -> (r: String)
    ensures
        r@ == "MIT"@,
{
    "MIT".to_owned()
}

/// By default no ignore patterns are configured.
pub fn default_ignore_patterns() -> (r: Vec<String>)
    ensures
        r@.len() == 0,
{
    Vec::new()
}

/// By default version-control ignore files are respected.
pub fn default_gitignore() -> (r: bool)
    ensures
        r == true,
{
    true
}

/// By default full headers are generated, not bare SPDX lines.
pub fn default_spdx_only_flag() -> (r: bool)
    ensures
        r == false,
{
    false
}

/// By default every license is allowed.
pub fn default_allowed_licenses() -> (r: Vec<String>)
    ensures
        r@.len() == 1,
        r@[0]@ == "*"@,
{
    let mut v: Vec<String> = Vec::new();
    v.push("*".to_owned());
    v
}

/// The requested license is allowed when the list holds the wildcard
/// entry or names the license itself.
pub open spec fn license_allowed_spec(license_type: Seq<char>, allowed: Seq<String>) -> bool {
    (exists|i: int| 0 <= i < allowed.len() && (#[trigger] allowed[i])@ == "*"@) || (exists|i: int|
        0 <= i < allowed.len() && (#[trigger] allowed[i])@ == license_type)
}

/// Whether the configured allow-list permits `license_type`: it does
/// when it holds the wildcard entry or names the license itself.
pub fn license_allowed(license_type: &String, allowed: &Vec<String>) -> (r: bool)
    ensures
        r == license_allowed_spec(license_type@, allowed@),
{
    let star: String = "*".to_owned();
    let mut i: usize = 0;
    while i < allowed.len()
        invariant
            0 <= i <= allowed@.len(),
            star@ == "*"@,
            forall|j: int| 0 <= j < i ==> (#[trigger] allowed@[j])@ != "*"@,
            forall|j: int| 0 <= j < i ==> (#[trigger] allowed@[j])@ != license_type@,
        decreases allowed@.len() - i,
    {
        if allowed[i].eq(&star) {
            return true;
        }
        if allowed[i].eq(license_type) {
            return true;
        }
        i += 1;
    }
    false
}

} // verus!
