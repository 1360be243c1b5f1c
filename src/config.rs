//! Analysis options: entry points, ignore patterns and the rule toggles.

use vstd::prelude::*;
use vstd::string::*;
use crate::rules::AnalysisReport;

verus! {

/// Which of the three rules report findings.
pub struct RulesConfig {
    pub unused_deps: bool,
    pub unused_exports: bool,
    pub unused_files: bool,
}

/// The value a rule toggle takes when the configuration leaves it out.
pub fn default_true() -> (r: bool)
    ensures
        r,
{
    true
}

impl Default for RulesConfig {
    /// Every rule enabled.
    fn default() -> (r: Self)
        ensures
            r.unused_deps && r.unused_exports && r.unused_files,
    {
        RulesConfig { unused_deps: default_true(), unused_exports: default_true(), unused_files: default_true() }
    }
}

pub struct Config {
    pub entry: Vec<String>,
    pub ignore: Vec<String>,
    pub rules: RulesConfig,
    /// A framework hint; no analysis reads it.
    pub framework: Option<String>,
}

impl Default for Config {
    /// One entry point, `src/index.ts`; test and spec files and installed
    /// dependencies ignored; every rule enabled; no framework.
    fn default() -> (r: Self)
        ensures
            r.entry@.len() == 1,
            r.entry@[0]@ == "src/index.ts"@,
            r.ignore@.len() == 5,
            r.ignore@[0]@ == "**/*.test.ts"@,
            r.ignore@[1]@ == "**/*.test.js"@,
            r.ignore@[2]@ == "**/*.spec.ts"@,
            r.ignore@[3]@ == "**/*.spec.js"@,
            r.ignore@[4]@ == "**/node_modules/**"@,
            r.rules.unused_deps && r.rules.unused_exports && r.rules.unused_files,
            r.framework is None,
    {
        let mut entry: Vec<String> = Vec::new();
        entry.push(String::from_str("src/index.ts"));
        let mut ignore: Vec<String> = Vec::new();
        ignore.push(String::from_str("**/*.test.ts"));
        ignore.push(String::from_str("**/*.test.js"));
        ignore.push(String::from_str("**/*.spec.ts"));
        ignore.push(String::from_str("**/*.spec.js"));
        ignore.push(String::from_str("**/node_modules/**"));
        Config { entry, ignore, rules: RulesConfig::default(), framework: None }
    }
}

impl Config {
    /// The entry points given on the command line, or the configured ones
    /// when none were given.
    pub fn entry_points(&self, given: Vec<String>) -> (r: Vec<String>)
        ensures
            given@.len() > 0 ==> r@ == given@,
            given@.len() == 0 ==> r@ == self.entry@,
    {
        if given.len() > 0 {
            given
        } else {
            crate::graph::copy_strings(&self.entry)
        }
    }
}

impl AnalysisReport {
    /// The report with each disabled rule's findings emptied.
    pub fn with_rules(self, rules: &RulesConfig) -> (r: AnalysisReport)
        ensures
            r.unused_dependencies@ == (if rules.unused_deps {
                self.unused_dependencies@
            } else {
                Seq::empty()
            }),
            r.unused_exports@ == (if rules.unused_exports {
                self.unused_exports@
            } else {
                Seq::empty()
            }),
            r.unused_files@ == (if rules.unused_files {
                self.unused_files@
            } else {
                Seq::empty()
            }),
    {
        AnalysisReport {
            unused_dependencies: if rules.unused_deps {
                self.unused_dependencies
            } else {
                Vec::new()
            },
            unused_exports: if rules.unused_exports {
                self.unused_exports
            } else {
                Vec::new()
            },
            unused_files: if rules.unused_files {
                self.unused_files
            } else {
                Vec::new()
            },
        }
    }
}

} // verus!
