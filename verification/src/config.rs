//! The project's settings.

use vstd::prelude::*;
use vstd::string::StringExecFns;
use crate::text::{chars_of, find_char, find_from, string_of_range};

verus! {

/// The settings file's name, below the directory that holds the log.
pub const CONFIG_FILE: &'static str = "config.toml";

/// The Ruby version of a project that names none.
pub const DEFAULT_RUBY_VERSION: &'static str = "3.3.6";

/// The settings of a project.
#[derive(Debug, Clone, PartialEq)]
pub struct ArcConfig {
    pub ruby: RubyConfig,
}

/// The settings of the Ruby runtime.
#[derive(Debug, Clone, PartialEq)]
pub struct RubyConfig {
    /// The Ruby version in use, such as `3.3.6`.
    pub version: String,
}

impl Default for ArcConfig {
    fn default() -> (r: Self)
        ensures
            r.ruby.version@ == DEFAULT_RUBY_VERSION@,
    {
        ArcConfig { ruby: RubyConfig { version: String::from_str(DEFAULT_RUBY_VERSION) } }
    }
}

impl ArcConfig {
    /// The settings with the given Ruby version.
    pub fn with_ruby_version(version: &str) -> (r: ArcConfig)
        ensures
            r.ruby.version@ == version@,
    {
        ArcConfig { ruby: RubyConfig { version: String::from_str(version) } }
    }
}

/// The version of Ruby's library interface that belongs to a Ruby version: a
/// version with at least two dots keeps what stands before the second dot and
/// ends in `.0`; any other text stays as it is.
pub open spec fn api_version(v: Seq<char>) -> Seq<char> {
    let first = find_from(v, '.', 0);
    let second = find_from(v, '.', first + 1);
    if first < v.len() && second < v.len() {
        v.take(second) + seq!['.', '0']
    } else {
        v
    }
}

/// The version of Ruby's library interface that belongs to a Ruby version, as it
/// stands in the paths of the libraries: `3.3.6` gives `3.3.0`.
pub fn ruby_api_version(ruby_version: &str) -> (r: String)
    ensures
        r@ == api_version(ruby_version@),
{
    let v = chars_of(ruby_version);
    let first = find_char(&v, '.', 0);
    if first < v.len() {
        let second = find_char(&v, '.', first + 1);
        if second < v.len() {
            let mut r = string_of_range(&v, 0, second);
            r.push('.');
            r.push('0');
            assert(r@ =~= v@.take(second as int) + seq!['.', '0']);
            return r;
        }
    }
    String::from_str(ruby_version)
}

} // verus!
