//! Where the runtime lives, and the environment of a command.

use vstd::prelude::*;
use vstd::string::StringExecFns;
use crate::signals::{join_path, path_join, ARC_CACHE_ROOT};
use crate::text::str_eq;

verus! {

broadcast use vstd::string::group_string_axioms;

/// The environment in which a command runs.
#[derive(Debug, Clone, Copy, PartialEq, Eq, Structural)]
pub enum ArcEnv {
    /// The project's own environment.
    Isolated,
    /// The environment of the system, as it is.
    System,
}

/// The root of the Ruby runtime below the environment directory.
pub fn ruby_runtime_root(env_path: &str) -> (r: String)
    ensures
        r@ == path_join(env_path@, "ruby_runtime"@),
{
    join_path(env_path, "ruby_runtime")
}

/// The runtime's directory of programs.
pub fn ruby_runtime_bin(env_path: &str) -> (r: String)
    ensures
        r@ == path_join(path_join(env_path@, "ruby_runtime"@), "bin"@),
{
    let root = ruby_runtime_root(env_path);
    join_path(root.as_str(), "bin")
}

/// The runtime's directory of libraries.
pub fn ruby_runtime_lib(env_path: &str) -> (r: String)
    ensures
        r@ == path_join(path_join(env_path@, "ruby_runtime"@), "lib"@),
{
    let root = ruby_runtime_root(env_path);
    join_path(root.as_str(), "lib")
}

/// The Ruby program of the runtime.
pub fn ruby_bin(env_path: &str) -> (r: String)
    ensures
        r@ == path_join(path_join(path_join(env_path@, "ruby_runtime"@), "bin"@), "ruby"@),
{
    let bin = ruby_runtime_bin(env_path);
    join_path(bin.as_str(), "ruby")
}

/// The cache directory below the home directory `home`; below `/tmp` where no
/// home directory is known.
pub fn get_global_cache_dir(home: Option<&str>) -> (r: String)
    ensures
        r@ == path_join(
            match home {
                Some(h) => h@,
                None => "/tmp"@,
            },
            ARC_CACHE_ROOT@,
        ),
{
    match home {
        Some(h) => join_path(h, ARC_CACHE_ROOT),
        None => join_path("/tmp", ARC_CACHE_ROOT),
    }
}

/// The cache directory of the installed dependencies.
pub fn get_global_gems_dir(home: Option<&str>) -> (r: String)
    ensures
        r@ == path_join(
            path_join(
                match home {
                    Some(h) => h@,
                    None => "/tmp"@,
                },
                ARC_CACHE_ROOT@,
            ),
            "gems"@,
        ),
{
    let cache = get_global_cache_dir(home);
    join_path(cache.as_str(), "gems")
}

/// The directories in which Ruby looks for libraries, in the order of the search:
/// the site's and the vendor's libraries, each first for the version and then
/// for all versions, the libraries of the machine's architecture where they
/// exist, and the standard library.
pub open spec fn library_path(
    lib_dir: Seq<char>,
    version: Seq<char>,
    arch: Seq<char>,
    arch_exists: bool,
) -> Seq<Seq<char>> {
    let site = path_join(lib_dir, "site_ruby"@);
    let vendor = path_join(lib_dir, "vendor_ruby"@);
    let standard = path_join(lib_dir, version);
    let head = seq![path_join(site, version), site, path_join(vendor, version), vendor];
    if arch_exists {
        head.push(path_join(standard, arch)).push(standard)
    } else {
        head.push(standard)
    }
}

/// The directories in which Ruby looks for libraries, for the library directory
/// `lib_dir` and the version directory `version` in it.
pub fn rubylib_entries(lib_dir: &str, version: &str, arch: &str, arch_exists: bool) -> (r: Vec<
    String,
>)
    ensures
        r.deep_view() == library_path(lib_dir@, version@, arch@, arch_exists),
{
    let site = join_path(lib_dir, "site_ruby");
    let vendor = join_path(lib_dir, "vendor_ruby");
    let standard = join_path(lib_dir, version);
    let mut r: Vec<String> = Vec::new();
    r.push(join_path(site.as_str(), version));
    r.push(site);
    r.push(join_path(vendor.as_str(), version));
    r.push(vendor);
    if arch_exists {
        r.push(join_path(standard.as_str(), arch));
    }
    r.push(standard);
    assert(r.deep_view() =~= library_path(lib_dir@, version@, arch@, arch_exists));
    r
}

/// The name under which a Ruby runtime is cached.
pub open spec fn ruby_id(version: Seq<char>, os: Seq<char>, arch: Seq<char>) -> Seq<char> {
    version + seq!['-'] + os + seq!['-'] + arch
}

/// The name under which the Ruby runtime of a version is cached for an operating
/// system and an architecture.
pub fn resolve_ruby_id(version: &str, os: &str, arch: &str) -> (r: String)
    ensures
        r@ == ruby_id(version@, os@, arch@),
{
    let mut r = String::from_str(version);
    r.push('-');
    r.append(os);
    r.push('-');
    r.append(arch);
    r
}

/// The name of the build that serves an operating system and an architecture;
/// `None` where there is none.
pub open spec fn build_suffix(os: Seq<char>, arch: Seq<char>) -> Option<Seq<char>> {
    if os == "linux"@ && arch == "x86_64"@ {
        Some("ubuntu-24.04"@)
    } else if os == "linux"@ && arch == "aarch64"@ {
        Some("ubuntu-24.04-arm64"@)
    } else {
        None
    }
}

/// The address of the Ruby runtime of a version.
pub open spec fn ruby_url(version: Seq<char>, suffix: Seq<char>) -> Seq<char> {
    "https://github.com/ruby/ruby-builder/releases/download/toolcache/ruby-"@ + version + seq!['-']
        + suffix + ".tar.gz"@
}

/// The address from which the Ruby runtime of a version is fetched for an
/// operating system and an architecture; `None` where none is built for them.
pub fn resolve_ruby_url(version: &str, os: &str, arch: &str) -> (r: Option<String>)
    ensures
        r.deep_view() == match build_suffix(os@, arch@) {
            Some(suffix) => Some(ruby_url(version@, suffix)),
            None => None,
        },
{
    let suffix = if str_eq(os, "linux") && str_eq(arch, "x86_64") {
        "ubuntu-24.04"
    } else if str_eq(os, "linux") && str_eq(arch, "aarch64") {
        "ubuntu-24.04-arm64"
    } else {
        return None;
    };
    let mut r = String::from_str(
        "https://github.com/ruby/ruby-builder/releases/download/toolcache/ruby-",
    );
    r.append(version);
    r.push('-');
    r.append(suffix);
    r.append(".tar.gz");
    Some(r)
}

} // verus!
