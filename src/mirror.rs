//! The plain decisions of mirroring one version: where its files go, what the
//! readme gains, and how publishing is asked for and judged.

use vstd::prelude::*;
use vstd::string::StringExecFns;

verus! {

/// The directory that downloads are kept and unpacked in.
pub const WORK_DIR: &'static str = "_work";

/// The readme file a manifest names when it names none.
pub const DEFAULT_README: &'static str = "README.md";

/// `<work dir>/<crate>-<version>`.
pub open spec fn crate_dir_spec(crate_name: Seq<char>, version: Seq<char>) -> Seq<char> {
    WORK_DIR@ + "/"@ + crate_name + "-"@ + version
}

/// Where the archive of `crate_name` at `version` is saved:
/// `_work/<crate>-<version>.crate`.
pub fn crate_file_path(crate_name: &str, version: &str) -> (r: String)
    ensures
        r@ == crate_dir_spec(crate_name@, version@) + ".crate"@,
{
    crate_dir_path(crate_name, version).concat(".crate")
}

/// Where the archive of `crate_name` at `version` is unpacked:
/// `_work/<crate>-<version>`.
pub fn crate_dir_path(crate_name: &str, version: &str) -> (r: String)
    ensures
        r@ == crate_dir_spec(crate_name@, version@),
{
    String::from_str(WORK_DIR).concat("/").concat(crate_name).concat("-").concat(version)
}

/// The readme file to prefix: the one the manifest names, else `README.md`.
pub fn readme_file(named: Option<&str>) -> (r: String)
    ensures
        named is Some ==> r@ == named.unwrap()@,
        named is None ==> r@ == DEFAULT_README@,
{
    match named {
        Some(f) => String::from_str(f),
        None => String::from_str(DEFAULT_README),
    }
}

/// The text put before the original readme of a mirror of `source` named
/// `destination`.
pub open spec fn disclaimer_spec(source: Seq<char>, destination: Seq<char>) -> Seq<char> {
    "\n# "@ + destination + " - a republish of "@ + source + "\n\nThis crate is, apart from the name, an exact duplicate of "@
        + source + DISCLAIMER_BODY@
}

/// The part of the disclaimer that names no package.
pub const DISCLAIMER_BODY: &'static str = ".  It has been produced by an automatic
tool to work around some inconvenience in the upstream crate.

THIS IS PROBABLY A HUGE HACK AND YOU SHOULD NOT USE THIS CRATE.  Or at least, understand *exactly*
what the implications are before doing so -- ie, why this wacky automated fork of some source crate
exists and the potential hazards of using it.

For more information see <https://crates.io/crates/isildur>.

Original README.md file follows:

";

/// The disclaimer that opens the mirror's readme.
pub fn disclaimer(source: &str, destination: &str) -> (r: String)
    ensures
        r@ == disclaimer_spec(source@, destination@),
{
    String::from_str("\n# ").concat(destination).concat(" - a republish of ").concat(source).concat(
        "\n\nThis crate is, apart from the name, an exact duplicate of ",
    ).concat(source).concat(DISCLAIMER_BODY)
}

/// The mirror's readme: the disclaimer, then the original readme, or a note
/// that the package had none.
pub fn readme_with_disclaimer(source: &str, destination: &str, existing: Option<&str>) -> (r: String)
    ensures
        existing is Some ==> r@ == disclaimer_spec(source@, destination@) + existing.unwrap()@,
        existing is None ==> r@ == disclaimer_spec(source@, destination@) + "No readme file included in crate."@,
{
    let text = disclaimer(source, destination);
    match existing {
        Some(e) => text.concat(e),
        None => text.concat("No readme file included in crate."),
    }
}

/// The arguments of the publish command: a dry run unless `do_for_real`.
pub fn publish_args(do_for_real: bool) -> (r: Vec<String>)
    ensures
        do_for_real ==> r@.len() == 1,
        !do_for_real ==> r@.len() == 2 && r@[1]@ == "--dry-run"@,
        r@[0]@ == "publish"@,
{
    let mut args: Vec<String> = Vec::new();
    args.push(String::from_str("publish"));
    if !do_for_real {
        args.push(String::from_str("--dry-run"));
    }
    args
}

/// Whether a publish that ended with `succeeded` stops the whole run.
pub fn publish_failure_stops(succeeded: bool, ignore_failures: bool) -> (r: bool)
    ensures
        r == (!succeeded && !ignore_failures),
{
    !succeeded && !ignore_failures
}

/// Whether the package's build script and library need their name and lint
/// settings patched: only `ring`'s do, as its build script looks for its own
/// package name.
pub fn needs_source_patches(source: &str) -> (r: bool)
    ensures
        r == (source@ == "ring"@),
{
    let s = String::from_str(source);
    let ring = String::from_str("ring");
    s == ring
}

/// The `sed` expression that makes the build script look for the
/// destination's name: `s/"<source>"/"<destination>"/`.
pub fn build_script_rename(source: &str, destination: &str) -> (r: String)
    ensures
        r@ == "s/\""@ + source@ + "\"/\""@ + destination@ + "\"/"@,
{
    String::from_str("s/\"").concat(source).concat("\"/\"").concat(destination).concat("\"/")
}

} // verus!
