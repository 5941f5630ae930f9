//! Where a tool's files live: `<root>/<repo>/info.txt` for the marker and
//! `<root>/<repo>/<architecture>/` for what its archives hold.
use vstd::prelude::*;

use crate::arch::{arch_dir_name, Architecture};

verus! {

/// The name of the marker file in a tool's directory.
pub const MARKER_FILE: &'static str = "info.txt";

/// The name of the registry file in the working directory.
pub const REGISTRY_FILE: &'static str = "tools.txt";

/// `part` placed under the directory `base`.
pub open spec fn joined(base: Seq<char>, part: Seq<char>) -> Seq<char> {
    if base.len() == 0 {
        part
    } else if base.last() == '/' {
        base + part
    } else {
        base + seq!['/'] + part
    }
}

/// Places the relative path `part` under the directory `base`.
pub fn join_path(base: &str, part: &str) -> (r: String)
    ensures
        r@ == joined(base@, part@),
{
    let n = base.unicode_len();
    if n == 0 {
        return String::from_str(part);
    }
    if base.get_char(n - 1) == '/' {
        String::from_str(base).concat(part)
    } else {
        let sep = "/";
        proof {
            reveal_strlit("/");
        }
        String::from_str(base).concat(sep).concat(part)
    }
}

/// The registry file of the working directory `root`.
pub fn registry_path(root: &str) -> (r: String)
    ensures
        r@ == joined(root@, REGISTRY_FILE@),
{
    join_path(root, REGISTRY_FILE)
}

/// The directory of the tool `repo`.
pub fn tool_dir(root: &str, repo: &str) -> (r: String)
    ensures
        r@ == joined(root@, repo@),
{
    join_path(root, repo)
}

/// The marker file of the tool `repo`.
pub fn marker_path(root: &str, repo: &str) -> (r: String)
    ensures
        r@ == joined(joined(root@, repo@), MARKER_FILE@),
{
    let dir = tool_dir(root, repo);
    join_path(dir.as_str(), MARKER_FILE)
}

/// The directory that receives the tool's files for `arch`.
pub fn arch_dir(root: &str, repo: &str, arch: Architecture) -> (r: String)
    ensures
        r@ == joined(joined(root@, repo@), arch_dir_name(arch)),
{
    let dir = tool_dir(root, repo);
    let name = arch.dir_name();
    join_path(dir.as_str(), name.as_str())
}

} // verus!
