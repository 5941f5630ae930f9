//! Which processor an asset targets, read from its name.
use vstd::prelude::*;

use crate::text::{chars_of, has_infix, infix_of};

verus! {

/// The processor families that assets are sorted into.
#[derive(Debug, Clone, Copy, PartialEq, Eq)]
pub enum Architecture {
    X64,
    Arm64,
}

/// Rules in order, first match wins: `x64` or `x86_64` is X64, then
/// `ARM64` or `aarch64` is ARM64; any other name is left out.
pub open spec fn arch_of(name: Seq<char>) -> Option<Architecture> {
    if has_infix(name, seq!['x', '6', '4']) || has_infix(name, seq!['x', '8', '6', '_', '6', '4']) {
        Some(Architecture::X64)
    } else if has_infix(name, seq!['A', 'R', 'M', '6', '4']) || has_infix(
        name,
        seq!['a', 'a', 'r', 'c', 'h', '6', '4'],
    ) {
        Some(Architecture::Arm64)
    } else {
        None
    }
}

/// The directory name under which an architecture's files go.
pub open spec fn arch_dir_name(a: Architecture) -> Seq<char> {
    match a {
        Architecture::X64 => seq!['X', '6', '4'],
        Architecture::Arm64 => seq!['A', 'R', 'M', '6', '4'],
    }
}

/// Sorts an asset by its name; `None` for a name that matches no rule.
pub fn classify_asset(name: &str) -> (r: Option<Architecture>)
    ensures
        r == arch_of(name@),
{
    let n = chars_of(name);
    if infix_of(&n, &vec!['x', '6', '4']) || infix_of(&n, &vec!['x', '8', '6', '_', '6', '4']) {
        Some(Architecture::X64)
    } else if infix_of(&n, &vec!['A', 'R', 'M', '6', '4']) || infix_of(
        &n,
        &vec!['a', 'a', 'r', 'c', 'h', '6', '4'],
    ) {
        Some(Architecture::Arm64)
    } else {
        None
    }
}

impl Architecture {
    /// The name of this architecture's directory under a tool.
    pub fn dir_name(&self) -> (r: String)
        ensures
            r@ == arch_dir_name(*self),
    {
        match self {
            Architecture::X64 => {
                let s = "X64";
                proof {
                    reveal_strlit("X64");
                }
                String::from_str(s)
            },
            Architecture::Arm64 => {
                let s = "ARM64";
                proof {
                    reveal_strlit("ARM64");
                }
                String::from_str(s)
            },
        }
    }
}

} // verus!
