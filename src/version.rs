//! The installed-version marker and the rule that decides whether a tool is
//! current.
use vstd::prelude::*;

use crate::text::{chars_of, has_prefix, prefix_at};

verus! {

/// A tool is current when a marker is present and the latest tag starts
/// with it (a prefix rule, not equality).
pub open spec fn up_to_date(installed: Option<Seq<char>>, latest: Seq<char>) -> bool {
    installed is Some && has_prefix(latest, installed->0)
}

/// Whether the tool with marker `installed` needs no update to `latest`.
pub fn is_up_to_date(installed: Option<&str>, latest: &str) -> (r: bool)
    ensures
        r == up_to_date(
            match installed {
                Some(m) => Some(m@),
                None => None,
            },
            latest@,
        ),
{
    match installed {
        None => false,
        Some(m) => {
            let l = chars_of(latest);
            let p = chars_of(m);
            let r = prefix_at(&l, 0, l.len(), &p);
            assert(l@.subrange(0, l.len() as int) == l@);
            r
        },
    }
}

} // verus!
