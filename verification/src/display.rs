//! How option labels are shortened for a closed combo box.

use vstd::prelude::*;
use vstd::string::StrSliceExecFns;
use crate::text::{chars_of, find, find_chars, lemma_find_from, string_of, trim, trim_bounds};

verus! {

/// The text before the first `  —  ` (all of it when there is none), with
/// white space trimmed at both ends.
pub open spec fn short_label(s: Seq<char>) -> Seq<char> {
    let k = find(s, "  —  "@);
    trim(
        if k < 0 {
            s
        } else {
            s.take(k)
        },
    )
}

/// Format labels read `DNxHR / MOV  —  DaVinci Resolve ready`; the closed box
/// shows only the format, since the half after the dash is what the hover
/// explanation says at length.
pub fn short(label: &str) -> (r: &str)
    ensures
        r@ == short_label(label@),
{
    let c = chars_of(label);
    let sep = chars_of("  —  ");
    let end: usize = match find_chars(c.as_slice(), sep.as_slice()) {
        Some(k) => {
            proof {
                lemma_find_from(c@, sep@, 0);
            }
            k
        },
        None => c.len(),
    };
    let head = string_of(c.as_slice(), 0, end);
    let hc = chars_of(head.as_str());
    let (lo, hi) = trim_bounds(hc.as_slice());
    proof {
        if find(label@, "  —  "@) >= 0 {
            assert(hc@ =~= label@.take(end as int));
        } else {
            assert(hc@ =~= label@);
        }
        assert(hc@.subrange(lo as int, hi as int) =~= label@.subrange(lo as int, hi as int));
    }
    label.substring_char(lo, hi)
}

} // verus!
