//! Text preparation for fixed-width painting.

use vstd::prelude::*;

verus! {

use vstd::string::{StrSliceExecFns, StringExecFns};

/// `text` cut to at most `width` characters and padded with spaces on the
/// right to exactly `width` characters.
pub open spec fn truncated_padded(text: Seq<char>, width: int) -> Seq<char>
    recommends
        width >= 0,
{
    let kept = if text.len() <= width {
        text.len() as int
    } else {
        width
    };
    text.subrange(0, kept) + Seq::new((width - kept) as nat, |i: int| ' ')
}

/// The line that paints `text` into a cell row of width `target_width`: the
/// text truncated to the width and padded with spaces to fill it.
#[verifier::loop_isolation(false)]
pub fn paint_truncated_text(text: &str, target_width: u16) -> (r: String)
    ensures
        r@ == truncated_padded(text@, target_width as int),
        r@.len() == target_width as int,
{
    let width = target_width as usize;
    let n = text.unicode_len();
    let kept = if n <= width {
        n
    } else {
        width
    };
    let mut r = String::from_str(text.substring_char(0, kept));
    proof {
        reveal_strlit(" ");
        assert(" "@ =~= seq![' ']);
        assert(r@ =~= text@.subrange(0, kept as int) + Seq::new(0, |i: int| ' '));
    }
    let mut i: usize = kept;
    while i < width
        invariant
            kept <= i <= width,
            r@ == text@.subrange(0, kept as int) + Seq::new((i - kept) as nat, |k: int| ' '),
        decreases width - i,
    {
        r.append(" ");
        proof {
            assert(text@.subrange(0, kept as int) + Seq::new((i + 1 - kept) as nat, |k: int| ' ')
                =~= text@.subrange(0, kept as int) + Seq::new((i - kept) as nat, |k: int| ' ')
                + " "@);
        }
        i = i + 1;
    }
    proof {
        assert(r@ =~= truncated_padded(text@, target_width as int));
    }
    r
}

} // verus!
