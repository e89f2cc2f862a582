//! What the compatibility classifier reports per package, and the small
//! pieces of its output handling that are plain logic: turning the
//! reported severity into a bump kind, and shortening a public-item
//! rendering for display.

use vstd::prelude::*;

use crate::plan::BumpKind;

verus! {

/// One package whose public surface changed.
#[derive(Debug, Clone)]
pub struct Change {
    pub name: String,
    pub path: String,
    pub bump: BumpKind,
}

/// The bump a compatibility report calls for.  A report that demands a
/// breaking release wins; a compatible addition raises a patch-level
/// report to a compatible release; additions alone are a compatible
/// release; and no report with no additions is no change at all.
pub fn classify_bump(required: Option<BumpKind>, added_any: bool) -> (r: BumpKind)
    ensures
        required == Some(BumpKind::Major) ==> r == BumpKind::Major,
        required == Some(BumpKind::Minor) ==> r == BumpKind::Minor,
        required == Some(BumpKind::Patch) && added_any ==> r == BumpKind::Minor,
        required == Some(BumpKind::Patch) && !added_any ==> r == BumpKind::Patch,
        required == Some(BumpKind::Unchanged) ==> r == BumpKind::Major,
        required is None && added_any ==> r == BumpKind::Minor,
        required is None && !added_any ==> r == BumpKind::Unchanged,
{
    match required {
        Some(BumpKind::Major) => BumpKind::Major,
        Some(BumpKind::Minor) => BumpKind::Minor,
        Some(BumpKind::Patch) => if added_any {
            BumpKind::Minor
        } else {
            BumpKind::Patch
        },
        Some(BumpKind::Unchanged) => BumpKind::Major,
        None => if added_any {
            BumpKind::Minor
        } else {
            BumpKind::Unchanged
        },
    }
}

/// A rendered public item made readable: every path in it is cut down
/// to its last two segments, and the text is wrapped at a fixed column
/// limit.  Display formatting is outside this crate's specified
/// behaviour; the contract only pins the empty case.
pub fn fmt_change(s: &str) -> (r: String)
    requires
        s@.len() < usize::MAX - 141,
    ensures
        s@.len() == 0 ==> r@.len() == 0,
{
    let n = s.unicode_len();
    let mut out = String::new();
    let mut col: usize = 0;
    let mut i: usize = 0;
    while i < n
        invariant
            n == s@.len(),
            n < usize::MAX - 141,
            i <= n,
            col < 140,
            n == 0 ==> out@.len() == 0,
        decreases n - i,
    {
        if s.get_char(i) == ' ' {
            i += 1;
        } else {
            let mut j = i + 1;
            while j < n && s.get_char(j) != ' '
                invariant
                    n == s@.len(),
                    i < j <= n,
                decreases n - j,
            {
                j += 1;
            }
            // the start of the last two path segments of this word
            let mut sep_last: Option<usize> = None;
            let mut sep_before: Option<usize> = None;
            let mut p = i;
            while p + 1 < j
                invariant
                    n == s@.len(),
                    n < usize::MAX - 141,
                    j <= n,
                    i <= p <= j,
                    match sep_last {
                        Some(q) => i <= q && q + 2 <= j,
                        None => true,
                    },
                    match sep_before {
                        Some(q) => i <= q && q + 2 <= j,
                        None => true,
                    },
                decreases j - p,
            {
                if s.get_char(p) == ':' && s.get_char(p + 1) == ':' {
                    sep_before = sep_last;
                    sep_last = Some(p);
                    p += 2;
                } else {
                    p += 1;
                }
            }
            let start = match sep_before {
                Some(q) => q + 2,
                None => i,
            };
            let wlen = j - start;
            col = col + wlen + 1;
            if col >= 140 {
                out.append("\n    ");
                col = 0;
            }
            out.append(" ");
            out.append(s.substring_char(start, j));
            i = j;
        }
    }
    // trim the leading separator the word loop always writes
    let m = out.unicode_len();
    let mut t: usize = 0;
    while t < m && (out.as_str().get_char(t) == ' ' || out.as_str().get_char(t) == '\n')
        invariant
            m == out@.len(),
            t <= m,
        decreases m - t,
    {
        t += 1;
    }
    let r = out.as_str().substring_char(t, m).to_owned();
    proof {
        if s@.len() == 0 {
            assert(out@.len() == 0);
            assert(r@ =~= Seq::<char>::empty());
        }
    }
    r
}

} // verus!
