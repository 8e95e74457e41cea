//! Truncation accounting: given a byte budget, how much of a fragment's
//! content is visible, and whether the fragment was cut off.

use vstd::prelude::*;

use crate::debug_str_fmt::{char_debug_len, escape_of, escaped, lemma_escaped_take_step};

verus! {

/// The sign of an integer handed to the integer encoder.
#[derive(Copy, Clone)]
pub enum Sign {
    Positive,
    Negative,
}

/// Outcome of the truncation computation: `Yes(n)` means only the first
/// `n` content bytes are visible; `No` means the whole content fits.
#[derive(Copy, Clone)]
pub enum WasTruncated {
    Yes(usize),
    No,
}

/// The visible content length that a truncation outcome denotes, for
/// content of length `len`.
pub open spec fn spec_get_length(t: WasTruncated, len: int) -> int {
    match t {
        WasTruncated::Yes(x) => x as int,
        WasTruncated::No => len,
    }
}

impl WasTruncated {
    /// How many of `s`'s bytes are visible under this outcome.
    pub fn get_length(&self, s: &[u8]) -> (r: usize)
        requires
            spec_get_length(*self, s@.len() as int) <= s@.len(),
        ensures
            r == spec_get_length(*self, s@.len() as int),
    {
        match self {
            WasTruncated::Yes(x) => *x,
            WasTruncated::No => s.len(),
        }
    }
}

/// The smaller of two lengths.
pub fn min_usize(l: usize, r: usize) -> (m: usize)
    ensures
        m == if l < r { l as int } else { r as int },
{
    if l < r {
        l
    } else {
        r
    }
}

/// How many leading bytes of `s` fit in a Debug-mode content budget:
/// each byte is counted at its encoded width, and a byte whose whole
/// escape does not fit is excluded entirely.
pub open spec fn debug_vis(s: Seq<u8>, budget: int) -> int
    decreases s.len(),
{
    if s.len() == 0 {
        0
    } else if escape_of(s[0]).len() <= budget {
        1 + debug_vis(s.drop_first(), budget - escape_of(s[0]).len())
    } else {
        0
    }
}

/// The visible count lies between zero and the content length.
pub proof fn lemma_debug_vis_bounds(s: Seq<u8>, budget: int)
    ensures
        0 <= debug_vis(s, budget) <= s.len(),
    decreases s.len(),
{
    if s.len() > 0 && escape_of(s[0]).len() <= budget {
        lemma_debug_vis_bounds(s.drop_first(), budget - escape_of(s[0]).len());
    }
}

/// What is visible encodes into the budget.
pub proof fn lemma_debug_vis_enc(s: Seq<u8>, budget: int)
    requires
        budget >= 0,
    ensures
        escaped(s.take(debug_vis(s, budget))).len() <= budget,
    decreases s.len(),
{
    lemma_debug_vis_bounds(s, budget);
    if s.len() == 0 || escape_of(s[0]).len() > budget {
        assert(s.take(0) =~= Seq::<u8>::empty());
    } else {
        let d = escape_of(s[0]).len() as int;
        let r = s.drop_first();
        lemma_debug_vis_bounds(r, budget - d);
        lemma_debug_vis_enc(r, budget - d);
        let v = debug_vis(s, budget);
        assert(s.take(v).drop_first() =~= r.take(v - 1));
        assert(s.take(v) =~= seq![s[0]] + r.take(v - 1));
        lemma_escaped_prepend(s[0], r.take(v - 1));
    }
}

/// Encoding distributes over prepending one byte.
pub proof fn lemma_escaped_prepend(b: u8, s: Seq<u8>)
    ensures
        escaped(seq![b] + s) == escape_of(b) + escaped(s),
    decreases s.len(),
{
    let t = seq![b] + s;
    if s.len() == 0 {
        assert(t.drop_last() =~= Seq::<u8>::empty());
        assert(t.last() == b);
        assert(escaped(Seq::<u8>::empty()) =~= Seq::<u8>::empty());
        assert(escaped(t) =~= escape_of(b));
        assert(escape_of(b) + escaped(s) =~= escape_of(b));
    } else {
        assert(t.drop_last() =~= seq![b] + s.drop_last());
        assert(t.last() == s.last());
        lemma_escaped_prepend(b, s.drop_last());
        assert((escape_of(b) + escaped(s.drop_last())) + escape_of(s.last()) =~= escape_of(b)
            + escaped(s));
    }
}

/// If the whole content encodes into the budget, all of it is visible;
/// and conversely.
pub proof fn lemma_debug_vis_full(s: Seq<u8>, budget: int)
    requires
        s.len() > 0,
    ensures
        debug_vis(s, budget) == s.len() <==> escaped(s).len() <= budget,
    decreases s.len(),
{
    lemma_debug_vis_bounds(s, budget);
    let d = escape_of(s[0]).len() as int;
    let r = s.drop_first();
    lemma_escaped_prepend(s[0], r);
    assert(seq![s[0]] + r =~= s);
    assert(escaped(s) == escape_of(s[0]) + escaped(r));
    assert(escaped(s).len() == d + escaped(r).len());
    if r.len() == 0 {
        assert(escaped(r) =~= Seq::<u8>::empty());
        assert(escaped(s).len() == d);
        if d <= budget {
            assert(debug_vis(r, budget - d) == 0);
            assert(debug_vis(s, budget) == 1);
        } else {
            assert(debug_vis(s, budget) == 0);
        }
    } else {
        lemma_debug_vis_full(r, budget - d);
        lemma_debug_vis_bounds(r, budget - d);
        if d <= budget {
            assert(debug_vis(s, budget) == 1 + debug_vis(r, budget - d));
            assert(debug_vis(s, budget) == s.len() <==> debug_vis(r, budget - d) == r.len());
            assert(escaped(s).len() <= budget <==> escaped(r).len() <= budget - d);
        } else {
            assert(debug_vis(s, budget) == 0);
            assert(escaped(r).len() >= 0);
            assert(escaped(s).len() > budget);
        }
    }
}

/// When the content is cut off, the first excluded byte's whole escape
/// would overflow the budget: truncation backs off to the escape-sequence
/// boundary rather than splitting one.
pub proof fn lemma_debug_vis_next(s: Seq<u8>, budget: int)
    requires
        debug_vis(s, budget) < s.len(),
    ensures
        escaped(s.take(debug_vis(s, budget))).len() + escape_of(s[debug_vis(s, budget)]).len()
            > budget,
    decreases s.len(),
{
    lemma_debug_vis_bounds(s, budget);
    let v = debug_vis(s, budget);
    let d = escape_of(s[0]).len() as int;
    if d <= budget {
        let r = s.drop_first();
        lemma_debug_vis_bounds(r, budget - d);
        lemma_debug_vis_next(r, budget - d);
        assert(s.take(v).drop_first() =~= r.take(v - 1));
        assert(s.take(v) =~= seq![s[0]] + r.take(v - 1));
        lemma_escaped_prepend(s[0], r.take(v - 1));
        assert(s[v] == r[v - 1]);
    } else {
        assert(s.take(0) =~= Seq::<u8>::empty());
    }
}

/// A run of `n` space bytes (none for a negative count).
pub open spec fn spaces(n: int) -> Seq<u8> {
    Seq::new((if n < 0 { 0 } else { n }) as nat, |i: int| 32u8)
}

/// Extending a run of spaces by one appends one space byte.
pub proof fn lemma_spaces_step(n: int)
    requires
        n >= 0,
    ensures
        spaces(n + 1) == spaces(n).push(32u8),
{
    assert(spaces(n + 1) =~= spaces(n).push(32u8));
}

/// The bytes emitted for Debug-mode content under a content budget `b`:
/// nothing when the budget is exhausted; otherwise an opening quote, the
/// escapes of every visible byte, and a closing quote only when all
/// content is visible and the quote still fits.
pub open spec fn debug_emission(s: Seq<u8>, b: int) -> Seq<u8> {
    if b <= 0 {
        Seq::empty()
    } else {
        let vis = debug_vis(s, b - 1);
        let body = seq![34u8] + escaped(s.take(vis));
        if vis == s.len() && body.len() + 1 <= b {
            body.push(34u8)
        } else {
            body
        }
    }
}

/// The Debug-mode emission fits in its budget.
pub proof fn lemma_debug_emission_len(s: Seq<u8>, b: int)
    ensures
        debug_emission(s, b).len() <= if b < 0 {
            0
        } else {
            b
        },
{
    if b > 0 {
        lemma_debug_vis_bounds(s, b - 1);
        lemma_debug_vis_enc(s, b - 1);
    }
}

/// Byte-count truncation of Display-mode content: everything fits, or
/// exactly the budget's worth of leading bytes is visible.
pub fn truncated_str_len(s: &[u8], truncate_to: usize) -> (r: WasTruncated)
    ensures
        r == if s@.len() <= truncate_to {
            WasTruncated::No
        } else {
            WasTruncated::Yes(truncate_to)
        },
{
    if s.len() <= truncate_to {
        WasTruncated::No
    } else {
        WasTruncated::Yes(truncate_to)
    }
}

/// Escape-aware truncation of Debug-mode content. Walks the bytes,
/// charging each at its encoded width on top of the opening quote, and
/// stops before the first byte whose whole escape would overflow the
/// budget. Also returns the accumulated encoded length: one for the
/// opening quote plus the encoded width of everything visible.
pub fn truncated_debug_str_len(s: &[u8], truncate_to: usize) -> (r: (WasTruncated, usize))
    ensures
        ({
            let vis = debug_vis(s@, truncate_to - 1);
            &&& r.1 == 1 + escaped(s@.take(vis)).len()
            &&& r.0 == if s@.len() > 0 && vis < s@.len() {
                WasTruncated::Yes(vis as usize)
            } else {
                WasTruncated::No
            }
            &&& spec_get_length(r.0, s@.len() as int) == vis
        }),
{
    let ghost gvis = debug_vis(s@, truncate_to - 1);
    proof {
        lemma_debug_vis_bounds(s@, truncate_to - 1);
        assert(s@.skip(0) =~= s@);
        assert(s@.take(0) =~= Seq::<u8>::empty());
        assert(escaped(Seq::<u8>::empty()) =~= Seq::<u8>::empty());
    }
    let mut i: usize = 0;
    let mut len: usize = 1;
    while i < s.len()
        invariant
            0 <= i <= s@.len(),
            len == 1 + escaped(s@.take(i as int)).len(),
            len == 1 || len <= truncate_to,
            gvis == debug_vis(s@, truncate_to - 1),
            gvis == i + debug_vis(s@.skip(i as int), truncate_to - len),
        decreases s@.len() - i,
    {
        let c = s[i];
        let d = char_debug_len(c);
        proof {
            assert(s@.skip(i as int)[0] == s@[i as int]);
        }
        if len > truncate_to || d > truncate_to - len {
            proof {
                assert(debug_vis(s@.skip(i as int), truncate_to - len) == 0);
            }
            return (WasTruncated::Yes(i), len);
        }
        proof {
            assert(s@.skip(i as int).drop_first() =~= s@.skip(i + 1));
            lemma_escaped_take_step(s@, i as int);
        }
        len = len + d;
        i = i + 1;
    }
    proof {
        assert(s@.skip(i as int) =~= Seq::<u8>::empty());
        assert(s@.take(i as int) =~= s@);
    }
    (WasTruncated::No, len)
}

} // verus!
