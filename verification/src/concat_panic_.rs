//! The buffer-fill driver and the escalating-capacity controller.
//!
//! The driver walks an argument list — a sequence of groups of fragments —
//! and copies each fragment's rendered bytes into an output buffer,
//! escaping Debug-mode content inline. A fragment that does not fit below
//! the maximum capacity aborts the fill with [`NotEnoughSpace`]; at the
//! maximum capacity the fill instead stops and keeps everything written so
//! far. The controller retries the driver over ascending capacity tiers.

use vstd::prelude::*;

use crate::debug_str_fmt::{
    escaped, get_backslash_escape, hex_as_ascii, is_backslash_escaped, is_escaped,
    lemma_escaped_take_step,
};
use crate::fmt::IsDisplay;
use crate::panic_val::PanicVal;
use crate::utils::{debug_emission, lemma_spaces_step, spaces, spec_get_length, WasTruncated};

verus! {

/// The hard ceiling on the rendered message's length: the capacity of the
/// final tier, at which truncation is accepted rather than retried.
pub const MAX_PANIC_MSG_LEN: usize = 32768;

/// Internal signal that a capacity tier below the maximum was too small;
/// the caller retries at the next larger tier.
#[derive(Debug)]
pub struct NotEnoughSpace;

/// What the driver produces from a flat fragment list at capacity `cap`
/// with ceiling `max`, having already written `acc`: `None` when a
/// fragment is cut off below the ceiling; otherwise the final bytes,
/// stopping at the first fragment cut off at the ceiling.
pub open spec fn fill_frags(frags: Seq<PanicVal>, cap: int, max: int, acc: Seq<u8>) -> Option<
    Seq<u8>,
>
    decreases frags.len(),
{
    if frags.len() == 0 {
        Some(acc)
    } else {
        let v = frags[0];
        let rem = cap - acc.len();
        let acc2 = acc + v.emission(rem);
        if v.truncated(rem) {
            if cap < max {
                None
            } else {
                Some(acc2)
            }
        } else {
            fill_frags(frags.drop_first(), cap, max, acc2)
        }
    }
}

/// The argument list flattened into rendering order: group by group,
/// fragment by fragment.
pub open spec fn all_frags<'a>(args: Seq<&'a [PanicVal<'a>]>) -> Seq<PanicVal<'a>> {
    args.map_values(|g: &'a [PanicVal<'a>]| g@).flatten()
}

/// What one fill pass over the whole argument list produces.
pub open spec fn render_spec<'a>(args: Seq<&'a [PanicVal<'a>]>, cap: int, max: int) -> Option<
    Seq<u8>,
> {
    fill_frags(all_frags(args), cap, max, Seq::empty())
}

/// The message the tiered controller produces: the first tier whose fill
/// fits, or the ceiling tier's output, truncation accepted.
pub open spec fn concat_spec<'a>(args: Seq<&'a [PanicVal<'a>]>) -> Seq<u8> {
    if render_spec(args, 1024, MAX_PANIC_MSG_LEN as int) is Some {
        render_spec(args, 1024, MAX_PANIC_MSG_LEN as int).unwrap()
    } else if render_spec(args, (1024 * 6) as int, MAX_PANIC_MSG_LEN as int) is Some {
        render_spec(args, (1024 * 6) as int, MAX_PANIC_MSG_LEN as int).unwrap()
    } else {
        render_spec(args, MAX_PANIC_MSG_LEN as int, MAX_PANIC_MSG_LEN as int).unwrap()
    }
}

/// At the ceiling capacity the fill always produces a message: a cut-off
/// fragment stops the walk instead of failing it.
pub proof fn lemma_fill_frags_some(frags: Seq<PanicVal>, cap: int, max: int, acc: Seq<u8>)
    requires
        cap >= max,
    ensures
        fill_frags(frags, cap, max, acc) is Some,
    decreases frags.len(),
{
    if frags.len() > 0 {
        let v = frags[0];
        let rem = cap - acc.len();
        if !v.truncated(rem) {
            lemma_fill_frags_some(frags.drop_first(), cap, max, acc + v.emission(rem));
        }
    }
}

/// A successful fill never exceeds its capacity, whatever the argument
/// list: each fragment's emission fits the remaining budget.
pub proof fn lemma_fill_frags_len(frags: Seq<PanicVal>, cap: int, max: int, acc: Seq<u8>)
    requires
        acc.len() <= cap,
    ensures
        fill_frags(frags, cap, max, acc) matches Some(out) ==> out.len() <= cap,
    decreases frags.len(),
{
    if frags.len() > 0 {
        let v = frags[0];
        let rem = cap - acc.len();
        v.lemma_emission_len(rem);
        if !v.truncated(rem) {
            lemma_fill_frags_len(frags.drop_first(), cap, max, acc + v.emission(rem));
        }
    }
}

/// A fill only appends: everything already written is kept, whatever
/// comes after — including a cut at the ceiling.
pub proof fn lemma_fill_frags_keeps_prefix(frags: Seq<PanicVal>, cap: int, max: int, acc: Seq<u8>)
    ensures
        fill_frags(frags, cap, max, acc) matches Some(out) ==> acc.is_prefix_of(out),
    decreases frags.len(),
{
    if frags.len() > 0 {
        let v = frags[0];
        let rem = cap - acc.len();
        let acc2 = acc + v.emission(rem);
        assert(acc.is_prefix_of(acc2));
        if !v.truncated(rem) {
            lemma_fill_frags_keeps_prefix(frags.drop_first(), cap, max, acc2);
        }
    }
}

/// Splitting a flattened sequence of sequences at group `i`.
pub proof fn lemma_flatten_split<A>(s: Seq<Seq<A>>, i: int)
    requires
        0 <= i < s.len(),
    ensures
        s.skip(i).flatten() == s[i] + s.skip(i + 1).flatten(),
{
    let t = s.skip(i);
    assert(t.len() > 0);
    assert(t.first() == s[i]);
    assert(t.drop_first() =~= s.skip(i + 1));
}

/// Emits one fragment into the buffer: applied left padding, the visible
/// content (quoted and escaped in Debug mode), applied right padding.
/// Returns whether the fragment was cut off.
fn write_panicval_to_buffer(buffer: &mut Vec<u8>, capacity: usize, arg: &PanicVal<'_>) -> (truncated:
    bool)
    requires
        old(buffer)@.len() <= capacity,
    ensures
        final(buffer)@ == old(buffer)@ + arg.emission(capacity - old(buffer)@.len()),
        final(buffer)@.len() <= capacity,
        truncated == arg.truncated(capacity - old(buffer)@.len()),
{
    let ghost start_seq = buffer@;
    let ghost rem = capacity as int - start_seq.len();
    let rem_space = capacity - buffer.len();
    let (lpad, rpad, string, is_display, was_truncated) = arg.__string(rem_space);
    let trunc_len = was_truncated.get_length(string);
    let ghost vis = spec_get_length(was_truncated, string@.len() as int);
    let ghost body = if is_display is Yes {
        string@.take(vis)
    } else {
        debug_emission(string@, rem - lpad)
    };
    proof {
        assert(arg.emission(rem) == spaces(lpad as int) + body + spaces(rpad as int));
        arg.lemma_emission_len(rem);
        assert(spaces(0) =~= Seq::<u8>::empty());
        assert(buffer@ =~= start_seq + spaces(0));
    }

    let mut k: usize = 0;
    while k < lpad
        invariant
            0 <= k <= lpad,
            buffer@ == start_seq + spaces(k as int),
        decreases lpad - k,
    {
        buffer.push(32);
        k = k + 1;
        proof {
            lemma_spaces_step(k - 1);
            assert(buffer@ =~= start_seq + spaces(k as int));
        }
    }

    match is_display {
        IsDisplay::Yes => {
            let mut i: usize = 0;
            proof {
                assert(string@.take(0) =~= Seq::<u8>::empty());
                assert(buffer@ =~= start_seq + spaces(lpad as int) + string@.take(0));
            }
            while i < trunc_len
                invariant
                    0 <= i <= trunc_len,
                    trunc_len == vis,
                    vis <= string@.len(),
                    buffer@ == start_seq + spaces(lpad as int) + string@.take(i as int),
                decreases trunc_len - i,
            {
                let c = string[i];
                buffer.push(c);
                i = i + 1;
                proof {
                    assert(string@.take(i as int) =~= string@.take(i - 1).push(c));
                    assert(buffer@ =~= start_seq + spaces(lpad as int) + string@.take(i as int));
                }
            }
            proof {
                assert(buffer@ =~= start_seq + spaces(lpad as int) + body);
            }
        },
        IsDisplay::No => {
            let budget = rem_space - lpad;
            if budget != 0 {
                buffer.push(34);
                let ghost quoted = spaces(lpad as int) + seq![34u8];
                proof {
                    assert(escaped(string@.take(0)) =~= Seq::<u8>::empty());
                    assert(string@.take(0) =~= Seq::<u8>::empty());
                    assert(buffer@ =~= start_seq + quoted + escaped(string@.take(0)));
                }
                let mut i: usize = 0;
                while i < trunc_len
                    invariant
                        0 <= i <= trunc_len,
                        trunc_len == vis,
                        vis <= string@.len(),
                        quoted == spaces(lpad as int) + seq![34u8],
                        buffer@ == start_seq + quoted + escaped(string@.take(i as int)),
                    decreases trunc_len - i,
                {
                    let c = string[i];
                    if is_escaped(c) {
                        buffer.push(92);
                        if is_backslash_escaped(c) {
                            buffer.push(get_backslash_escape(c));
                        } else {
                            buffer.push(120);
                            buffer.push(hex_as_ascii(c / 16));
                            buffer.push(hex_as_ascii(c % 16));
                        }
                    } else {
                        buffer.push(c);
                    }
                    i = i + 1;
                    proof {
                        lemma_escaped_take_step(string@, i - 1);
                        assert(buffer@ =~= start_seq + quoted + escaped(string@.take(i as int)));
                    }
                }
                let closing = match was_truncated {
                    WasTruncated::No => true,
                    WasTruncated::Yes(_) => false,
                };
                if closing && buffer.len() < capacity {
                    buffer.push(34);
                    proof {
                        assert(buffer@ =~= start_seq + spaces(lpad as int) + (seq![34u8] + escaped(
                            string@.take(vis),
                        )).push(34u8));
                        assert(body == (seq![34u8] + escaped(string@.take(vis))).push(34u8));
                        assert(buffer@ =~= start_seq + spaces(lpad as int) + body);
                    }
                } else {
                    proof {
                        assert(body == seq![34u8] + escaped(string@.take(vis)));
                        assert(buffer@ =~= start_seq + spaces(lpad as int) + body);
                    }
                }
            } else {
                proof {
                    assert(body =~= Seq::<u8>::empty());
                    assert(buffer@ =~= start_seq + spaces(lpad as int) + body);
                }
            }
        },
    }

    let ghost before_rpad = buffer@;
    let mut k2: usize = 0;
    while k2 < rpad
        invariant
            0 <= k2 <= rpad,
            buffer@ == before_rpad + spaces(k2 as int),
        decreases rpad - k2,
    {
        buffer.push(32);
        k2 = k2 + 1;
        proof {
            lemma_spaces_step(k2 - 1);
            assert(buffer@ =~= before_rpad + spaces(k2 as int));
        }
    }
    proof {
        assert(buffer@ =~= start_seq + (spaces(lpad as int) + body + spaces(rpad as int)));
        assert(buffer@ =~= start_seq + arg.emission(rem));
    }
    match was_truncated {
        WasTruncated::Yes(_) => true,
        WasTruncated::No => false,
    }
}

/// One fill pass: renders the whole argument list into a buffer of
/// `capacity` bytes. Fails with [`NotEnoughSpace`] if a fragment is cut
/// off while `capacity` is below `max_capacity`; at or above
/// `max_capacity` a cut-off fragment instead ends the message, keeping
/// everything written so far.
pub fn format_panic_message<'a>(
    args: &[&[PanicVal<'a>]],
    capacity: usize,
    max_capacity: usize,
) -> (r: Result<Vec<u8>, NotEnoughSpace>)
    ensures
        (r matches Ok(m) ==> Some(m@) == render_spec(
            args@,
            capacity as int,
            max_capacity as int,
        ) && m@.len() <= capacity),
        (r matches Err(e) ==> render_spec(args@, capacity as int, max_capacity as int) is None),
{
    let mut buffer: Vec<u8> = Vec::new();
    let ghost gseq: Seq<Seq<PanicVal<'a>>> = args@.map_values(|g: &[PanicVal<'a>]| g@);
    let ghost goal = render_spec(args@, capacity as int, max_capacity as int);
    proof {
        assert(gseq.skip(0) =~= gseq);
        assert(all_frags(args@) == gseq.flatten());
    }
    let mut gi: usize = 0;
    while gi < args.len()
        invariant
            0 <= gi <= args@.len(),
            gseq == args@.map_values(|g: &[PanicVal<'a>]| g@),
            goal == render_spec(args@, capacity as int, max_capacity as int),
            buffer@.len() <= capacity,
            fill_frags(
                gseq.skip(gi as int).flatten(),
                capacity as int,
                max_capacity as int,
                buffer@,
            ) == goal,
        decreases args@.len() - gi,
    {
        let group: &[PanicVal<'a>] = args[gi];
        proof {
            lemma_flatten_split(gseq, gi as int);
            assert(group@ == gseq[gi as int]);
            assert(group@.skip(0) =~= group@);
        }
        let mut fi: usize = 0;
        while fi < group.len()
            invariant
                0 <= fi <= group@.len(),
                0 <= gi < args@.len(),
                group@ == gseq[gi as int],
                gseq == args@.map_values(|g: &[PanicVal<'a>]| g@),
                goal == render_spec(args@, capacity as int, max_capacity as int),
                buffer@.len() <= capacity,
                fill_frags(
                    group@.skip(fi as int) + gseq.skip(gi as int + 1).flatten(),
                    capacity as int,
                    max_capacity as int,
                    buffer@,
                ) == goal,
            decreases group@.len() - fi,
        {
            let arg = group[fi];
            let ghost rest = group@.skip(fi as int) + gseq.skip(gi as int + 1).flatten();
            let ghost rem = capacity as int - buffer@.len();
            proof {
                assert(rest.len() > 0);
                assert(rest[0] == group@[fi as int]);
            }
            let truncated = write_panicval_to_buffer(&mut buffer, capacity, &arg);
            proof {
                assert(rest.drop_first() =~= group@.skip(fi as int + 1) + gseq.skip(
                    gi as int + 1,
                ).flatten());
            }
            if truncated {
                if capacity < max_capacity {
                    return Err(NotEnoughSpace);
                } else {
                    return Ok(buffer);
                }
            }
            fi = fi + 1;
        }
        gi = gi + 1;
        proof {
            assert(group@.skip(group@.len() as int) =~= Seq::<PanicVal>::empty());
            assert(Seq::<PanicVal>::empty() + gseq.skip(gi as int).flatten() =~= gseq.skip(
                gi as int,
            ).flatten());
        }
    }
    proof {
        assert(gseq.skip(args@.len() as int) =~= Seq::<Seq<PanicVal>>::empty());
        assert(Seq::<Seq<PanicVal>>::empty().flatten() =~= Seq::<PanicVal>::empty());
    }
    Ok(buffer)
}

/// Renders the argument list through the capacity tiers, smallest first,
/// and returns the final message bytes: the first tier that fits wins,
/// and the ceiling tier accepts truncation, so a message is always
/// produced.
pub fn concat_panic<'a>(args: &[&[PanicVal<'a>]]) -> (r: Vec<u8>)
    ensures
        r@ == concat_spec(args@),
        r@.len() <= MAX_PANIC_MSG_LEN,
{
    match format_panic_message(args, 1024, MAX_PANIC_MSG_LEN) {
        Ok(m) => {
            return m;
        },
        Err(_) => {},
    }
    match format_panic_message(args, 1024 * 6, MAX_PANIC_MSG_LEN) {
        Ok(m) => {
            return m;
        },
        Err(_) => {},
    }
    match format_panic_message(args, MAX_PANIC_MSG_LEN, MAX_PANIC_MSG_LEN) {
        Ok(m) => m,
        Err(_) => {
            proof {
                lemma_fill_frags_some(
                    all_frags(args@),
                    MAX_PANIC_MSG_LEN as int,
                    MAX_PANIC_MSG_LEN as int,
                    Seq::empty(),
                );
            }
            vstd::pervasive::unreached()
        },
    }
}

} // verus!
