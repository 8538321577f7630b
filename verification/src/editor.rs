//! The status line that the parameter editor polls: the current rhythm, the
//! step offset and the step being played.

use crate::params::UclidParameters;
use crate::pattern::{euclidean_rhythm, euclidian_rythm, Pattern};
use crate::text::{decimal, push_decimal};
use vstd::prelude::*;
use vstd::string::StringExecFns;

verus! {

/// The character shown for a slot: `1` for an onset, `0` for a rest.
pub open spec fn slot_char(onset: bool) -> char {
    if onset {
        '1'
    } else {
        '0'
    }
}

/// The slots of a rhythm as digits, separated by a comma and a space.
pub open spec fn slots_text(slots: Seq<bool>) -> Seq<char>
    decreases slots.len(),
{
    if slots.len() == 0 {
        Seq::empty()
    } else if slots.len() == 1 {
        seq![slot_char(slots[0])]
    } else {
        slots_text(slots.drop_last()) + seq![',', ' ', slot_char(slots.last())]
    }
}

/// A rhythm written as a list in square brackets, such as `[1, 0, 1, 0]`.
pub open spec fn rhythm_text(slots: Seq<bool>) -> Seq<char> {
    seq!['['] + slots_text(slots) + seq![']']
}

/// The status line: the rhythm, the step offset and the step being played,
/// separated by hyphens.
pub open spec fn status_line(params: &UclidParameters, step: nat) -> Seq<char> {
    rhythm_text(euclidean_rhythm(params.steps(), params.pulses())) + seq!['-'] + decimal(
        params.offset(),
    ) + seq!['-'] + decimal(step)
}

/// Appends a rhythm, written as a list in square brackets, to `out`.
pub fn push_rhythm(out: &mut String, pattern: &Pattern)
    ensures
        final(out)@ == old(out)@ + rhythm_text(pattern@),
{
    proof {
        reveal_strlit("[");
        reveal_strlit("]");
    }
    out.append("[");
    let count: usize = pattern.len();
    let mut index: usize = 0;
    assert(pattern@.subrange(0, 0) =~= Seq::<bool>::empty());
    while index < count
        invariant
            index <= count,
            count == pattern@.len(),
            out@ == old(out)@ + seq!['['] + slots_text(pattern@.subrange(0, index as int)),
        decreases count - index,
    {
        let ghost written = out@;
        if index > 0 {
            out.append(", ");
        }
        if pattern.is_onset(index) {
            out.append("1");
        } else {
            out.append("0");
        }
        proof {
            reveal_strlit(", ");
            reveal_strlit("0");
            reveal_strlit("1");
            let upto = pattern@.subrange(0, index + 1);
            assert(upto.drop_last() =~= pattern@.subrange(0, index as int));
            assert(upto.last() == pattern@[index as int]);
            if index > 0 {
                assert(out@ =~= written + seq![',', ' ', slot_char(pattern@[index as int])]);
            } else {
                assert(upto[0] == pattern@[0]);
                assert(out@ =~= written + seq![slot_char(pattern@[0])]);
            }
            assert(out@ =~= old(out)@ + seq!['['] + slots_text(upto));
        }
        index += 1;
    }
    assert(pattern@.subrange(0, count as int) =~= pattern@);
    out.append("]");
    assert(out@ =~= old(out)@ + rhythm_text(pattern@));
}

/// The status line for the parameters as they stand and the step being
/// played.
pub fn editor_message(params: &UclidParameters, step: usize) -> (line: String)
    requires
        params.wf(),
    ensures
        line@ == status_line(params, step as nat),
{
    let mut line = String::new();
    match euclidian_rythm(params.step_count(), params.pulse_count()) {
        Ok(pattern) => {
            push_rhythm(&mut line, &pattern);
        },
        Err(_) => {},
    }
    proof {
        reveal_strlit("-");
    }
    line.append("-");
    push_decimal(&mut line, params.step_offset() as u64);
    line.append("-");
    push_decimal(&mut line, step as u64);
    assert(line@ =~= status_line(params, step as nat));
    line
}

} // verus!
