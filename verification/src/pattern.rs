//! Euclidean rhythms: `pulses` onsets spread as evenly as possible over
//! `steps` slots, built by Bjorklund's construction.
//!
//! The mathematical model is [`euclidean_rhythm`]. It starts from two kinds of
//! groups, `steps - pulses` rests and `pulses` onsets, and repeatedly deals the
//! rarer kind onto the tails of the more common kind, exactly as Euclid's
//! algorithm deals remainders onto quotients, until at most one group of the
//! rarer kind is left. The flattened groups are then rotated so that the first
//! onset stands at index 0.

use crate::inline_vec::{
    byte_items, bytes_get, bytes_len, bytes_new, bytes_push, bytes_rotate_left, word_items,
    words_get, words_new, words_push, InlineBytes, InlineWords,
};
use vstd::prelude::*;

verus! {

/// The largest number of steps a pattern may have.
pub const MAX_STEPS: usize = 32;

/// Why a pattern could not be built.
#[derive(Debug, Clone, Copy, PartialEq, Eq, Structural)]
pub enum PatternError {
    /// No pattern has these dimensions: there are no steps, more steps than
    /// [`MAX_STEPS`], or more pulses than steps.
    InvalidArgument,
}

/// `n` copies of `a`, one after another.
pub open spec fn repeat(a: Seq<bool>, n: nat) -> Seq<bool>
    decreases n,
{
    if n == 0 {
        Seq::empty()
    } else {
        repeat(a, (n - 1) as nat) + a
    }
}

/// Bjorklund's distribution of `d` groups `a` and `r` groups `b`.
///
/// Each of the `r` groups `b` receives `d / r` groups `a` in front of it. If
/// at most one `a` is left over the new groups are laid out in a row, followed
/// by the leftover; otherwise the `d % r` leftovers are dealt onto the new
/// groups in turn.
pub open spec fn interleave(d: nat, r: nat, a: Seq<bool>, b: Seq<bool>) -> Seq<bool>
    decreases r,
{
    if r == 0 {
        repeat(a, d)
    } else {
        let group = repeat(a, d / r) + b;
        let rest = d % r;
        if rest <= 1 {
            repeat(group, r) + (if rest == 1 {
                a
            } else {
                Seq::empty()
            })
        } else {
            interleave(r, rest, group, a)
        }
    }
}

/// Index of the first onset at or after `from`; the length where there is none.
pub open spec fn first_onset_from(s: Seq<bool>, from: nat) -> nat
    decreases s.len() - from,
{
    if from >= s.len() {
        s.len()
    } else if s[from as int] {
        from
    } else {
        first_onset_from(s, from + 1)
    }
}

/// Index of the first onset of `s`; its length where it has none.
pub open spec fn first_onset(s: Seq<bool>) -> nat {
    first_onset_from(s, 0)
}

/// `s` rotated left by `k`: what stood at index `k` now stands at index 0.
pub open spec fn rotate(s: Seq<bool>, k: nat) -> Seq<bool>
    recommends
        k <= s.len(),
{
    s.subrange(k as int, s.len() as int) + s.subrange(0, k as int)
}

/// Number of onsets in `s`.
pub open spec fn onset_count(s: Seq<bool>) -> nat
    decreases s.len(),
{
    if s.len() == 0 {
        0
    } else {
        onset_count(s.drop_last()) + if s.last() {
            1nat
        } else {
            0nat
        }
    }
}

/// The Euclidean rhythm of `pulses` onsets over `steps` slots, in canonical
/// phase. Without pulses it is silent throughout.
pub open spec fn euclidean_rhythm(steps: nat, pulses: nat) -> Seq<bool>
    recommends
        pulses <= steps,
{
    if pulses == 0 {
        Seq::new(steps, |i: int| false)
    } else {
        let raw = interleave((steps - pulses) as nat, pulses, seq![false], seq![true]);
        rotate(raw, first_onset(raw))
    }
}

/// Whether a pattern with these dimensions exists.
pub open spec fn valid_dimensions(steps: nat, pulses: nat) -> bool {
    1 <= steps <= MAX_STEPS && pulses <= steps
}

/// The byte stored for each slot: 1 for an onset, 0 for a rest.
pub open spec fn encode(s: Seq<bool>) -> Seq<u8> {
    Seq::new(
        s.len(),
        |i: int|
            if s[i] {
                1u8
            } else {
                0u8
            },
    )
}

/// The slots that stored bytes stand for.
pub open spec fn decode(b: Seq<u8>) -> Seq<bool> {
    Seq::new(b.len(), |i: int| b[i] == 1u8)
}

/// `n` copies of `a` are `n` times as long as `a`.
pub proof fn lemma_repeat_len(a: Seq<bool>, n: nat)
    ensures
        repeat(a, n).len() == n * a.len(),
    decreases n,
{
    let len = a.len();
    if n > 0 {
        lemma_repeat_len(a, (n - 1) as nat);
        assert((n - 1) * len + len == n * len) by (nonlinear_arith);
    } else {
        assert(n * len == 0) by (nonlinear_arith)
            requires
                n == 0,
        ;
    }
}

/// The onsets of two sequences laid end to end add up.
pub proof fn lemma_onset_count_concat(x: Seq<bool>, y: Seq<bool>)
    ensures
        onset_count(x + y) == onset_count(x) + onset_count(y),
    decreases y.len(),
{
    if y.len() == 0 {
        assert(x + y =~= x);
    } else {
        lemma_onset_count_concat(x, y.drop_last());
        assert((x + y).drop_last() =~= x + y.drop_last());
    }
}

/// `n` copies of `a` hold `n` times the onsets of `a`.
pub proof fn lemma_repeat_onset_count(a: Seq<bool>, n: nat)
    ensures
        onset_count(repeat(a, n)) == n * onset_count(a),
    decreases n,
{
    let count = onset_count(a);
    if n > 0 {
        lemma_repeat_onset_count(a, (n - 1) as nat);
        lemma_onset_count_concat(repeat(a, (n - 1) as nat), a);
        assert((n - 1) * count + count == n * count) by (nonlinear_arith);
    } else {
        assert(n * count == 0) by (nonlinear_arith)
            requires
                n == 0,
        ;
    }
}

/// Dealing groups out neither adds nor drops a slot or an onset.
pub proof fn lemma_interleave_measure(d: nat, r: nat, a: Seq<bool>, b: Seq<bool>)
    ensures
        interleave(d, r, a, b).len() == d * a.len() + r * b.len(),
        onset_count(interleave(d, r, a, b)) == d * onset_count(a) + r * onset_count(b),
    decreases r,
{
    if r == 0 {
        lemma_repeat_len(a, d);
        lemma_repeat_onset_count(a, d);
    } else {
        let q = d / r;
        let rest = d % r;
        let group = repeat(a, q) + b;
        lemma_repeat_len(a, q);
        lemma_repeat_onset_count(a, q);
        lemma_onset_count_concat(repeat(a, q), b);
        assert(d == r * q + rest) by (nonlinear_arith)
            requires
                r > 0,
                q == d / r,
                rest == d % r,
        ;
        let gl = group.len();
        let gc = onset_count(group);
        let al = a.len();
        let ac = onset_count(a);
        assert(r * gl + rest * al == d * al + r * b.len()) by (nonlinear_arith)
            requires
                gl == q * al + b.len(),
                d == r * q + rest,
        ;
        assert(r * gc + rest * ac == d * ac + r * onset_count(b)) by (nonlinear_arith)
            requires
                gc == q * ac + onset_count(b),
                d == r * q + rest,
        ;
        if rest <= 1 {
            let tail = if rest == 1 {
                a
            } else {
                Seq::<bool>::empty()
            };
            lemma_repeat_len(group, r);
            lemma_repeat_onset_count(group, r);
            lemma_onset_count_concat(repeat(group, r), tail);
            assert(tail.len() == rest * al) by (nonlinear_arith)
                requires
                    rest <= 1,
                    tail.len() == (if rest == 1 {
                        al
                    } else {
                        0
                    }),
            ;
            assert(onset_count(tail) == rest * ac) by (nonlinear_arith)
                requires
                    rest <= 1,
                    onset_count(tail) == (if rest == 1 {
                        ac
                    } else {
                        0
                    }),
            ;
        } else {
            lemma_interleave_measure(r, rest, group, a);
        }
    }
}

/// What `first_onset_from` finds: no onset between `from` and the result, and
/// an onset at the result unless it is the length.
pub proof fn lemma_first_onset_from(s: Seq<bool>, from: nat)
    requires
        from <= s.len(),
    ensures
        from <= first_onset_from(s, from) <= s.len(),
        forall|j: int| from <= j < first_onset_from(s, from) ==> !s[j],
        first_onset_from(s, from) < s.len() ==> s[first_onset_from(s, from) as int],
    decreases s.len() - from,
{
    if from < s.len() && !s[from as int] {
        lemma_first_onset_from(s, from + 1);
    }
}

/// A sequence without onsets counts none.
pub proof fn lemma_silent_count(s: Seq<bool>)
    requires
        forall|j: int| 0 <= j < s.len() ==> !s[j],
    ensures
        onset_count(s) == 0,
    decreases s.len(),
{
    if s.len() > 0 {
        lemma_silent_count(s.drop_last());
    }
}

/// Rotating keeps the length and the number of onsets.
pub proof fn lemma_rotate_measure(s: Seq<bool>, k: nat)
    requires
        k <= s.len(),
    ensures
        rotate(s, k).len() == s.len(),
        onset_count(rotate(s, k)) == onset_count(s),
{
    let head = s.subrange(0, k as int);
    let tail = s.subrange(k as int, s.len() as int);
    assert(s =~= head + tail);
    lemma_onset_count_concat(head, tail);
    lemma_onset_count_concat(tail, head);
}

/// Before rotation the construction already has `steps` slots and `pulses`
/// onsets.
pub proof fn lemma_interleave_seed_measure(steps: nat, pulses: nat)
    requires
        pulses <= steps,
    ensures
        interleave((steps - pulses) as nat, pulses, seq![false], seq![true]).len() == steps,
        onset_count(interleave((steps - pulses) as nat, pulses, seq![false], seq![true]))
            == pulses,
{
    let d = (steps - pulses) as nat;
    lemma_interleave_measure(d, pulses, seq![false], seq![true]);
    assert(onset_count(seq![false]) == 0) by {
        lemma_silent_count(seq![false]);
    }
    assert(onset_count(seq![true]) == 1) by {
        assert(seq![true].drop_last() =~= Seq::<bool>::empty());
        assert(onset_count(Seq::<bool>::empty()) == 0);
    }
    assert(d * seq![false].len() + pulses * seq![true].len() == steps) by (nonlinear_arith)
        requires
            seq![false].len() == 1,
            seq![true].len() == 1,
            d + pulses == steps,
    ;
    assert(d * onset_count(seq![false]) + pulses * onset_count(seq![true]) == pulses)
        by (nonlinear_arith)
        requires
            onset_count(seq![false]) == 0,
            onset_count(seq![true]) == 1,
    ;
}

/// A Euclidean rhythm has exactly `steps` slots, of which exactly `pulses`
/// are onsets.
pub proof fn lemma_rhythm_measure(steps: nat, pulses: nat)
    requires
        pulses <= steps,
    ensures
        euclidean_rhythm(steps, pulses).len() == steps,
        onset_count(euclidean_rhythm(steps, pulses)) == pulses,
{
    if pulses == 0 {
        lemma_silent_count(euclidean_rhythm(steps, pulses));
    } else {
        let raw = interleave((steps - pulses) as nat, pulses, seq![false], seq![true]);
        lemma_interleave_seed_measure(steps, pulses);
        lemma_first_onset_from(raw, 0);
        lemma_rotate_measure(raw, first_onset(raw));
    }
}

/// A Euclidean rhythm with at least one pulse begins with an onset.
pub proof fn lemma_rhythm_canonical_phase(steps: nat, pulses: nat)
    requires
        0 < pulses <= steps,
    ensures
        euclidean_rhythm(steps, pulses)[0],
{
    let raw = interleave((steps - pulses) as nat, pulses, seq![false], seq![true]);
    lemma_rhythm_measure(steps, pulses);
    lemma_first_onset_from(raw, 0);
    lemma_rotate_measure(raw, first_onset(raw));
    if first_onset(raw) >= raw.len() {
        lemma_silent_count(raw);
    }
}

/// The same dimensions always give the same rhythm, slot for slot.
pub proof fn lemma_rhythm_deterministic(steps: nat, pulses: nat, a: Pattern, b: Pattern)
    requires
        a@ == euclidean_rhythm(steps, pulses),
        b@ == euclidean_rhythm(steps, pulses),
    ensures
        a@ == b@,
        forall|i: int| 0 <= i < a@.len() ==> a@[i] == b@[i],
{
}

/// A cyclic pattern of onsets and rests.
pub struct Pattern {
    bits: InlineBytes,
}

impl View for Pattern {
    type V = Seq<bool>;

    closed spec fn view(&self) -> Seq<bool> {
        decode(byte_items(self.bits))
    }
}

impl Pattern {
    /// There are no more than [`MAX_STEPS`] stored bytes, each 0 or 1.
    pub closed spec fn wf(&self) -> bool {
        &&& byte_items(self.bits).len() <= MAX_STEPS
        &&& byte_items(self.bits) == encode(self@)
    }

    /// Number of steps.
    pub fn len(&self) -> (n: usize)
        ensures
            n == self@.len(),
    {
        bytes_len(&self.bits)
    }

    /// Whether step `index` is an onset.
    pub fn is_onset(&self, index: usize) -> (onset: bool)
        requires
            index < self@.len(),
        ensures
            onset == self@[index as int],
    {
        bytes_get(&self.bits, index) == 1
    }

    /// The pattern as bytes, 1 for an onset and 0 for a rest.
    pub fn to_vec(&self) -> (v: Vec<u8>)
        requires
            self.wf(),
        ensures
            v@ == encode(self@),
    {
        let n: usize = bytes_len(&self.bits);
        let mut v: Vec<u8> = Vec::new();
        let mut i: usize = 0;
        while i < n
            invariant
                i <= n,
                n == byte_items(self.bits).len(),
                v@ == byte_items(self.bits).subrange(0, i as int),
            decreases n - i,
        {
            v.push(bytes_get(&self.bits, i));
            assert(v@ =~= byte_items(self.bits).subrange(0, i + 1));
            i += 1;
        }
        assert(v@ =~= byte_items(self.bits));
        v
    }
}

/// The group that the construction holds at `level`, read off the recorded
/// quotients and remainders: a lone onset below level -1, a lone rest at
/// level -1, and above that `counts[level]` groups of the level below,
/// followed by one group of two levels below where a remainder was dealt.
spec fn word(counts: Seq<usize>, remainders: Seq<usize>, level: int) -> Seq<bool>
    decreases level + 2,
{
    if level <= -2 {
        seq![true]
    } else if level == -1 {
        seq![false]
    } else {
        repeat(word(counts, remainders, level - 1), counts[level] as nat) + (if remainders[level]
            != 0 {
            word(counts, remainders, level - 2)
        } else {
            Seq::empty()
        })
    }
}

/// A group depends only on the quotients and remainders up to its level.
proof fn lemma_word_stable(
    c1: Seq<usize>,
    r1: Seq<usize>,
    c2: Seq<usize>,
    r2: Seq<usize>,
    level: int,
)
    requires
        forall|i: int| 0 <= i <= level ==> c1[i] == c2[i] && r1[i] == r2[i],
    ensures
        word(c1, r1, level) == word(c2, r2, level),
    decreases level + 2,
{
    if level >= 0 {
        lemma_word_stable(c1, r1, c2, r2, level - 1);
        lemma_word_stable(c1, r1, c2, r2, level - 2);
    }
}

/// Fewer copies are no longer than more copies.
proof fn lemma_repeat_prefix(a: Seq<bool>, i: nat, n: nat)
    requires
        i <= n,
    ensures
        repeat(a, i).len() <= repeat(a, n).len(),
    decreases n - i,
{
    if i < n {
        lemma_repeat_prefix(a, i + 1, n);
    }
}

/// Appends the bytes of the group at `level` to `pattern`.
fn build(counts: &InlineWords, remainders: &InlineWords, pattern: &mut InlineBytes, level: isize)
    requires
        -2 <= level < 64,
        level < word_items(*counts).len(),
        level < word_items(*remainders).len(),
        byte_items(*old(pattern)).len() + word(
            word_items(*counts),
            word_items(*remainders),
            level as int,
        ).len() <= 64,
    ensures
        byte_items(*final(pattern)) == byte_items(*old(pattern)) + encode(
            word(word_items(*counts), word_items(*remainders), level as int),
        ),
    decreases level + 2,
{
    let ghost start = byte_items(*pattern);
    let ghost cs = word_items(*counts);
    let ghost rs = word_items(*remainders);
    if level == -1 {
        bytes_push(pattern, 0);
        assert(byte_items(*pattern) =~= start + encode(seq![false]));
    } else if level == -2 {
        bytes_push(pattern, 1);
        assert(byte_items(*pattern) =~= start + encode(seq![true]));
    } else {
        let ghost below = word(cs, rs, level - 1);
        let ghost tail = if rs[level as int] != 0 {
            word(cs, rs, level - 2)
        } else {
            Seq::<bool>::empty()
        };
        let count: usize = words_get(counts, level as usize);
        let mut i: usize = 0;
        assert(byte_items(*pattern) =~= start + encode(repeat(below, 0)));
        while i < count
            invariant
                0 <= level < 64,
                level < cs.len(),
                level < rs.len(),
                cs == word_items(*counts),
                rs == word_items(*remainders),
                below == word(cs, rs, level - 1),
                i <= count,
                count == cs[level as int],
                byte_items(*pattern) == start + encode(repeat(below, i as nat)),
                start.len() + repeat(below, count as nat).len() <= 64,
            decreases count - i,
        {
            proof {
                lemma_repeat_prefix(below, (i + 1) as nat, count as nat);
            }
            build(counts, remainders, pattern, level - 1);
            assert(byte_items(*pattern) =~= start + encode(repeat(below, (i + 1) as nat)));
            i += 1;
        }
        if words_get(remainders, level as usize) != 0 {
            build(counts, remainders, pattern, level - 2);
        }
        assert(byte_items(*pattern) =~= start + encode(repeat(below, count as nat) + tail));
    }
}

/// Builds the Euclidean rhythm of `pulses` onsets over `steps` slots.
///
/// Fails with [`PatternError::InvalidArgument`] exactly where no such pattern
/// exists: without steps, with more than [`MAX_STEPS`] steps, or with more
/// pulses than steps.
pub fn euclidian_rythm(steps: usize, pulses: usize) -> (result: Result<Pattern, PatternError>)
    ensures
        result is Ok <==> valid_dimensions(steps as nat, pulses as nat),
        result matches Err(e) ==> e == PatternError::InvalidArgument,
        result matches Ok(p) ==> {
            &&& p.wf()
            &&& p@ == euclidean_rhythm(steps as nat, pulses as nat)
            &&& p@.len() == steps
            &&& onset_count(p@) == pulses
            &&& pulses > 0 ==> p@[0]
        },
{
    if steps == 0 || steps > MAX_STEPS || pulses > steps {
        return Err(PatternError::InvalidArgument);
    }
    proof {
        lemma_rhythm_measure(steps as nat, pulses as nat);
        if pulses > 0 {
            lemma_rhythm_canonical_phase(steps as nat, pulses as nat);
        }
    }
    let mut pattern = bytes_new();
    if pulses == 0 {
        let mut i: usize = 0;
        while i < steps
            invariant
                i <= steps <= MAX_STEPS,
                byte_items(pattern) == encode(Seq::new(i as nat, |j: int| false)),
            decreases steps - i,
        {
            bytes_push(&mut pattern, 0);
            i += 1;
            assert(byte_items(pattern) =~= encode(Seq::new(i as nat, |j: int| false)));
        }
        let silent = Pattern { bits: pattern };
        assert(silent@ =~= euclidean_rhythm(steps as nat, 0));
        assert(byte_items(silent.bits) =~= encode(silent@));
        return Ok(silent);
    }
    let ghost raw = interleave((steps - pulses) as nat, pulses as nat, seq![false], seq![true]);
    let mut divisor: usize = steps - pulses;
    let mut level: usize = 0;
    let mut counts = words_new();
    let mut remainders = words_new();
    words_push(&mut remainders, pulses);

    // Euclid's algorithm, keeping every quotient and remainder.
    loop
        invariant_except_break
            word_items(counts).len() == level,
            word_items(remainders).len() == level + 1,
            word_items(remainders)[level as int] >= 1,
            level + word_items(remainders)[level as int] <= pulses,
            raw == interleave(
                divisor as nat,
                word_items(remainders)[level as int] as nat,
                word(word_items(counts), word_items(remainders), level - 1),
                word(word_items(counts), word_items(remainders), level - 2),
            ),
        invariant
            pulses <= MAX_STEPS,
        ensures
            1 <= level <= pulses,
            word_items(counts).len() == level,
            word_items(remainders).len() == level + 1,
            word_items(remainders)[level as int] <= 1,
            raw == repeat(
                word(word_items(counts), word_items(remainders), level - 1),
                divisor as nat,
            ) + (if word_items(remainders)[level as int] == 1 {
                word(word_items(counts), word_items(remainders), level - 2)
            } else {
                Seq::<bool>::empty()
            }),
        decreases word_items(remainders)[level as int],
    {
        let ghost c0 = word_items(counts);
        let ghost r0 = word_items(remainders);
        let r: usize = words_get(&remainders, level);
        words_push(&mut counts, divisor / r);
        words_push(&mut remainders, divisor % r);
        proof {
            let c1 = word_items(counts);
            let r1 = word_items(remainders);
            lemma_word_stable(c0, r0, c1, r1, level - 1);
            lemma_word_stable(c0, r0, c1, r1, level - 2);
            assert(word(c1, r1, level as int) == repeat(
                word(c1, r1, level - 1),
                (divisor / r) as nat,
            ) + word(c1, r1, level - 2));
        }
        divisor = r;
        level += 1;
        if words_get(&remainders, level) <= 1 {
            break ;
        }
    }
    let ghost c1 = word_items(counts);
    words_push(&mut counts, divisor);
    proof {
        let c2 = word_items(counts);
        let rs = word_items(remainders);
        lemma_word_stable(c1, rs, c2, rs, level - 1);
        lemma_word_stable(c1, rs, c2, rs, level - 2);
        assert(word(c2, rs, level as int) == raw);
        lemma_interleave_seed_measure(steps as nat, pulses as nat);
    }
    build(&counts, &remainders, &mut pattern, level as isize);
    assert(byte_items(pattern) =~= encode(raw));

    // Put an onset on the first step.
    let n: usize = bytes_len(&pattern);
    let mut first: usize = 0;
    while first < n && bytes_get(&pattern, first) != 1
        invariant
            first <= n,
            n == raw.len(),
            byte_items(pattern) == encode(raw),
            forall|j: int| 0 <= j < first ==> !raw[j],
        decreases n - first,
    {
        first += 1;
    }
    proof {
        lemma_first_onset_from(raw, 0);
        assert(first < n ==> raw[first as int]);
        assert(first == first_onset(raw));
    }
    bytes_rotate_left(&mut pattern, first);
    let rhythm = Pattern { bits: pattern };
    assert(rhythm@ =~= rotate(raw, first as nat));
    assert(byte_items(rhythm.bits) =~= encode(rhythm@));
    Ok(rhythm)
}

} // verus!
