//! What the bit patterns of numbers stand for, and that they are compared by
//! it.

use vstd::arithmetic::power2::*;
use vstd::prelude::*;

use crate::metronome;
use crate::number::{Double, Single};
use crate::rhythm;
use crate::state::NoteLength;
use crate::synth;

verus! {

/// The size that the bits below the sign spell, in the smallest steps: a
/// fraction of 52 bits, and from the second binade on a leading one, doubled
/// with every further binade.
pub open spec fn size(bits: int) -> int {
    let binade = bits / 0x10_0000_0000_0000;
    let fraction = bits % 0x10_0000_0000_0000;
    if binade == 0 {
        fraction
    } else {
        (0x10_0000_0000_0000 + fraction) * pow2((binade - 1) as nat)
    }
}

/// A double-precision number as an integer, counted in the smallest steps:
/// 2^1074 of them make one. Infinity counts as the number after the largest.
pub open spec fn steps(number: Double) -> int {
    if number.bits < 0x8000_0000_0000_0000 {
        size(number.bits as int)
    } else {
        -size(number.bits - 0x8000_0000_0000_0000)
    }
}

/// True of the patterns that are a number, or infinity.
pub open spec fn is_number(number: Double) -> bool {
    number.bits % 0x8000_0000_0000_0000 <= 0x7ff0_0000_0000_0000
}

proof fn lemma_size_grows(less: int, more: int)
    requires
        0 <= less < more,
    ensures
        0 <= size(less) < size(more),
{
    let unit = 0x10_0000_0000_0000int;
    let (a, f) = (less / unit, less % unit);
    let (b, g) = (more / unit, more % unit);
    assert(a <= b);
    if a == b {
        if a > 0 {
            let p = pow2((a - 1) as nat) as int;
            lemma_pow2_pos((a - 1) as nat);
            assert(0 <= (unit + f) * p < (unit + g) * p) by (nonlinear_arith)
                requires
                    0 <= f < g,
                    unit > 0,
                    p > 0,
            ;
        }
    } else {
        let q = pow2((b - 1) as nat) as int;
        lemma_pow2_pos((b - 1) as nat);
        assert(unit * q <= (unit + g) * q) by (nonlinear_arith)
            requires
                0 <= g,
                q > 0,
        ;
        if a == 0 {
            assert(unit <= unit * q) by (nonlinear_arith)
                requires
                    unit > 0,
                    q >= 1,
            ;
        } else {
            let p = pow2((a - 1) as nat) as int;
            lemma_pow2_pos((a - 1) as nat);
            lemma_pow2_unfold(a as nat);
            if a < b - 1 {
                lemma_pow2_strictly_increases(a as nat, (b - 1) as nat);
            }
            assert(2 * p <= q);
            assert(0 <= (unit + f) * p < unit * q) by (nonlinear_arith)
                requires
                    0 <= f < unit,
                    p > 0,
                    2 * p <= q,
            ;
        }
    }
}

/// Numbers are compared by their value; what is no number is below nothing,
/// and nothing is below it.
pub proof fn numbers_compare_by_value(a: Double, b: Double)
    ensures
        is_number(a) && is_number(b) ==> (a.below(b) <==> steps(a) < steps(b)),
        !is_number(a) || !is_number(b) ==> !a.below(b),
{
    let (m, n) = (a.magnitude(), b.magnitude());
    if m < n {
        lemma_size_grows(m, n);
    } else if n < m {
        lemma_size_grows(n, m);
    }
    if 0 < m {
        lemma_size_grows(0, m);
    }
    if 0 < n {
        lemma_size_grows(0, n);
    }
}

/// A number outside a range is brought to its nearest bound; one inside stays
/// as it is, and so does what is no number.
pub proof fn clamping_keeps_to_the_range(number: Double, low: Double, high: Double)
    requires
        is_number(low),
        is_number(high),
        steps(low) <= steps(high),
    ensures
        is_number(number) && steps(number) < steps(low) ==> number.clamped_spec(low, high) == low,
        is_number(number) && steps(number) > steps(high) ==> number.clamped_spec(low, high) == high,
        !is_number(number) || steps(low) <= steps(number) <= steps(high) ==> number.clamped_spec(
            low,
            high,
        ) == number,
{
    numbers_compare_by_value(number, low);
    numbers_compare_by_value(high, number);
}

/// The value of a power of two.
proof fn lemma_binade(bits: int, exponent: nat)
    requires
        bits / 0x10_0000_0000_0000 == exponent + 1,
    ensures
        size(bits) == (0x10_0000_0000_0000 + bits % 0x10_0000_0000_0000) * pow2(exponent),
{
}

/// The patterns of one and zero.
pub proof fn one_and_zero_are_what_they_say()
    ensures
        steps(Double { bits: crate::number::ONE_BITS }) == pow2(1074),
        steps(Double { bits: crate::number::ZERO_BITS }) == 0,
        crate::number::ZERO_BITS == 0,
{
    lemma_binade(0x3ff0_0000_0000_0000, 1022);
    lemma2_to64_rest();
    lemma_pow2_adds(52, 1022);
}

proof fn lemma_powers()
    ensures
        pow2(1018) == 2 * pow2(1017),
        pow2(1019) == 4 * pow2(1017),
        pow2(1020) == 8 * pow2(1017),
        pow2(1021) == 16 * pow2(1017),
        pow2(1022) == 32 * pow2(1017),
        pow2(1023) == 64 * pow2(1017),
        pow2(1024) == 128 * pow2(1017),
        pow2(1074) == 0x10_0000_0000_0000 * (32 * pow2(1017)),
        pow2(1017) > 0,
{
    lemma_pow2_unfold(1018);
    lemma_pow2_unfold(1019);
    lemma_pow2_unfold(1020);
    lemma_pow2_unfold(1021);
    lemma_pow2_unfold(1022);
    lemma_pow2_unfold(1023);
    lemma_pow2_unfold(1024);
    lemma_pow2_pos(1017);
    lemma2_to64_rest();
    lemma_pow2_adds(52, 1022);
}

/// The beats of the note lengths, as numbers: a quarter note is one beat, and
/// each length is twice the next shorter one.
pub proof fn lengths_double_from_one_to_the_next()
    ensures
        steps(rhythm::beats(NoteLength::Quarter)) == pow2(1074),
        steps(rhythm::beats(NoteLength::Whole)) == 2 * steps(rhythm::beats(NoteLength::Half)),
        steps(rhythm::beats(NoteLength::Half)) == 2 * steps(rhythm::beats(NoteLength::Quarter)),
        steps(rhythm::beats(NoteLength::Quarter)) == 2 * steps(rhythm::beats(NoteLength::Eighth)),
        steps(rhythm::beats(NoteLength::Eighth)) == 2 * steps(rhythm::beats(NoteLength::Sixteenth)),
        forall|length: NoteLength| #[trigger] is_number(rhythm::beats(length)),
{
    lemma_powers();
    lemma_binade(0x4010_0000_0000_0000, 1024);
    lemma_binade(0x4000_0000_0000_0000, 1023);
    lemma_binade(0x3ff0_0000_0000_0000, 1022);
    lemma_binade(0x3fe0_0000_0000_0000, 1021);
    lemma_binade(0x3fd0_0000_0000_0000, 1020);
}

/// After a note the accumulator is short of the next step by the length of
/// the note: what it is rewound to and the beats of the length make one.
pub proof fn accumulator_is_rewound_by_the_length(length: NoteLength)
    ensures
        steps(rhythm::rewound(length)) + steps(rhythm::beats(length)) == pow2(1074),
        is_number(rhythm::rewound(length)),
{
    lemma_powers();
    lemma_binade(0x4010_0000_0000_0000, 1024);
    lemma_binade(0x4000_0000_0000_0000, 1023);
    lemma_binade(0x3ff0_0000_0000_0000, 1022);
    lemma_binade(0x3fe0_0000_0000_0000, 1021);
    lemma_binade(0x3fe8_0000_0000_0000, 1021);
    lemma_binade(0x3fd0_0000_0000_0000, 1020);
    lemma_binade(0x4008_0000_0000_0000, 1023);
    assert(size(0x3fe8_0000_0000_0000) == 0x18_0000_0000_0000 * pow2(1021));
    assert(size(0x4008_0000_0000_0000) == 0x18_0000_0000_0000 * pow2(1023));
    assert(size(0) == 0);
    match length {
        NoteLength::Whole => {
            assert(steps(rhythm::rewound(length)) == -size(0x4008_0000_0000_0000));
        },
        NoteLength::Half => {
            assert(steps(rhythm::rewound(length)) == -size(0x3ff0_0000_0000_0000));
        },
        NoteLength::Quarter => {
            assert(steps(rhythm::rewound(length)) == size(0));
        },
        NoteLength::Eighth => {
            assert(steps(rhythm::rewound(length)) == size(0x3fe0_0000_0000_0000));
        },
        NoteLength::Sixteenth => {
            assert(steps(rhythm::rewound(length)) == size(0x3fe8_0000_0000_0000));
        },
    }
}

/// A step is due once the accumulator has reached one.
pub proof fn steps_are_due_from_one_on(accumulated: Double)
    requires
        is_number(accumulated),
    ensures
        metronome::due(accumulated) <==> steps(accumulated) >= pow2(1074),
{
    one_and_zero_are_what_they_say();
    numbers_compare_by_value(accumulated, Double { bits: crate::number::ONE_BITS });
}

/// A synth runs at most four times as fast as the metronome, and at least at
/// a twentieth of its tempo: no double-precision number is nearer to that.
pub proof fn tempo_range_is_a_twentieth_to_four()
    ensures
        steps(synth::fastest()) == 4 * pow2(1074),
        -10 * pow2(1017) <= 20 * steps(synth::slowest()) - pow2(1074) <= 10 * pow2(1017),
        is_number(synth::slowest()),
        is_number(synth::fastest()),
        steps(synth::slowest()) < steps(synth::fastest()),
{
    lemma_powers();
    lemma_binade(0x4010_0000_0000_0000, 1024);
    lemma_binade(0x3fa9_9999_9999_999a, 1017);
    let unit = pow2(1017) as int;
    assert(size(0x3fa9_9999_9999_999a) == 0x19_9999_9999_999a * unit);
    assert(size(0x4010_0000_0000_0000) == 0x10_0000_0000_0000 * (128 * unit));
    assert(unit > 0);
    assert(0x19_9999_9999_999a * unit < 0x800_0000_0000_0000 * unit);
    assert(0x10_0000_0000_0000 * (128 * unit) == 0x800_0000_0000_0000 * unit);
    assert(pow2(1074) == 0x200_0000_0000_0000 * unit);
}

/// A tempo within the range is taken as it is; one outside is brought to the
/// nearest bound.
pub proof fn tempos_are_brought_into_range(tempo: Double)
    requires
        is_number(tempo),
    ensures
        ({
            let kept = tempo.clamped_spec(synth::slowest(), synth::fastest());
            &&& steps(synth::slowest()) <= steps(kept) <= 4 * pow2(1074)
            &&& steps(synth::slowest()) <= steps(tempo) <= 4 * pow2(1074) ==> kept == tempo
            &&& steps(tempo) > 4 * pow2(1074) ==> steps(kept) == 4 * pow2(1074)
        }),
{
    tempo_range_is_a_twentieth_to_four();
    clamping_keeps_to_the_range(tempo, synth::slowest(), synth::fastest());
}

/// A single-precision number is zero, whatever its sign; or it is above zero,
/// infinity included; or below; or it is none.
pub proof fn singles_are_told_apart_by_sign(number: Single)
    ensures
        number.is_zero() <==> number.bits % 0x8000_0000 == 0,
        number.is_positive() <==> {
            &&& number.bits < 0x8000_0000
            &&& number.bits % 0x8000_0000 != 0
            &&& number.bits % 0x8000_0000 <= 0x7f80_0000
        },
{
}

} // verus!
