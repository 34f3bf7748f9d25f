use vstd::prelude::*;

verus! {

/// A distance along a ray, held as the integer by which it is ordered.
///
/// `Ordered(k)` stands for a distance that compares with the others by its
/// key: one distance lies before another exactly when its key is smaller,
/// and equal keys stand for equal distances. `Unordered` stands for a
/// distance that is neither before nor after anything (a NaN).
#[derive(Clone, Copy, Debug, PartialEq, Eq, Structural)]
pub enum RayParam {
    Ordered(u32),
    Unordered,
}

impl RayParam {
    /// `self` lies strictly before `other` along the ray.
    pub open spec fn precedes(self, other: RayParam) -> bool {
        match (self, other) {
            (RayParam::Ordered(a), RayParam::Ordered(b)) => a < b,
            _ => false,
        }
    }

    /// `self` is not outside `[lo, hi]`: it lies neither before `lo` nor
    /// after `hi`.
    pub open spec fn within(self, lo: RayParam, hi: RayParam) -> bool {
        !(self.precedes(lo) || hi.precedes(self))
    }

    /// Whether `self` lies strictly before `other`.
    pub fn less_than(&self, other: &RayParam) -> (r: bool)
        ensures
            r == self.precedes(*other),
    {
        match (self, other) {
            (RayParam::Ordered(a), RayParam::Ordered(b)) => *a < *b,
            _ => false,
        }
    }

    /// Whether `self` lies in the closed interval `[lo, hi]`, in the sense
    /// of [`RayParam::within`].
    pub fn is_within(&self, lo: &RayParam, hi: &RayParam) -> (r: bool)
        ensures
            r == self.within(*lo, *hi),
    {
        !(self.less_than(lo) || hi.less_than(self))
    }
}

/// The IEEE 754 single-precision encoding `b` is a NaN: all exponent bits
/// set and a non-zero fraction.
pub open spec fn is_nan_bits(b: u32) -> bool {
    (b & 0x7f80_0000u32) == 0x7f80_0000u32 && (b & 0x007f_ffffu32) != 0
}

/// The ordering key of the encoding `b` of a number: both zeros share the
/// key of `+0`; a negative number's bits are inverted, a positive number's
/// sign bit is set.
pub open spec fn key_of_bits(b: u32) -> u32 {
    if (b & 0x7fff_ffffu32) == 0 {
        0x8000_0000u32
    } else if (b & 0x8000_0000u32) != 0 {
        !b
    } else {
        b | 0x8000_0000u32
    }
}

/// IEEE 754 `<` on the encodings of two numbers (neither a NaN), read off
/// sign and magnitude: the two zeros are equal; a negative number lies
/// before a non-negative one; two non-negative numbers compare by
/// magnitude, two negative ones by magnitude reversed.
pub open spec fn ieee_less(a: u32, b: u32) -> bool {
    let ma = a & 0x7fff_ffffu32;
    let mb = b & 0x7fff_ffffu32;
    let na = (a & 0x8000_0000u32) != 0;
    let nb = (b & 0x8000_0000u32) != 0;
    if ma == 0 && mb == 0 {
        false
    } else if na && !nb {
        true
    } else if !na && nb {
        false
    } else if !na {
        ma < mb
    } else {
        mb < ma
    }
}

impl RayParam {
    /// The distance whose IEEE 754 single-precision encoding is `bits`.
    pub fn from_bits(bits: u32) -> (t: RayParam)
        ensures
            is_nan_bits(bits) ==> t == RayParam::Unordered,
            !is_nan_bits(bits) ==> t == RayParam::Ordered(key_of_bits(bits)),
            (t is Unordered) <==> (((bits >> 23u32) & 0xffu32) == 0xffu32 && (bits % 0x80_0000u32)
                != 0),
    {
        proof {
            lemma_nan_is_full_exponent_nonzero_fraction(bits);
        }
        if (bits & 0x7f80_0000u32) == 0x7f80_0000u32 && (bits & 0x007f_ffffu32) != 0 {
            RayParam::Unordered
        } else if (bits & 0x7fff_ffffu32) == 0 {
            RayParam::Ordered(0x8000_0000u32)
        } else if (bits & 0x8000_0000u32) != 0 {
            RayParam::Ordered(!bits)
        } else {
            RayParam::Ordered(bits | 0x8000_0000u32)
        }
    }
}

/// Comparing keys is comparing the numbers: for two encodings that are not
/// NaNs, the key of one is below the key of the other exactly when the
/// first number is below the second under IEEE 754 `<`; and the keys are
/// equal exactly when the numbers are (the two zeros being equal).
pub proof fn lemma_key_order_is_ieee_order(a: u32, b: u32)
    requires
        !is_nan_bits(a),
        !is_nan_bits(b),
    ensures
        (key_of_bits(a) < key_of_bits(b)) <==> ieee_less(a, b),
        (key_of_bits(a) == key_of_bits(b)) <==> (!ieee_less(a, b) && !ieee_less(b, a)),
{
    assert((key_of_bits(a) < key_of_bits(b)) <==> ieee_less(a, b)) by (bit_vector);
    assert((key_of_bits(a) == key_of_bits(b)) <==> (!ieee_less(a, b) && !ieee_less(b, a)))
        by (bit_vector);
}

/// An encoding is a NaN exactly when its eight exponent bits (bits 23 to
/// 30) are all ones and its 23 fraction bits are not all zeros.
pub proof fn lemma_nan_is_full_exponent_nonzero_fraction(b: u32)
    ensures
        is_nan_bits(b) <==> (((b >> 23u32) & 0xffu32) == 0xffu32 && (b % 0x80_0000u32) != 0),
{
    assert(is_nan_bits(b) <==> (((b >> 23u32) & 0xffu32) == 0xffu32 && (b % 0x80_0000u32) != 0))
        by (bit_vector);
}

/// Precedence is IEEE 754 `<`: for two encodings that are not NaNs, the
/// distance keyed from one precedes the distance keyed from the other
/// exactly when the first number is below the second; and a NaN distance
/// neither precedes nor is preceded by anything.
pub proof fn lemma_precedes_is_ieee_less(a: u32, b: u32, other: RayParam)
    requires
        !is_nan_bits(a),
        !is_nan_bits(b),
    ensures
        RayParam::Ordered(key_of_bits(a)).precedes(RayParam::Ordered(key_of_bits(b))) <==> ieee_less(
            a,
            b,
        ),
        !RayParam::Unordered.precedes(other),
        !other.precedes(RayParam::Unordered),
{
    lemma_key_order_is_ieee_order(a, b);
}

/// The interval test is IEEE 754 `t_min <= x <= t_max`, written as the
/// original writes it, `!(x < t_min || t_max < x)`: for encodings that are
/// not NaNs it depends on the two ends alone; a NaN distance passes every
/// interval; and a distance compared with a NaN end is not held back by
/// that end.
pub proof fn lemma_within_is_ieee_interval(x: u32, lo: u32, hi: u32, p: RayParam, q: RayParam)
    requires
        !is_nan_bits(x),
        !is_nan_bits(lo),
        !is_nan_bits(hi),
    ensures
        RayParam::Ordered(key_of_bits(x)).within(
            RayParam::Ordered(key_of_bits(lo)),
            RayParam::Ordered(key_of_bits(hi)),
        ) <==> (!ieee_less(x, lo) && !ieee_less(hi, x)),
        RayParam::Unordered.within(p, q),
        p.within(RayParam::Unordered, RayParam::Unordered),
{
    lemma_key_order_is_ieee_order(x, lo);
    lemma_key_order_is_ieee_order(hi, x);
}

/// What `from_bits` gives, read off the encoding: a NaN encoding (full
/// exponent, non-zero fraction) gives `Unordered`; every other encoding
/// gives an ordered distance, the same one for `+0` and `-0`, and a
/// different one for any two encodings of different numbers.
pub proof fn lemma_from_bits_classifies(a: u32, b: u32)
    ensures
        (((a >> 23u32) & 0xffu32) == 0xffu32 && (a % 0x80_0000u32) != 0) <==> is_nan_bits(a),
        key_of_bits(0u32) == key_of_bits(0x8000_0000u32),
        (!is_nan_bits(a) && !is_nan_bits(b) && a != b && !(a % 0x8000_0000u32 == 0 && b
            % 0x8000_0000u32 == 0)) ==> key_of_bits(a) != key_of_bits(b),
{
    lemma_nan_is_full_exponent_nonzero_fraction(a);
    assert(key_of_bits(0u32) == key_of_bits(0x8000_0000u32)) by (bit_vector);
    assert((!is_nan_bits(a) && !is_nan_bits(b) && a != b && !(a % 0x8000_0000u32 == 0 && b
        % 0x8000_0000u32 == 0)) ==> key_of_bits(a) != key_of_bits(b)) by (bit_vector);
}

} // verus!
