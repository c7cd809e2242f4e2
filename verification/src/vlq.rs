//! The variable-length quantity of the versioned format: a sign bit and
//! six data bits in the first byte, seven data bits in each byte after it,
//! the high bit of a byte saying that another follows.

use vstd::prelude::*;

verus! {

/// A quantity as read from the wire: its sign bit, its magnitude, and the
/// number of bytes it took.
pub struct Vlq {
    pub negative: bool,
    pub magnitude: nat,
    pub len: nat,
}

/// The magnitude that the continuation bytes from `pos` on carry, least
/// significant group first, and their number; nothing where the input ends
/// before a byte without the high bit.
pub open spec fn vlq_tail(input: Seq<u8>, pos: nat) -> Option<(nat, nat)>
    decreases input.len() - pos,
{
    if pos >= input.len() {
        None
    } else {
        let group = (input[pos as int] & 0x7f) as nat;
        if input[pos as int] & 0x80 == 0 {
            Some((group, 1nat))
        } else {
            match vlq_tail(input, pos + 1) {
                Some((rest, count)) => Some((group + 128 * rest, count + 1)),
                None => None,
            }
        }
    }
}

/// The quantity that starts at `pos`; nothing where the input ends before
/// the quantity does.
pub open spec fn vlq_at(input: Seq<u8>, pos: nat) -> Option<Vlq> {
    if pos >= input.len() {
        None
    } else {
        let first = input[pos as int];
        let negative = first & 1 == 1;
        let low = ((first >> 1) & 0x3f) as nat;
        if first & 0x80 == 0 {
            Some(Vlq { negative, magnitude: low, len: 1 })
        } else {
            match vlq_tail(input, pos + 1) {
                Some((rest, count)) => Some(
                    Vlq { negative, magnitude: low + 64 * rest, len: count + 1 },
                ),
                None => None,
            }
        }
    }
}

/// The number that a quantity stands for.
pub open spec fn vlq_value(vlq: Vlq) -> int {
    if vlq.negative {
        -(vlq.magnitude as int)
    } else {
        vlq.magnitude as int
    }
}

/// A quantity lies within the input and takes at least one byte.
pub proof fn lemma_vlq_extent(input: Seq<u8>, pos: nat)
    ensures
        match vlq_at(input, pos) {
            Some(vlq) => 1 <= vlq.len && pos + vlq.len <= input.len(),
            None => true,
        },
{
    if pos < input.len() {
        lemma_vlq_tail_extent(input, pos + 1);
    }
}

proof fn lemma_vlq_tail_extent(input: Seq<u8>, pos: nat)
    ensures
        match vlq_tail(input, pos) {
            Some((_, count)) => 1 <= count && pos + count <= input.len(),
            None => true,
        },
    decreases input.len() - pos,
{
    if pos < input.len() && input[pos as int] & 0x80 != 0 {
        lemma_vlq_tail_extent(input, pos + 1);
    }
}

/// A quantity as executable code holds it: the magnitude is kept only
/// where it fits 64 bits.
#[derive(Clone, Copy, Debug)]
pub struct RawVlq {
    pub negative: bool,
    pub magnitude: Option<u64>,
    pub len: usize,
}

impl RawVlq {
    /// Whether this is what executable code holds of `vlq`.
    pub open spec fn holds(&self, vlq: Vlq) -> bool {
        &&& self.negative == vlq.negative
        &&& self.len == vlq.len
        &&& match self.magnitude {
            Some(m) => m == vlq.magnitude,
            None => vlq.magnitude > u64::MAX,
        }
    }
}

/// Reads the quantity that starts at byte `pos` of `input`; nothing where
/// the input ends before the quantity does.
pub fn read_vlq(input: &[u8], pos: usize) -> (out: Option<RawVlq>)
    ensures
        match vlq_at(input@, pos as nat) {
            Some(vlq) => out matches Some(raw) && raw.holds(vlq),
            None => out is None,
        },
{
    if pos >= input.len() {
        return None;
    }
    let first: u8 = input[pos];
    let negative: bool = first & 1 == 1;
    let low: u8 = (first >> 1) & 0x3f;
    assert(low <= 63) by (bit_vector)
        requires
            low == (first >> 1) & 0x3f,
    ;
    if first & 0x80 == 0 {
        return Some(RawVlq { negative, magnitude: Some(low as u64), len: 1 });
    }
    // `sum` and `weight` stand for the ghost `total` and `scale` as long as
    // those fit 64 bits.
    let mut sum: u64 = low as u64;
    let mut sum_fits: bool = true;
    let mut weight: u64 = 64;
    let mut weight_fits: bool = true;
    let mut at: usize = pos + 1;
    let ghost mut total: nat = low as nat;
    let ghost mut scale: nat = 64;
    loop
        invariant
            pos < at <= input@.len(),
            scale >= 64,
            sum_fits ==> sum == total,
            !sum_fits ==> total > u64::MAX,
            weight_fits ==> weight == scale,
            !weight_fits ==> scale > u64::MAX,
            low as nat == ((input@[pos as int] >> 1) & 0x3f) as nat,
            input@[pos as int] & 0x80 != 0,
            negative == (input@[pos as int] & 1 == 1),
            match vlq_tail(input@, at as nat) {
                Some((rest, count)) => vlq_tail(input@, (pos + 1) as nat) matches Some(
                    (whole, all),
                ) && low + 64 * whole == total + scale * rest && all == (at - pos - 1) + count,
                None => vlq_tail(input@, (pos + 1) as nat) is None,
            },
        decreases input@.len() - at,
    {
        if at >= input.len() {
            return None;
        }
        let byte: u8 = input[at];
        let group: u8 = byte & 0x7f;
        assert(group <= 127) by (bit_vector)
            requires
                group == byte & 0x7f,
        ;
        let more: bool = byte & 0x80 != 0;
        proof {
            lemma_vlq_tail_extent(input@, at as nat);
            lemma_vlq_tail_extent(input@, (at + 1) as nat);
            if more {
                match vlq_tail(input@, (at + 1) as nat) {
                    Some((rest, count)) => {
                        assert(scale * (group + 128 * rest) == scale * group + (scale * 128)
                            * rest) by (nonlinear_arith);
                    },
                    None => {},
                }
            }
            assert(scale * group >= 0) by (nonlinear_arith)
                requires
                    scale >= 0,
                    group >= 0,
            ;
            assert(group > 0 ==> scale * group >= scale) by (nonlinear_arith)
                requires
                    scale >= 0,
                    group >= 0,
            ;
            assert(group == 0 ==> scale * group == 0) by (nonlinear_arith);
        }
        if group != 0 {
            if sum_fits && weight_fits {
                assert(weight * group <= 127 * 0xFFFF_FFFF_FFFF_FFFF) by (nonlinear_arith)
                    requires
                        group <= 127,
                        weight <= 0xFFFF_FFFF_FFFF_FFFF,
                ;
                let wide: u128 = (weight as u128) * (group as u128) + sum as u128;
                if wide > u64::MAX as u128 {
                    sum_fits = false;
                } else {
                    sum = wide as u64;
                }
            } else {
                sum_fits = false;
            }
        }
        proof {
            total = total + scale * (group as nat);
            scale = scale * 128;
        }
        if weight_fits && weight <= u64::MAX / 128 {
            weight = weight * 128;
        } else {
            weight_fits = false;
        }
        at = at + 1;
        if !more {
            let magnitude = if sum_fits {
                Some(sum)
            } else {
                None
            };
            return Some(RawVlq { negative, magnitude, len: at - pos });
        }
    }
}

} // verus!
