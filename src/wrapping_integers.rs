use vstd::prelude::*;

use crate::util::util::{dec_digits, dec_string};

verus! {

/// 2^32, the modulus of the sequence space on the wire.
pub open spec fn seq_mod() -> int {
    0x1_0000_0000
}

/// The wire form of absolute index `n` for initial sequence number `isn`.
pub open spec fn wrap_spec(n: int, isn: u32) -> u32 {
    (((n % seq_mod()) + isn as int) % seq_mod()) as u32
}

/// Distance between two points on the number line.
pub open spec fn dist(a: int, b: int) -> int {
    if a >= b { a - b } else { b - a }
}

/// `a` is an absolute index, representable in 64 bits, whose wire form is `w`
/// and which is nearest to `checkpoint` (the smaller one on a tie).
pub open spec fn is_nearest_unwrap(a: u64, w: u32, isn: u32, checkpoint: u64) -> bool {
    &&& wrap_spec(a as int, isn) == w
    &&& forall|b: u64| #[trigger] wrap_spec(b as int, isn) == w ==> (
            dist(a as int, checkpoint as int) < dist(b as int, checkpoint as int)
            || (dist(a as int, checkpoint as int) == dist(b as int, checkpoint as int) && a <= b))
}

/// The absolute index that `unwrap` returns.
pub open spec fn unwrap_spec(w: u32, isn: u32, checkpoint: u64) -> u64 {
    choose|r: u64| is_nearest_unwrap(r, w, isn, checkpoint)
}

/// There is only one nearest index.
pub proof fn lemma_nearest_unique(a: u64, b: u64, w: u32, isn: u32, checkpoint: u64)
    requires
        is_nearest_unwrap(a, w, isn, checkpoint),
        is_nearest_unwrap(b, w, isn, checkpoint),
    ensures
        a == b,
{
    assert(wrap_spec(b as int, isn) == w);
    assert(wrap_spec(a as int, isn) == w);
}

/// Unwrapping undoes wrapping: with a checkpoint within 2^31 of `a` (above
/// it, or less than 2^31 below it), the absolute index nearest the checkpoint
/// with the wire value of `a` is `a` itself.
pub proof fn lemma_unwrap_wrap(a: u64, isn: u32, checkpoint: u64, r: u64)
    requires
        a - 0x8000_0000 < checkpoint <= a + 0x8000_0000,
        is_nearest_unwrap(r, wrap_spec(a as int, isn), isn, checkpoint),
    ensures
        r == a,
{
    let m = seq_mod();
    let w = wrap_spec(a as int, isn);
    assert(wrap_spec(a as int, isn) == w);
    assert(wrap_spec(r as int, isn) == w);
    let da = dist(a as int, checkpoint as int);
    let dr = dist(r as int, checkpoint as int);
    assert(dr < da || (dr == da && r <= a));
    assert((r as int) % m == (a as int) % m) by (nonlinear_arith)
        requires
            m == 0x1_0000_0000,
            (((r as int % m) + isn as int) % m) == (((a as int % m) + isn as int) % m),
            0 <= isn < m,
            r >= 0,
            a >= 0;
    let q = (r as int) / m - (a as int) / m;
    assert(r as int - a as int == q * m) by (nonlinear_arith)
        requires
            m == 0x1_0000_0000,
            (r as int) % m == (a as int) % m,
            q == (r as int) / m - (a as int) / m,
            r >= 0,
            a >= 0;
    if q >= 1 {
        assert(q * m >= m) by (nonlinear_arith) requires q >= 1, m > 0;
    } else if q <= -1 {
        assert(q * m <= -m) by (nonlinear_arith) requires q <= -1, m > 0;
    }
}

/// A 32-bit sequence number, relative to an initial sequence number (ISN).
#[derive(Copy, Clone, PartialEq, Eq, Debug, Structural)]
pub struct WrappingInt32(pub u32);

impl WrappingInt32 {
    pub fn new(raw_value: u32) -> (r: Self)
        ensures
            r.0 == raw_value,
    {
        WrappingInt32(raw_value)
    }

    /// The raw value in decimal.
    pub fn to_string(&self) -> (r: String)
        ensures
            r@ == dec_digits(self.0 as nat),
    {
        dec_string(self.0)
    }

    pub fn raw_value(self) -> (r: u32)
        ensures
            r == self.0,
    {
        self.0
    }

    /// The 32-bit relative form of the 64-bit absolute index `n`.
    pub fn wrap(n: u64, isn: WrappingInt32) -> (r: Self)
        ensures
            r.0 == wrap_spec(n as int, isn.0),
    {
        let low: u32 = (n & 0xFFFF_FFFF) as u32;
        assert(low as int == n as int % seq_mod()) by (bit_vector)
            requires low == (n & 0xFFFF_FFFF) as u32;
        WrappingInt32(low.wrapping_add(isn.0))
    }

    /// The absolute index nearest to `checkpoint` whose relative form is `self`.
    pub fn unwrap(self, isn: WrappingInt32, checkpoint: u64) -> (r: u64)
        ensures
            is_nearest_unwrap(r, self.0, isn.0, checkpoint),
            r == unwrap_spec(self.0, isn.0, checkpoint),
    {
        let r = self.unwrap_nearest(isn, checkpoint);
        proof {
            let c = unwrap_spec(self.0, isn.0, checkpoint);
            lemma_nearest_unique(r, c, self.0, isn.0, checkpoint);
        }
        r
    }

    fn unwrap_nearest(self, isn: WrappingInt32, checkpoint: u64) -> (r: u64)
        ensures
            is_nearest_unwrap(r, self.0, isn.0, checkpoint),
    {
        let offset: u64 = self.0.wrapping_sub(isn.0) as u64;
        proof {
            lemma_offset_class(self.0, isn.0, offset);
        }
        if offset >= checkpoint {
            proof {
                assert forall|b: u64| #[trigger] wrap_spec(b as int, isn.0) == self.0 implies (
                    dist(offset as int, checkpoint as int) < dist(b as int, checkpoint as int)
                    || (dist(offset as int, checkpoint as int) == dist(b as int, checkpoint as int)
                        && offset <= b)) by {
                    lemma_same_class(b, isn.0, self.0, offset);
                };
            }
            return offset;
        }
        let d: u64 = checkpoint - offset;
        let k: u64 = d / 0x1_0000_0000;
        let rem: u64 = d % 0x1_0000_0000;
        assert(k * 0x1_0000_0000 + rem == d) by (nonlinear_arith)
            requires k == d / 0x1_0000_0000, rem == d % 0x1_0000_0000;
        let lower: u64 = offset + k * 0x1_0000_0000;
        proof {
            lemma_shift_class(offset, k, isn.0);
        }
        if rem > 0x8000_0000 && lower <= u64::MAX - 0x1_0000_0000 {
            let upper: u64 = lower + 0x1_0000_0000;
            proof {
                lemma_shift_class(offset, (k + 1) as u64, isn.0);
                assert(upper == offset + (k + 1) * 0x1_0000_0000) by (nonlinear_arith)
                    requires upper == lower + 0x1_0000_0000, lower == offset + k * 0x1_0000_0000;
                assert forall|b: u64| #[trigger] wrap_spec(b as int, isn.0) == self.0 implies (
                    dist(upper as int, checkpoint as int) < dist(b as int, checkpoint as int)
                    || (dist(upper as int, checkpoint as int) == dist(b as int, checkpoint as int)
                        && upper <= b)) by {
                    lemma_same_class(b, isn.0, self.0, offset);
                    lemma_candidates(b, offset, k, rem, d, checkpoint);
                };
            }
            upper
        } else {
            proof {
                assert forall|b: u64| #[trigger] wrap_spec(b as int, isn.0) == self.0 implies (
                    dist(lower as int, checkpoint as int) < dist(b as int, checkpoint as int)
                    || (dist(lower as int, checkpoint as int) == dist(b as int, checkpoint as int)
                        && lower <= b)) by {
                    lemma_same_class(b, isn.0, self.0, offset);
                    lemma_candidates(b, offset, k, rem, d, checkpoint);
                };
            }
            lower
        }
    }
}

/// `offset` (the wire value minus the ISN) is the least absolute index with wire value `w`.
proof fn lemma_offset_class(w: u32, isn: u32, offset: u64)
    requires
        offset == w.wrapping_sub(isn) as u64,
    ensures
        offset < seq_mod(),
        wrap_spec(offset as int, isn) == w,
{
    assert(offset as int == (w as int - isn as int) % seq_mod());
    assert(((offset as int % seq_mod()) + isn as int) % seq_mod() == w as int) by (nonlinear_arith)
        requires
            offset as int == (w as int - isn as int) % 0x1_0000_0000,
            0 <= w < 0x1_0000_0000,
            0 <= isn < 0x1_0000_0000;
}

/// Adding whole turns of the sequence space keeps the wire value.
proof fn lemma_shift_class(offset: u64, k: u64, isn: u32)
    requires
        offset < seq_mod(),
        offset + k * seq_mod() <= u64::MAX,
    ensures
        wrap_spec((offset + k * seq_mod()) as int, isn) == wrap_spec(offset as int, isn),
{
    assert((offset + k * 0x1_0000_0000) % 0x1_0000_0000 == offset as int) by (nonlinear_arith)
        requires
            0 <= offset < 0x1_0000_0000,
            k >= 0;
}

/// Every absolute index with wire value `w` is `offset` plus whole turns.
proof fn lemma_same_class(b: u64, isn: u32, w: u32, offset: u64)
    requires
        offset < seq_mod(),
        wrap_spec(offset as int, isn) == w,
        wrap_spec(b as int, isn) == w,
    ensures
        b as int % seq_mod() == offset,
{
    let m = seq_mod();
    assert(b as int % m == offset) by (nonlinear_arith)
        requires
            m == 0x1_0000_0000,
            0 <= offset < m,
            ((offset as int % m) + isn as int) % m == ((b as int % m) + isn as int) % m,
            0 <= isn < m,
            b >= 0;
}

/// Among the indices congruent to `offset`, the two around the checkpoint
/// are `offset + k * 2^32` and the one a turn above it.
proof fn lemma_candidates(b: u64, offset: u64, k: u64, rem: u64, d: u64, checkpoint: u64)
    requires
        offset < seq_mod(),
        b as int % seq_mod() == offset,
        d == checkpoint - offset,
        k * seq_mod() + rem == d,
        rem < seq_mod(),
    ensures
        b as int <= offset + k * seq_mod() || b as int >= offset + (k + 1) * seq_mod(),
{
    let m = seq_mod();
    let q = b as int / m;
    assert(b as int == q * m + offset) by (nonlinear_arith)
        requires m == 0x1_0000_0000, b as int % m == offset, q == b as int / m, b >= 0;
    if q <= k {
        assert(q * m <= k * m) by (nonlinear_arith) requires q <= k, m > 0;
    } else {
        assert(q * m >= (k + 1) * m) by (nonlinear_arith) requires q >= k + 1, m > 0;
    }
}

} // verus!
