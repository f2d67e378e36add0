//! Sets of pitch classes held as the low bits of a `u16`.
use vstd::prelude::*;

verus! {

/// Bit `b` of `m` is set.
pub open spec fn mask_bit(m: u16, b: u16) -> bool {
    (m & (1u16 << b)) != 0
}

/// Setting bit `v` adds exactly `v` to the set.
pub proof fn lemma_mask_insert(m: u16, v: u16, p: u16)
    requires
        v < 16,
        p < 16,
    ensures
        mask_bit(m | (1u16 << v), p) <==> (mask_bit(m, p) || p == v),
{
    assert(((m | (1u16 << v)) & (1u16 << p)) != 0 <==> ((m & (1u16 << p)) != 0 || p == v))
        by (bit_vector)
        requires
            v < 16,
            p < 16,
    ;
}

/// The empty mask has no bit set.
pub proof fn lemma_mask_empty(p: u16)
    requires
        p < 16,
    ensures
        !mask_bit(0u16, p),
{
    assert((0u16 & (1u16 << p)) == 0) by (bit_vector);
}

/// `p & !t` is zero exactly when every bit of `p` is a bit of `t`.
pub proof fn lemma_mask_subset(p: u16, t: u16)
    ensures
        ((p & !t) == 0) <==> (forall|b: u16| b < 16 ==> (#[trigger] mask_bit(p, b) ==> mask_bit(t, b))),
{
    if (p & !t) == 0 {
        assert forall|b: u16| b < 16 && #[trigger] mask_bit(p, b) implies mask_bit(t, b) by {
            assert((p & !t) == 0 && b < 16 ==> ((p & (1u16 << b)) != 0 ==> (t & (1u16 << b)) != 0))
                by (bit_vector);
        }
    }
    if forall|b: u16| b < 16 ==> (#[trigger] mask_bit(p, b) ==> mask_bit(t, b)) {
        assert(mask_bit(p, 0) ==> mask_bit(t, 0));
        assert(mask_bit(p, 1) ==> mask_bit(t, 1));
        assert(mask_bit(p, 2) ==> mask_bit(t, 2));
        assert(mask_bit(p, 3) ==> mask_bit(t, 3));
        assert(mask_bit(p, 4) ==> mask_bit(t, 4));
        assert(mask_bit(p, 5) ==> mask_bit(t, 5));
        assert(mask_bit(p, 6) ==> mask_bit(t, 6));
        assert(mask_bit(p, 7) ==> mask_bit(t, 7));
        assert(mask_bit(p, 8) ==> mask_bit(t, 8));
        assert(mask_bit(p, 9) ==> mask_bit(t, 9));
        assert(mask_bit(p, 10) ==> mask_bit(t, 10));
        assert(mask_bit(p, 11) ==> mask_bit(t, 11));
        assert(mask_bit(p, 12) ==> mask_bit(t, 12));
        assert(mask_bit(p, 13) ==> mask_bit(t, 13));
        assert(mask_bit(p, 14) ==> mask_bit(t, 14));
        assert(mask_bit(p, 15) ==> mask_bit(t, 15));
        assert((p & !t) == 0) by (bit_vector)
            requires
                (p & (1u16 << 0u16)) != 0 ==> (t & (1u16 << 0u16)) != 0,
                (p & (1u16 << 1u16)) != 0 ==> (t & (1u16 << 1u16)) != 0,
                (p & (1u16 << 2u16)) != 0 ==> (t & (1u16 << 2u16)) != 0,
                (p & (1u16 << 3u16)) != 0 ==> (t & (1u16 << 3u16)) != 0,
                (p & (1u16 << 4u16)) != 0 ==> (t & (1u16 << 4u16)) != 0,
                (p & (1u16 << 5u16)) != 0 ==> (t & (1u16 << 5u16)) != 0,
                (p & (1u16 << 6u16)) != 0 ==> (t & (1u16 << 6u16)) != 0,
                (p & (1u16 << 7u16)) != 0 ==> (t & (1u16 << 7u16)) != 0,
                (p & (1u16 << 8u16)) != 0 ==> (t & (1u16 << 8u16)) != 0,
                (p & (1u16 << 9u16)) != 0 ==> (t & (1u16 << 9u16)) != 0,
                (p & (1u16 << 10u16)) != 0 ==> (t & (1u16 << 10u16)) != 0,
                (p & (1u16 << 11u16)) != 0 ==> (t & (1u16 << 11u16)) != 0,
                (p & (1u16 << 12u16)) != 0 ==> (t & (1u16 << 12u16)) != 0,
                (p & (1u16 << 13u16)) != 0 ==> (t & (1u16 << 13u16)) != 0,
                (p & (1u16 << 14u16)) != 0 ==> (t & (1u16 << 14u16)) != 0,
                (p & (1u16 << 15u16)) != 0 ==> (t & (1u16 << 15u16)) != 0,
        ;
    }
}

/// `p & t == t` exactly when every bit of `t` is a bit of `p`.
pub proof fn lemma_mask_covers(p: u16, t: u16)
    ensures
        ((p & t) == t) <==> (forall|b: u16| b < 16 ==> (#[trigger] mask_bit(t, b) ==> mask_bit(p, b))),
{
    assert(((p & t) == t) <==> ((t & !p) == 0)) by (bit_vector);
    lemma_mask_subset(t, p);
}

} // verus!
