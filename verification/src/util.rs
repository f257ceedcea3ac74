use vstd::prelude::*;

verus! {

/// Compares two byte slices. Slices of different lengths compare unequal at
/// once; otherwise every position is inspected, whatever the earlier ones held,
/// so the number of operations depends only on the length.
pub fn fixed_time_eq(lhs: &[u8], rhs: &[u8]) -> (eq: bool)
    ensures
        eq == (lhs@ == rhs@),
{
    if lhs.len() != rhs.len() {
        return false;
    }
    let n = lhs.len();
    let mut acc: u8 = 0;
    let mut i: usize = 0;
    while i < n
        invariant
            n == lhs@.len(),
            n == rhs@.len(),
            i <= n,
            acc == 0 <==> (forall|j: int| 0 <= j < i ==> lhs@[j] == rhs@[j]),
        decreases n - i,
    {
        let a = lhs[i];
        let b = rhs[i];
        let d: u8 = a ^ b;
        assert((acc | d) == 0 <==> (acc == 0 && a == b)) by (bit_vector)
            requires
                d == a ^ b,
        ;
        acc = acc | d;
        i = i + 1;
    }
    let eq = acc == 0;
    proof {
        if eq {
            assert(lhs@ =~= rhs@);
        }
    }
    eq
}

/// Overwrites every byte of `dst` with `val`.
pub fn secure_memset(dst: &mut [u8], val: u8)
    ensures
        final(dst)@.len() == old(dst)@.len(),
        forall|i: int| 0 <= i < final(dst)@.len() ==> final(dst)@[i] == val,
{
    let n = dst.len();
    let mut i: usize = 0;
    while i < n
        invariant
            n == dst@.len(),
            i <= n,
            forall|j: int| 0 <= j < i ==> dst@[j] == val,
        decreases n - i,
    {
        dst[i] = val;
        i = i + 1;
    }
}

} // verus!
