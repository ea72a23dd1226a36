use vstd::prelude::*;

verus! {

/// How many items of `len` go to the first part when splitting in the proportion
/// `p0 : p1`: `p0 / (p0 + p1)` of them, rounded up; none when both proportions are zero.
pub open spec fn first_part_len(len: nat, p0: nat, p1: nat) -> nat {
    if p0 + p1 == 0 {
        0
    } else {
        ((p0 * len + (p0 + p1) - 1) / ((p0 + p1) as int)) as nat
    }
}

/// Splits `arr` in two in the proportion `proportion0 : proportion1`, the first part
/// rounded up. Both parts keep the order of `arr`.
pub fn split_array<T: Clone>(arr: &Vec<T>, proportion0: usize, proportion1: usize) -> (r: (Vec<T>, Vec<T>))
    requires
        proportion0 + proportion1 <= usize::MAX,
    ensures
        r.0.len() == first_part_len(arr.len() as nat, proportion0 as nat, proportion1 as nat),
        r.0.len() + r.1.len() == arr.len(),
        forall|k: int| 0 <= k < r.0.len() ==> cloned::<T>(arr@[k], #[trigger] r.0@[k]),
        forall|k: int| 0 <= k < r.1.len() ==> cloned::<T>(arr@[r.0.len() + k], #[trigger] r.1@[k]),
{
    let sum: usize = proportion0 + proportion1;
    let len: usize = arr.len();
    let size0: usize = if sum == 0 {
        0
    } else {
        let p = proportion0 as u128;
        let n = len as u128;
        let s = sum as u128;
        assert(p * n <= 0xffff_ffff_ffff_ffffu128 * 0xffff_ffff_ffff_ffffu128) by (nonlinear_arith)
            requires
                p <= 0xffff_ffff_ffff_ffffu128,
                n <= 0xffff_ffff_ffff_ffffu128,
        ;
        let q = (p * n + s - 1) / s;
        proof {
            let (pi, ni, si) = (p as int, n as int, s as int);
            assert(pi * ni + si - 1 <= si * ni + si - 1) by (nonlinear_arith)
                requires
                    pi <= si,
                    0 <= ni,
            ;
            assert((si * ni + si - 1) / si == ni) by (nonlinear_arith)
                requires
                    si > 0,
                    ni >= 0,
            ;
            assert((pi * ni + si - 1) / si <= (si * ni + si - 1) / si) by (nonlinear_arith)
                requires
                    pi * ni + si - 1 <= si * ni + si - 1,
                    si > 0,
                    pi * ni + si - 1 >= 0,
            ;
        }
        q as usize
    };
    let mut first: Vec<T> = Vec::new();
    let mut second: Vec<T> = Vec::new();
    let mut i: usize = 0;
    while i < len
        invariant
            len == arr.len(),
            size0 <= len,
            i <= len,
            first.len() == if i < size0 { i } else { size0 },
            second.len() == if i < size0 { 0 } else { i - size0 },
            forall|k: int| 0 <= k < first.len() ==> cloned::<T>(arr@[k], #[trigger] first@[k]),
            forall|k: int| 0 <= k < second.len() ==> cloned::<T>(arr@[size0 + k], #[trigger] second@[k]),
        decreases len - i,
    {
        let item = arr[i].clone();
        if i < size0 {
            first.push(item);
        } else {
            second.push(item);
        }
        i += 1;
    }
    (first, second)
}

} // verus!
