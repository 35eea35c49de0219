use vstd::prelude::*;

verus! {

/// Removes the first `len` items (all of them where there are fewer).
pub fn vec_truncate_front<T>(vec: &mut Vec<T>, len: usize)
    ensures
        len >= old(vec)@.len() ==> final(vec)@ == Seq::<T>::empty(),
        len < old(vec)@.len() ==> final(vec)@ == old(vec)@.skip(len as int),
{
    if len >= vec.len() {
        vec.clear();
    } else {
        let rest = vec.split_off(len);
        *vec = rest;
    }
}

/// Puts the items of `front` before those of `vec`.
pub fn vec_prepend<T>(vec: &mut Vec<T>, front: Vec<T>)
    ensures
        final(vec)@ == front@ + old(vec)@,
{
    let mut joined = front;
    joined.append(vec);
    *vec = joined;
}

/// 256 to the power `n`.
pub open spec fn pow256(n: nat) -> nat
    decreases n,
{
    if n == 0 {
        1
    } else {
        256 * pow256((n - 1) as nat)
    }
}

/// The bytes read as a big-endian unsigned integer.
pub open spec fn be_value(b: Seq<u8>) -> nat
    decreases b.len(),
{
    if b.len() == 0 {
        0
    } else {
        be_value(b.drop_last()) * 256 + b.last() as nat
    }
}

proof fn lemma_pow256_mono(a: nat, b: nat)
    requires
        a <= b,
    ensures
        pow256(a) <= pow256(b),
    decreases b,
{
    if a < b {
        lemma_pow256_mono(a, (b - 1) as nat);
    }
}

/// Reads `bytes[start .. start + n]`, `n <= 8`, as a big-endian integer.
pub fn read_be(bytes: &[u8], start: usize, n: usize) -> (r: u64)
    requires
        n <= 8,
        start + n <= bytes@.len(),
    ensures
        r == be_value(bytes@.subrange(start as int, start + n)),
{
    let len = bytes.len();
    let mut acc: u64 = 0;
    let mut i: usize = 0;
    proof {
        reveal_with_fuel(pow256, 9);
        assert(pow256(8) == 0x1_0000_0000_0000_0000nat);
    }
    while i < n
        invariant
            i <= n <= 8,
            start + n <= bytes@.len(),
            len == bytes@.len(),
            acc == be_value(bytes@.subrange(start as int, start + i)),
            acc < pow256(i as nat),
            pow256(8) == 0x1_0000_0000_0000_0000nat,
        decreases n - i,
    {
        let b = bytes[start + i];
        proof {
            lemma_pow256_mono((i + 1) as nat, 8);
            assert(bytes@.subrange(start as int, start + i + 1).drop_last() =~= bytes@.subrange(
                start as int,
                start + i,
            ));
            assert(acc * 256 + b < pow256((i + 1) as nat)) by (nonlinear_arith)
                requires
                    acc < pow256(i as nat),
                    b < 256,
                    pow256((i + 1) as nat) == 256 * pow256(i as nat),
            ;
        }
        acc = acc * 256 + b as u64;
        i = i + 1;
    }
    acc
}

} // verus!
