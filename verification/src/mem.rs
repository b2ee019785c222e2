//! The model of tracee memory: a map from addresses to bytes, what a read
//! returns over it, what a write does to it, and little-endian values.
use vstd::prelude::*;

verus! {

/// The bytes `s` lie in memory `m` starting at `addr`.
pub open spec fn bytes_at(m: Map<int, u8>, addr: int, s: Seq<u8>) -> bool
    decreases s.len(),
{
    if s.len() == 0 {
        true
    } else {
        m.dom().contains(addr) && m[addr] == s[0] && bytes_at(m, addr + 1, s.drop_first())
    }
}

/// Memory `m` with the bytes `s` written at `addr`; everything outside
/// `[addr, addr + s.len())` is unchanged.
pub open spec fn store_bytes(m: Map<int, u8>, addr: int, s: Seq<u8>) -> Map<int, u8> {
    Map::new(
        |a: int| m.dom().contains(a) || addr <= a < addr + s.len(),
        |a: int|
            if addr <= a < addr + s.len() {
                s[a - addr]
            } else {
                m[a]
            },
    )
}

/// One byte of a range that lies in memory.
pub proof fn lemma_bytes_at_index(m: Map<int, u8>, addr: int, s: Seq<u8>, i: int)
    requires
        bytes_at(m, addr, s),
        0 <= i < s.len(),
    ensures
        m.dom().contains(addr + i),
        m[addr + i] == s[i],
    decreases i,
{
    if i > 0 {
        lemma_bytes_at_index(m, addr + 1, s.drop_first(), i - 1);
        assert(s.drop_first()[i - 1] == s[i]);
    }
}

/// A range in memory, extended by the next byte of memory, is in memory.
pub proof fn lemma_bytes_at_snoc(m: Map<int, u8>, addr: int, s: Seq<u8>, b: u8)
    requires
        bytes_at(m, addr, s),
        m.dom().contains(addr + s.len()),
        m[addr + s.len()] == b,
    ensures
        bytes_at(m, addr, s.push(b)),
    decreases s.len(),
{
    if s.len() == 0 {
        assert(s.push(b)[0] == b);
        assert(m.dom().contains(addr) && m[addr] == b);
        assert(s.push(b).drop_first() =~= Seq::<u8>::empty());
        assert(bytes_at(m, addr + 1, Seq::<u8>::empty()));
        assert(bytes_at(m, addr + 1, s.push(b).drop_first()));
    } else {
        lemma_bytes_at_snoc(m, addr + 1, s.drop_first(), b);
        assert(s.push(b)[0] == s[0]);
        assert(s.push(b).drop_first() =~= s.drop_first().push(b));
        assert(bytes_at(m, addr + 1, s.push(b).drop_first()));
    }
}

/// A prefix of a range in memory is in memory.
pub proof fn lemma_bytes_at_prefix(m: Map<int, u8>, addr: int, s: Seq<u8>, n: int)
    requires
        bytes_at(m, addr, s),
        0 <= n <= s.len(),
    ensures
        bytes_at(m, addr, s.subrange(0, n)),
    decreases n,
{
    if n > 0 {
        lemma_bytes_at_prefix(m, addr + 1, s.drop_first(), n - 1);
        assert(s.subrange(0, n)[0] == s[0]);
        assert(s.subrange(0, n).drop_first() =~= s.drop_first().subrange(0, n - 1));
    }
}

/// After a write, the suffix of the written bytes from position `k` on
/// lies in memory at the corresponding address.
proof fn lemma_store_reads_back(m: Map<int, u8>, addr: int, data: Seq<u8>, k: int)
    requires
        0 <= k <= data.len(),
    ensures
        bytes_at(store_bytes(m, addr, data), addr + k, data.skip(k)),
    decreases data.len() - k,
{
    if k < data.len() {
        lemma_store_reads_back(m, addr, data, k + 1);
        let written = store_bytes(m, addr, data);
        assert(data.skip(k)[0] == data[k]);
        assert(written.dom().contains(addr + k));
        assert(written[addr + k] == data[k]);
        assert(data.skip(k).drop_first() =~= data.skip(k + 1));
    }
}

/// Writing nothing changes nothing.
pub proof fn lemma_store_bytes_empty(m: Map<int, u8>, addr: int, s: Seq<u8>)
    requires
        s.len() == 0,
    ensures
        store_bytes(m, addr, s) =~= m,
{
}

/// Two adjacent writes are one write of the concatenation.
pub proof fn lemma_store_bytes_concat(m: Map<int, u8>, addr: int, s1: Seq<u8>, s2: Seq<u8>)
    ensures
        store_bytes(store_bytes(m, addr, s1), addr + s1.len(), s2) =~= store_bytes(
            m,
            addr,
            s1 + s2,
        ),
{
    let lhs = store_bytes(store_bytes(m, addr, s1), addr + s1.len(), s2);
    let rhs = store_bytes(m, addr, s1 + s2);
    assert forall|a: int| lhs.dom().contains(a) implies rhs.dom().contains(a) by {}
    assert forall|a: int| rhs.dom().contains(a) implies lhs.dom().contains(a) by {}
    assert forall|a: int| lhs.dom().contains(a) implies lhs[a] == rhs[a] by {
        if addr <= a < addr + s1.len() {
            assert((s1 + s2)[a - addr] == s1[a - addr]);
        } else if addr + s1.len() <= a < addr + s1.len() + s2.len() {
            assert((s1 + s2)[a - addr] == s2[a - addr - s1.len()]);
        }
    }
}

/// What was written is what a read of the same range then finds, and the
/// bytes just below and just above the range keep their old values: the
/// read-modify-write discipline clobbers nothing outside the write.
pub proof fn lemma_mem_round_trip(m: Map<int, u8>, addr: int, data: Seq<u8>)
    ensures
        bytes_at(store_bytes(m, addr, data), addr, data),
        m.dom().contains(addr - 1) ==> store_bytes(m, addr, data).dom().contains(addr - 1)
            && store_bytes(m, addr, data)[addr - 1] == m[addr - 1],
        m.dom().contains(addr + data.len()) ==> store_bytes(m, addr, data).dom().contains(
            addr + data.len(),
        ) && store_bytes(m, addr, data)[addr + data.len()] == m[addr + data.len()],
{
    lemma_store_reads_back(m, addr, data, 0);
    assert(data.skip(0) =~= data);
}

/// The `n` bytes of memory starting at `addr`, as a sequence.
pub open spec fn seq_of_mem(m: Map<int, u8>, addr: int, n: int) -> Seq<u8> {
    Seq::new(n as nat, |i: int| m[addr + i])
}

/// 256 raised to `n`: how many values `n` bytes can hold.
pub open spec fn pow256(n: int) -> int
    decreases n,
{
    if n <= 0 {
        1
    } else {
        256 * pow256(n - 1)
    }
}

/// The value of a byte sequence read as a little-endian unsigned integer.
pub open spec fn le_value(s: Seq<u8>) -> int
    decreases s.len(),
{
    if s.len() == 0 {
        0
    } else {
        s[0] + 256 * le_value(s.drop_first())
    }
}

/// A little-endian value fits in as many bytes as were read.
pub proof fn lemma_le_value_bound(s: Seq<u8>)
    ensures
        0 <= le_value(s) < pow256(s.len() as int),
    decreases s.len(),
{
    if s.len() > 0 {
        lemma_le_value_bound(s.drop_first());
        let v = le_value(s.drop_first());
        let p = pow256(s.len() - 1);
        assert(256 * v <= 256 * (p - 1)) by (nonlinear_arith)
            requires
                v <= p - 1,
        ;
    }
}

/// Eight bytes hold any machine word.
pub proof fn lemma_pow256_8()
    ensures
        pow256(8) == 0x1_0000_0000_0000_0000,
{
    reveal_with_fuel(pow256, 9);
    assert(pow256(8) == 0x1_0000_0000_0000_0000);
}

/// The little-endian value of `width` bytes of `bytes` starting at `start`.
pub fn le_value_of(bytes: &Vec<u8>, start: usize, width: usize) -> (v: u64)
    requires
        start + width <= bytes@.len(),
        width <= 8,
    ensures
        v == le_value(bytes@.subrange(start as int, start + width)),
{
    let ghost s = bytes@.subrange(start as int, start + width);
    proof {
        lemma_pow256_8();
    }
    let blen = bytes.len();
    let mut v: u64 = 0;
    let mut k: usize = width;
    while k > 0
        invariant
            k <= width,
            width <= 8,
            blen == bytes@.len(),
            start + width <= blen,
            s =~= bytes@.subrange(start as int, start + width),
            v == le_value(s.skip(k as int)),
            v < pow256(width - k),
            pow256(8) == 0x1_0000_0000_0000_0000,
        decreases k,
    {
        let b = bytes[start + k - 1];
        proof {
            let t = s.skip(k - 1);
            assert(t[0] == s[k - 1]);
            assert(t.drop_first() =~= s.skip(k as int));
            assert(s[k - 1] == bytes@.subrange(start as int, start + width)[k - 1]);
            assert(le_value(t) == s[k - 1] + 256 * le_value(s.skip(k as int)));
            lemma_le_value_bound(t);
            lemma_pow256_monotone(width - k + 1, 8);
        }
        v = v * 256 + (b as u64);
        k -= 1;
    }
    proof {
        assert(s.skip(0) =~= s);
    }
    v
}

/// `pow256` grows with its argument.
proof fn lemma_pow256_monotone(a: int, b: int)
    requires
        a <= b,
    ensures
        pow256(a) <= pow256(b),
    decreases b - a,
{
    if a < b {
        lemma_pow256_monotone(a, b - 1);
        let p = pow256(b - 1);
        lemma_pow256_pos(b - 1);
        assert(p <= 256 * p) by (nonlinear_arith)
            requires
                p >= 1,
        ;
    }
}

/// `pow256` is positive.
proof fn lemma_pow256_pos(n: int)
    ensures
        pow256(n) >= 1,
    decreases n,
{
    if n > 0 {
        lemma_pow256_pos(n - 1);
    }
}

} // verus!
