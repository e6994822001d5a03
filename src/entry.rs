//! The stored form of a cache entry: the value's length as eight little-endian
//! bytes, the value, then the insertion time as eight little-endian bytes.
use vstd::prelude::*;

verus! {

pub open spec fn pow256(k: nat) -> nat
    decreases k,
{
    if k == 0 {
        1
    } else {
        256 * pow256((k - 1) as nat)
    }
}

/// The `k` low bytes of `n`, least significant first.
pub open spec fn le_bytes(n: nat, k: nat) -> Seq<u8>
    decreases k,
{
    if k == 0 {
        Seq::empty()
    } else {
        seq![(n % 256) as u8] + le_bytes(n / 256, (k - 1) as nat)
    }
}

/// The number that little-endian bytes `s` stand for.
pub open spec fn le_value(s: Seq<u8>) -> nat
    decreases s.len(),
{
    if s.len() == 0 {
        0
    } else {
        s[0] as nat + 256 * le_value(s.skip(1))
    }
}

pub proof fn lemma_le_round_trip(n: nat, k: nat)
    requires
        n < pow256(k),
    ensures
        le_value(le_bytes(n, k)) == n,
        le_bytes(n, k).len() == k,
    decreases k,
{
    if k > 0 {
        let q = n / 256;
        assert(q < pow256((k - 1) as nat)) by (nonlinear_arith)
            requires
                n < 256 * pow256((k - 1) as nat),
                q == n / 256,
        ;
        lemma_le_round_trip(q, (k - 1) as nat);
        let s = le_bytes(n, k);
        assert(s.skip(1) =~= le_bytes(q, (k - 1) as nat));
        assert(n == (n % 256) + 256 * q) by (nonlinear_arith)
            requires
                q == n / 256,
        ;
    }
}

pub proof fn lemma_le_value_bound(s: Seq<u8>)
    ensures
        le_value(s) < pow256(s.len()),
    decreases s.len(),
{
    if s.len() > 0 {
        lemma_le_value_bound(s.skip(1));
        let a = s[0] as nat;
        let b = le_value(s.skip(1));
        let p = pow256((s.len() - 1) as nat);
        assert(a + 256 * b < 256 * p) by (nonlinear_arith)
            requires
                a < 256,
                b < p,
        ;
    }
}

pub proof fn lemma_pow256_le8(j: nat)
    requires
        j <= 8,
    ensures
        pow256(j) <= pow256(8),
        pow256(j + 1) == 256 * pow256(j),
    decreases 8 - j,
{
    if j < 8 {
        lemma_pow256_le8(j + 1);
    }
}

pub proof fn lemma_pow256_8()
    ensures
        pow256(8) == 0x1_0000_0000_0000_0000,
{
    reveal_with_fuel(pow256, 9);
}

/// The stored bytes of an entry.
pub open spec fn entry_bytes(value: Seq<u8>, inserted_at: u64) -> Seq<u8> {
    le_bytes(value.len(), 8) + value + le_bytes(inserted_at as nat, 8)
}

/// The value and insertion time that stored bytes hold, if they are an entry.
pub open spec fn decode_entry_spec(b: Seq<u8>) -> Option<(Seq<u8>, u64)> {
    if b.len() < 16 {
        None
    } else {
        let n = le_value(b.subrange(0, 8));
        if n + 16 != b.len() {
            None
        } else {
            Some((b.subrange(8, 8 + n as int), le_value(b.subrange(8 + n as int, b.len() as int)) as u64))
        }
    }
}

fn push_le(buf: &mut Vec<u8>, n: u64)
    ensures
        final(buf)@ == old(buf)@ + le_bytes(n as nat, 8),
{
    let ghost start = buf@;
    let mut x: u64 = n;
    let mut k: usize = 0;
    while k < 8
        invariant
            k <= 8,
            buf@ + le_bytes(x as nat, (8 - k) as nat) == start + le_bytes(n as nat, 8),
        decreases 8 - k,
    {
        let ghost rest = le_bytes(x as nat, (8 - k) as nat);
        buf.push((x % 256) as u8);
        proof {
            assert(rest =~= seq![(x % 256) as u8] + le_bytes((x / 256) as nat, (8 - k - 1) as nat));
            assert(buf@ + le_bytes((x / 256) as nat, (8 - k - 1) as nat) =~= start + le_bytes(n as nat, 8));
        }
        x = x / 256;
        k = k + 1;
    }
    proof {
        assert(buf@ + le_bytes(x as nat, 0) =~= buf@);
    }
}

fn read_le(b: &Vec<u8>, from: usize) -> (r: u64)
    requires
        from + 8 <= b@.len(),
    ensures
        r as nat == le_value(b@.subrange(from as int, from + 8)),
{
    let mut acc: u64 = 0;
    let mut k: usize = 8;
    let bl = b.len();
    proof {
        assert(b@.subrange(from + 8, from + 8) =~= Seq::<u8>::empty());
    }
    while k > 0
        invariant
            k <= 8,
            bl == b@.len(),
            from + 8 <= b@.len(),
            acc as nat == le_value(b@.subrange(from + k, from + 8)),
            acc < pow256((8 - k) as nat),
        decreases k,
    {
        let ghost s = b@.subrange(from + k - 1, from + 8);
        proof {
            assert(s.skip(1) =~= b@.subrange(from + k, from + 8));
            lemma_le_value_bound(s);
            assert(s.len() == 8 - k + 1);
            lemma_pow256_le8((8 - k) as nat);
            lemma_pow256_le8((8 - k + 1) as nat);
            lemma_pow256_8();
        }
        let byte = b[from + k - 1];
        proof {
            let p = pow256((8 - k) as nat);
            assert(byte as nat + 256 * (acc as nat) < 0x1_0000_0000_0000_0000) by (nonlinear_arith)
                requires
                    (acc as nat) < p,
                    256 * p <= 0x1_0000_0000_0000_0000,
                    (byte as nat) < 256,
            ;
        }
        acc = byte as u64 + 256 * acc;
        k = k - 1;
    }
    acc
}

/// The stored bytes of an entry.
pub fn encode_entry(value: &Vec<u8>, inserted_at: u64) -> (r: Vec<u8>)
    ensures
        r@ == entry_bytes(value@, inserted_at),
{
    let mut buf: Vec<u8> = Vec::new();
    push_le(&mut buf, value.len() as u64);
    let mut i: usize = 0;
    let ghost head = buf@;
    while i < value.len()
        invariant
            i <= value@.len(),
            buf@ == head + value@.subrange(0, i as int),
        decreases value@.len() - i,
    {
        buf.push(value[i]);
        i = i + 1;
        proof {
            assert(buf@ =~= head + value@.subrange(0, i as int));
        }
    }
    proof {
        assert(value@.subrange(0, i as int) =~= value@);
    }
    push_le(&mut buf, inserted_at);
    buf
}

/// The value and insertion time held in stored bytes; `None` when they are no entry.
pub fn decode_entry(b: &Vec<u8>) -> (r: Option<(Vec<u8>, u64)>)
    ensures
        match r {
            Some(p) => decode_entry_spec(b@) == Some((p.0@, p.1)),
            None => decode_entry_spec(b@) is None,
        },
{
    let len = b.len();
    if len < 16 {
        return None;
    }
    let n = read_le(b, 0);
    if n > (len - 16) as u64 || n + 16 != len as u64 {
        return None;
    }
    let n = n as usize;
    let mut v: Vec<u8> = Vec::new();
    let mut i: usize = 8;
    let end = 8 + n;
    while i < end
        invariant
            end == 8 + n,
            8 <= i <= 8 + n,
            8 + n + 8 == b@.len(),
            v@ == b@.subrange(8, i as int),
        decreases 8 + n - i,
    {
        v.push(b[i]);
        i = i + 1;
        proof {
            assert(v@ =~= b@.subrange(8, i as int));
        }
    }
    let ts = read_le(b, 8 + n);
    proof {
        lemma_le_value_bound(b@.subrange(8 + n, b@.len() as int));
        lemma_pow256_8();
    }
    Some((v, ts))
}

/// Reading back stored bytes gives the entry that was stored.
pub proof fn lemma_entry_round_trip(value: Seq<u8>, inserted_at: u64)
    requires
        value.len() < 0x1_0000_0000_0000_0000,
    ensures
        decode_entry_spec(entry_bytes(value, inserted_at)) == Some((value, inserted_at)),
{
    let b = entry_bytes(value, inserted_at);
    lemma_pow256_8();
    lemma_le_round_trip(value.len(), 8);
    lemma_le_round_trip(inserted_at as nat, 8);
    assert(b.subrange(0, 8) =~= le_bytes(value.len(), 8));
    assert(b.subrange(8, 8 + value.len() as int) =~= value);
    assert(b.subrange(8 + value.len() as int, b.len() as int) =~= le_bytes(inserted_at as nat, 8));
}

} // verus!
