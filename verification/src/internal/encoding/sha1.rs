//! SHA-1 (FIPS 180-4), used by the WebSocket opening handshake.
use vstd::prelude::*;

verus! {

/// The five words of the hash state.
pub type State = (u32, u32, u32, u32, u32);

/// The initial hash state.
pub open spec fn initial_state() -> State {
    (0x67452301u32, 0xEFCDAB89u32, 0x98BADCFEu32, 0x10325476u32, 0xC3D2E1F0u32)
}

/// Addition modulo 2^32.
pub open spec fn add32(a: u32, b: u32) -> u32 {
    if a + b > u32::MAX {
        (a + b - 0x1_0000_0000) as u32
    } else {
        (a + b) as u32
    }
}

/// Rotation of a word left by `n` bits, `0 < n < 32`.
pub open spec fn rotl(x: u32, n: u32) -> u32 {
    (x << n) | (x >> (32 - n) as u32)
}

/// The big-endian word at `i` in `s`.
pub open spec fn be32(s: Seq<u8>, i: int) -> u32 {
    ((s[i] as u32) << 24u32) | ((s[i + 1] as u32) << 16u32) | ((s[i + 2] as u32) << 8u32) | (s[i + 3] as u32)
}

/// The function of round `t`.
pub open spec fn round_fn(t: nat, b: u32, c: u32, d: u32) -> u32 {
    if t < 20 {
        (b & c) | (!b & d)
    } else if t < 40 {
        b ^ c ^ d
    } else if t < 60 {
        (b & c) | (b & d) | (c & d)
    } else {
        b ^ c ^ d
    }
}

/// The constant of round `t`.
pub open spec fn round_const(t: nat) -> u32 {
    if t < 20 {
        0x5A827999u32
    } else if t < 40 {
        0x6ED9EBA1u32
    } else if t < 60 {
        0x8F1BBCDCu32
    } else {
        0xCA62C1D6u32
    }
}

/// Word `t` of the message schedule of a 64-byte block.
pub open spec fn schedule(blk: Seq<u8>, t: nat) -> u32
    decreases t,
{
    if t < 16 {
        be32(blk, 4 * t as int)
    } else {
        rotl(
            schedule(blk, (t - 3) as nat) ^ schedule(blk, (t - 8) as nat) ^ schedule(blk, (t - 14) as nat)
                ^ schedule(blk, (t - 16) as nat),
            1,
        )
    }
}

/// The working variables after `t` rounds on a block, from `s`.
pub open spec fn rounds(blk: Seq<u8>, s: State, t: nat) -> State
    decreases t,
{
    if t == 0 {
        s
    } else {
        let (a, b, c, d, e) = rounds(blk, s, (t - 1) as nat);
        let i = (t - 1) as nat;
        let tmp = add32(add32(add32(add32(rotl(a, 5), round_fn(i, b, c, d)), e), round_const(i)), schedule(blk, i));
        (tmp, a, rotl(b, 30), c, d)
    }
}

/// The hash state after one more block.
pub open spec fn compress_spec(s: State, blk: Seq<u8>) -> State {
    let r = rounds(blk, s, 80);
    (add32(s.0, r.0), add32(s.1, r.1), add32(s.2, r.2), add32(s.3, r.3), add32(s.4, r.4))
}

/// The hash state after the first `n` blocks of `m`.
pub open spec fn state_after(m: Seq<u8>, n: nat) -> State
    decreases n,
{
    if n == 0 {
        initial_state()
    } else {
        compress_spec(state_after(m, (n - 1) as nat), m.subrange(64 * (n - 1), 64 * n as int))
    }
}

/// The number of zero bytes of padding after the `0x80` byte.
pub open spec fn zero_count(len: nat) -> nat {
    ((64 + 55 - len % 64) % 64) as nat
}

/// The eight big-endian bytes of `x`.
pub open spec fn be64(x: u64) -> Seq<u8> {
    Seq::new(8, |i: int| ((x >> (56 - 8 * i) as u64) & 0xff) as u8)
}

/// The padded message: the bytes, `0x80`, zeros, and the length in bits.
pub open spec fn padded(m: Seq<u8>) -> Seq<u8> {
    m + seq![0x80u8] + Seq::new(zero_count(m.len()), |i: int| 0u8) + be64((m.len() * 8) as u64)
}

/// The four big-endian bytes of a word.
pub open spec fn word_bytes(x: u32) -> Seq<u8> {
    seq![((x >> 24u32) & 0xff) as u8, ((x >> 16u32) & 0xff) as u8, ((x >> 8u32) & 0xff) as u8, (x & 0xff) as u8]
}

/// The SHA-1 digest of a message.
pub open spec fn sha1_spec(m: Seq<u8>) -> Seq<u8> {
    let p = padded(m);
    let s = state_after(p, p.len() / 64);
    word_bytes(s.0) + word_bytes(s.1) + word_bytes(s.2) + word_bytes(s.3) + word_bytes(s.4)
}

fn rotl_exec(x: u32, n: u32) -> (r: u32)
    requires
        0 < n < 32,
    ensures
        r == rotl(x, n),
{
    (x << n) | (x >> (32 - n))
}

fn add_word(a: u32, b: u32) -> (r: u32)
    ensures
        r == add32(a, b),
{
    a.wrapping_add(b)
}

fn pad(data: &[u8]) -> (r: Vec<u8>)
    requires
        data@.len() <= u64::MAX / 8,
    ensures
        r@ == padded(data@),
        r@.len() % 64 == 0,
{
    let mut p: Vec<u8> = Vec::new();
    let mut i: usize = 0;
    while i < data.len()
        invariant
            i <= data@.len(),
            p@ == data@.take(i as int),
        decreases data.len() - i,
    {
        p.push(data[i]);
        i = i + 1;
        assert(p@ =~= data@.take(i as int));
    }
    assert(data@.take(data@.len() as int) =~= data@);
    p.push(0x80);
    let zeros = ((64 + 55 - data.len() % 64) % 64) as usize;
    let ghost head = p@;
    let mut z: usize = 0;
    while z < zeros
        invariant
            z <= zeros,
            p@ == head + Seq::new(z as nat, |i: int| 0u8),
        decreases zeros - z,
    {
        p.push(0);
        z = z + 1;
        assert(p@ =~= head + Seq::new(z as nat, |i: int| 0u8));
    }
    let bits: u64 = (data.len() as u64) * 8;
    let ghost head2 = p@;
    let mut k: usize = 0;
    while k < 8
        invariant
            k <= 8,
            p@ == head2 + be64(bits).take(k as int),
        decreases 8 - k,
    {
        let b = ((bits >> (56 - 8 * k as u64)) & 0xff) as u8;
        p.push(b);
        k = k + 1;
        assert(p@ =~= head2 + be64(bits).take(k as int));
    }
    assert(be64(bits).take(8) =~= be64(bits));
    assert(p@ =~= padded(data@));
    proof {
        let n = data@.len();
        let zc = zero_count(n);
        assert(p@.len() == n + 1 + zc + 8);
        assert((n + 1 + zc + 8) % 64 == 0) by (nonlinear_arith)
            requires
                zc == (64 + 55 - n % 64) % 64,
                n >= 0,
        ;
    }
    p
}

fn word_at(p: &[u8], i: usize) -> (r: u32)
    requires
        i + 4 <= p@.len(),
    ensures
        r == be32(p@, i as int),
{
    ((p[i] as u32) << 24u32) | ((p[i + 1] as u32) << 16u32) | ((p[i + 2] as u32) << 8u32) | (p[i + 3] as u32)
}

fn compress(s: State, p: &[u8], off: usize) -> (r: State)
    requires
        off + 64 <= p@.len(),
    ensures
        r == compress_spec(s, p@.subrange(off as int, off + 64)),
{
    let ghost blk = p@.subrange(off as int, off + 64);
    let plen = p.len();
    let mut w: Vec<u32> = Vec::new();
    let mut t: usize = 0;
    while t < 16
        invariant
            t <= 16,
            off + 64 <= p@.len(),
            plen == p@.len(),
            blk == p@.subrange(off as int, off + 64),
            w@.len() == t,
            forall|j: int| 0 <= j < t ==> w@[j] == schedule(blk, j as nat),
        decreases 16 - t,
    {
        let x = word_at(p, off + 4 * t);
        assert(be32(p@, off + 4 * t) == be32(blk, 4 * t));
        w.push(x);
        t = t + 1;
    }
    while t < 80
        invariant
            16 <= t <= 80,
            w@.len() == t,
            forall|j: int| 0 <= j < t ==> w@[j] == schedule(blk, j as nat),
        decreases 80 - t,
    {
        let x = rotl_exec(w[t - 3] ^ w[t - 8] ^ w[t - 14] ^ w[t - 16], 1);
        w.push(x);
        t = t + 1;
    }
    let (mut a, mut b, mut c, mut d, mut e) = s;
    let mut t: usize = 0;
    while t < 80
        invariant
            t <= 80,
            w@.len() == 80,
            forall|j: int| 0 <= j < 80 ==> w@[j] == schedule(blk, j as nat),
            (a, b, c, d, e) == rounds(blk, s, t as nat),
        decreases 80 - t,
    {
        let f = if t < 20 {
            (b & c) | (!b & d)
        } else if t < 40 {
            b ^ c ^ d
        } else if t < 60 {
            (b & c) | (b & d) | (c & d)
        } else {
            b ^ c ^ d
        };
        let k: u32 = if t < 20 {
            0x5A827999
        } else if t < 40 {
            0x6ED9EBA1
        } else if t < 60 {
            0x8F1BBCDC
        } else {
            0xCA62C1D6
        };
        let tmp = add_word(add_word(add_word(add_word(rotl_exec(a, 5), f), e), k), w[t]);
        e = d;
        d = c;
        c = rotl_exec(b, 30);
        b = a;
        a = tmp;
        t = t + 1;
    }
    (add_word(s.0, a), add_word(s.1, b), add_word(s.2, c), add_word(s.3, d), add_word(s.4, e))
}

fn push_word(out: &mut Vec<u8>, x: u32)
    ensures
        final(out)@ == old(out)@ + word_bytes(x),
{
    out.push(((x >> 24u32) & 0xff) as u8);
    out.push(((x >> 16u32) & 0xff) as u8);
    out.push(((x >> 8u32) & 0xff) as u8);
    out.push((x & 0xff) as u8);
    assert(final(out)@ =~= old(out)@ + word_bytes(x));
}

/// The SHA-1 digest of some bytes: twenty bytes.
pub fn hash(data: &[u8]) -> (r: Vec<u8>)
    requires
        data@.len() <= u64::MAX / 8,
    ensures
        r@ == sha1_spec(data@),
        r@.len() == 20,
{
    let p = pad(data);
    let plen = p.len();
    let n = plen / 64;
    let mut s: State = (0x67452301, 0xEFCDAB89, 0x98BADCFE, 0x10325476, 0xC3D2E1F0);
    let mut b: usize = 0;
    while b < n
        invariant
            b <= n,
            n == p@.len() / 64,
            plen == p@.len(),
            p@.len() % 64 == 0,
            s == state_after(p@, b as nat),
        decreases n - b,
    {
        assert(64 * b + 64 <= p@.len()) by (nonlinear_arith)
            requires
                b < n,
                n == p@.len() / 64,
        ;
        s = compress(s, p.as_slice(), 64 * b);
        b = b + 1;
    }
    let mut out: Vec<u8> = Vec::new();
    push_word(&mut out, s.0);
    push_word(&mut out, s.1);
    push_word(&mut out, s.2);
    push_word(&mut out, s.3);
    push_word(&mut out, s.4);
    assert(out@ =~= sha1_spec(data@));
    out
}

} // verus!
