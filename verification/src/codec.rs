//! Byte-level primitives of the wire format.
//!
//! A message frame carries its payload behind a four-byte big-endian length
//! prefix.  Inside a payload, integers travel little-endian in a fixed
//! number of base-256 digits and byte strings behind a little-endian
//! four-byte length.  Each primitive has a specification-level encoder and
//! decoder, an executable pair proved against them, and a lemma that
//! decoding the encoding of a value yields the value back.

use vstd::prelude::*;
use vstd::arithmetic::div_mod::lemma_fundamental_div_mod;

verus! {

/// Connection-level errors of the framing layer.
#[derive(Debug, Clone, Copy, PartialEq, Eq, Structural)]
pub enum ProtocolError {
    /// A message began with a variant id no decoder knows.
    UnknownVariant,
    /// The buffer ended before the frame was complete.
    Truncated,
    /// A length prefix disagreed with the bytes that followed it.
    Malformed,
    /// A value was too large for its length prefix.
    OverLength,
}

/// 256 to the power `w`: the number of values `w` base-256 digits can hold.
pub open spec fn pow256(w: nat) -> nat
    decreases w,
{
    if w == 0 {
        1
    } else {
        256 * pow256((w - 1) as nat)
    }
}

/// Little-endian base-256 digits of `n`, exactly `w` of them.
pub open spec fn spec_enc_uint(n: nat, w: nat) -> Seq<u8>
    decreases w,
{
    if w == 0 {
        Seq::empty()
    } else {
        seq![(n % 256) as u8] + spec_enc_uint(n / 256, (w - 1) as nat)
    }
}

/// The number whose little-endian base-256 digits are `s`.
pub open spec fn spec_uint_val(s: Seq<u8>) -> nat
    decreases s.len(),
{
    if s.len() == 0 {
        0
    } else {
        (s[0] + 256 * spec_uint_val(s.drop_first())) as nat
    }
}

/// Reading `w` bytes at `pos` as a little-endian integer.
pub open spec fn sdec_uint(s: Seq<u8>, pos: int, w: nat) -> Option<(nat, int)> {
    if 0 <= pos && pos + w <= s.len() {
        Some((spec_uint_val(s.subrange(pos, pos + w)), pos + w))
    } else {
        None
    }
}

/// A length prefix of four bytes followed by the bytes themselves.
pub open spec fn spec_enc_bytes(b: Seq<u8>) -> Seq<u8> {
    spec_enc_uint(b.len(), 4) + b
}

/// Reading a length-prefixed byte string at `pos`.
pub open spec fn sdec_bytes(s: Seq<u8>, pos: int) -> Option<(Seq<u8>, int)> {
    match sdec_uint(s, pos, 4) {
        None => None,
        Some((n, p)) => if p + n <= s.len() {
            Some((s.subrange(p, p + n as int), p + n))
        } else {
            None
        },
    }
}

pub proof fn lemma_pow256_values()
    ensures
        pow256(1) == 0x100,
        pow256(2) == 0x1_0000,
        pow256(4) == 0x1_0000_0000,
        pow256(8) == 0x1_0000_0000_0000_0000,
        pow256(15) == 0x1_0000_0000_0000_0000_0000_0000_0000_00,
        pow256(16) == 0x1_0000_0000_0000_0000_0000_0000_0000_0000,
{
    reveal_with_fuel(pow256, 17);
}

pub proof fn lemma_pow256_monotone(a: nat, b: nat)
    requires
        a <= b,
    ensures
        pow256(a) <= pow256(b),
    decreases b,
{
    if a < b {
        lemma_pow256_monotone(a, (b - 1) as nat);
        assert(pow256(b) == 256 * pow256((b - 1) as nat));
    }
}

pub proof fn lemma_enc_uint_len(n: nat, w: nat)
    ensures
        spec_enc_uint(n, w).len() == w,
    decreases w,
{
    if w > 0 {
        lemma_enc_uint_len(n / 256, (w - 1) as nat);
    }
}

/// Decoding the digits of `n` yields `n` again, provided `n` fits in `w` digits.
pub proof fn lemma_uint_round_trip(n: nat, w: nat)
    requires
        n < pow256(w),
    ensures
        spec_uint_val(spec_enc_uint(n, w)) == n,
    decreases w,
{
    if w == 0 {
    } else {
        lemma_fundamental_div_mod(n as int, 256);
        assert(n / 256 < pow256((w - 1) as nat));
        lemma_uint_round_trip(n / 256, (w - 1) as nat);
        let e = spec_enc_uint(n, w);
        assert(e.drop_first() =~= spec_enc_uint(n / 256, (w - 1) as nat));
    }
}

/// Every value read out of `w` digits fits in `w` digits.
pub proof fn lemma_uint_val_bound(s: Seq<u8>)
    ensures
        spec_uint_val(s) < pow256(s.len()),
    decreases s.len(),
{
    if s.len() > 0 {
        lemma_uint_val_bound(s.drop_first());
    }
}

/// A buffer that carries the digits of `n` at `pos` decodes to `n` there.
pub proof fn lemma_sdec_enc_uint(s: Seq<u8>, pos: int, n: nat, w: nat)
    requires
        0 <= pos,
        pos + w <= s.len(),
        n < pow256(w),
        s.subrange(pos, pos + w) == spec_enc_uint(n, w),
    ensures
        sdec_uint(s, pos, w) == Some((n, pos + w)),
{
    lemma_uint_round_trip(n, w);
}

/// A buffer that carries an encoded byte string at `pos` decodes to it there.
pub proof fn lemma_sdec_enc_bytes(s: Seq<u8>, pos: int, b: Seq<u8>)
    requires
        0 <= pos,
        b.len() < pow256(4),
        pos + 4 + b.len() <= s.len(),
        s.subrange(pos, pos + 4 + b.len()) == spec_enc_bytes(b),
    ensures
        sdec_bytes(s, pos) == Some((b, pos + 4 + b.len())),
{
    lemma_enc_uint_len(b.len(), 4);
    assert(s.subrange(pos, pos + 4) =~= spec_enc_bytes(b).subrange(0, 4));
    assert(s.subrange(pos, pos + 4) =~= spec_enc_uint(b.len(), 4));
    lemma_sdec_enc_uint(s, pos, b.len(), 4);
    assert(s.subrange(pos + 4, pos + 4 + b.len()) =~= b) by {
        assert forall|i: int| 0 <= i < b.len()
            implies s.subrange(pos + 4, pos + 4 + b.len())[i] == b[i] by {
            assert(s.subrange(pos, pos + 4 + b.len())[4 + i] == b[i]);
        }
    }
}

/// Splits a buffer equality over a concatenation into its two halves.
pub proof fn lemma_subrange_concat(s: Seq<u8>, pos: int, a: Seq<u8>, b: Seq<u8>)
    requires
        0 <= pos,
        pos + a.len() + b.len() <= s.len(),
        s.subrange(pos, pos + a.len() + b.len()) == a + b,
    ensures
        s.subrange(pos, pos + a.len()) == a,
        s.subrange(pos + a.len(), pos + a.len() + b.len()) == b,
{
    assert(s.subrange(pos, pos + a.len()) =~= a) by {
        assert forall|i: int| 0 <= i < a.len()
            implies s.subrange(pos, pos + a.len())[i] == a[i] by {
            assert(s.subrange(pos, pos + a.len() + b.len())[i] == a[i]);
        }
    }
    assert(s.subrange(pos + a.len(), pos + a.len() + b.len()) =~= b) by {
        assert forall|i: int| 0 <= i < b.len()
            implies s.subrange(pos + a.len(), pos + a.len() + b.len())[i] == b[i] by {
            assert(s.subrange(pos, pos + a.len() + b.len())[a.len() + i] == b[i]);
        }
    }
}

/// Appends the `w`-digit encoding of `n` to `out`.
pub fn enc_uint(out: &mut Vec<u8>, n: u128, w: usize)
    requires
        w <= 16,
        (n as nat) < pow256(w as nat),
    ensures
        final(out)@ == old(out)@ + spec_enc_uint(n as nat, w as nat),
{
    let ghost orig = out@;
    let mut x: u128 = n;
    let mut i: usize = 0;
    while i < w
        invariant
            i <= w,
            out@ + spec_enc_uint(x as nat, (w - i) as nat)
                == orig + spec_enc_uint(n as nat, w as nat),
        decreases w - i,
    {
        proof {
            assert(spec_enc_uint(x as nat, (w - i) as nat)
                =~= seq![(x as nat % 256) as u8]
                    + spec_enc_uint(x as nat / 256, (w - i - 1) as nat));
        }
        out.push((x % 256) as u8);
        x = x / 256;
        i = i + 1;
    }
    proof {
        assert(out@ + spec_enc_uint(x as nat, 0) =~= out@);
    }
}

/// Reads `w` bytes at `pos` as a little-endian integer.
pub fn dec_uint(buf: &Vec<u8>, pos: usize, w: usize) -> (r: Option<(u128, usize)>)
    requires
        w <= 16,
    ensures
        match r {
            Some(vp) => sdec_uint(buf@, pos as int, w as nat)
                == Some((vp.0 as nat, vp.1 as int)),
            None => sdec_uint(buf@, pos as int, w as nat) is None,
        },
{
    if w > buf.len() || pos > buf.len() - w {
        return None;
    }
    let ghost whole = buf@.subrange(pos as int, pos as int + w as int);
    let mut val: u128 = 0;
    let mut j: usize = w;
    while j > 0
        invariant
            j <= w,
            w <= 16,
            pos + w <= buf.len(),
            whole == buf@.subrange(pos as int, pos as int + w as int),
            val as nat == spec_uint_val(buf@.subrange(pos + j as int, pos as int + w as int)),
            (val as nat) < pow256((w - j) as nat),
        decreases j,
    {
        j = j - 1;
        proof {
            lemma_pow256_monotone((w - j - 1) as nat, 15);
            lemma_pow256_values();
            assert(buf@.subrange(pos + j as int, pos as int + w as int).drop_first()
                =~= buf@.subrange(pos + j as int + 1, pos as int + w as int));
        }
        val = val * 256 + (buf[pos + j] as u128);
    }
    proof {
        assert(buf@.subrange(pos as int, pos as int + w as int) == whole);
    }
    Some((val, pos + w))
}

/// Appends the eight-digit encoding of `x` to `out`.
pub fn enc_u64(out: &mut Vec<u8>, x: u64)
    ensures
        final(out)@ == old(out)@ + spec_enc_uint(x as nat, 8),
{
    proof {
        lemma_pow256_values();
    }
    enc_uint(out, x as u128, 8);
}

/// Reads eight bytes at `pos` as a `u64`.
pub fn dec_u64(buf: &Vec<u8>, pos: usize) -> (r: Option<(u64, usize)>)
    ensures
        match r {
            Some(vp) => sdec_uint(buf@, pos as int, 8) == Some((vp.0 as nat, vp.1 as int)),
            None => sdec_uint(buf@, pos as int, 8) is None,
        },
{
    match dec_uint(buf, pos, 8) {
        None => None,
        Some(vp) => {
            proof {
                lemma_uint_val_bound(buf@.subrange(pos as int, pos as int + 8));
                lemma_pow256_values();
            }
            Some((vp.0 as u64, vp.1))
        },
    }
}

/// Appends the sixteen-digit encoding of `x` to `out`.
pub fn enc_u128(out: &mut Vec<u8>, x: u128)
    ensures
        final(out)@ == old(out)@ + spec_enc_uint(x as nat, 16),
{
    proof {
        lemma_pow256_values();
    }
    enc_uint(out, x, 16);
}

/// Reads sixteen bytes at `pos` as a `u128`.
pub fn dec_u128(buf: &Vec<u8>, pos: usize) -> (r: Option<(u128, usize)>)
    ensures
        match r {
            Some(vp) => sdec_uint(buf@, pos as int, 16) == Some((vp.0 as nat, vp.1 as int)),
            None => sdec_uint(buf@, pos as int, 16) is None,
        },
{
    dec_uint(buf, pos, 16)
}

/// Appends the length-prefixed encoding of `b` to `out`.
pub fn enc_bytes(out: &mut Vec<u8>, b: &Vec<u8>)
    requires
        b@.len() < 0x1_0000_0000,
    ensures
        final(out)@ == old(out)@ + spec_enc_bytes(b@),
{
    proof {
        lemma_pow256_values();
    }
    enc_uint(out, b.len() as u128, 4);
    let ghost mid = out@;
    let mut i: usize = 0;
    while i < b.len()
        invariant
            i <= b.len(),
            out@ == mid + b@.subrange(0, i as int),
        decreases b.len() - i,
    {
        out.push(b[i]);
        proof {
            assert(mid + b@.subrange(0, i as int) + seq![b@[i as int]]
                =~= mid + b@.subrange(0, i as int + 1));
        }
        i = i + 1;
    }
    proof {
        assert(b@.subrange(0, b@.len() as int) =~= b@);
    }
}

/// Reads a length-prefixed byte string at `pos`.
pub fn dec_bytes(buf: &Vec<u8>, pos: usize) -> (r: Option<(Vec<u8>, usize)>)
    ensures
        match r {
            Some(vp) => sdec_bytes(buf@, pos as int) == Some((vp.0@, vp.1 as int)),
            None => sdec_bytes(buf@, pos as int) is None,
        },
{
    let n_len = match dec_uint(buf, pos, 4) {
        None => {
            return None;
        },
        Some(vp) => vp,
    };
    proof {
        lemma_uint_val_bound(buf@.subrange(pos as int, pos as int + 4));
        lemma_pow256_values();
    }
    let len: usize = n_len.0 as usize;
    let start: usize = n_len.1;
    if len > buf.len() - start {
        return None;
    }
    let mut content: Vec<u8> = Vec::new();
    let mut i: usize = 0;
    while i < len
        invariant
            i <= len,
            start + len <= buf.len(),
            content@ == buf@.subrange(start as int, start as int + i as int),
        decreases len - i,
    {
        content.push(buf[start + i]);
        proof {
            assert(buf@.subrange(start as int, start as int + i as int)
                + seq![buf@[start as int + i as int]]
                =~= buf@.subrange(start as int, start as int + i as int + 1));
        }
        i = i + 1;
    }
    Some((content, start + len))
}

/// The four big-endian bytes of a frame length prefix.
pub open spec fn spec_enc_u32_be(n: u32) -> Seq<u8> {
    seq![
        ((n >> 24) & 0xFF) as u8,
        ((n >> 16) & 0xFF) as u8,
        ((n >> 8) & 0xFF) as u8,
        (n & 0xFF) as u8,
    ]
}

/// Reading four bytes at `pos` as a big-endian u32.
pub open spec fn sdec_u32_be(s: Seq<u8>, pos: int) -> Option<(u32, int)> {
    if 0 <= pos && pos + 4 <= s.len() {
        Some((
            (s[pos] as u32) << 24 | (s[pos + 1] as u32) << 16 | (s[pos + 2] as u32) << 8
                | (s[pos + 3] as u32),
            pos + 4,
        ))
    } else {
        None
    }
}

/// A frame: a four-byte big-endian length prefix, then the bytes themselves.
pub open spec fn spec_enc_frame(b: Seq<u8>) -> Seq<u8> {
    spec_enc_u32_be(b.len() as u32) + b
}

/// Reading a length-prefixed frame at `pos`.
pub open spec fn sdec_frame(s: Seq<u8>, pos: int) -> Option<(Seq<u8>, int)> {
    match sdec_u32_be(s, pos) {
        None => None,
        Some((n, p)) => if p + n <= s.len() {
            Some((s.subrange(p, p + n), p + n))
        } else {
            None
        },
    }
}

/// A buffer carrying the big-endian digits of `n` at `pos` decodes to `n`.
pub proof fn lemma_sdec_enc_u32_be(s: Seq<u8>, pos: int, n: u32)
    requires
        0 <= pos,
        pos + 4 <= s.len(),
        s.subrange(pos, pos + 4) == spec_enc_u32_be(n),
    ensures
        sdec_u32_be(s, pos) == Some((n, pos + 4)),
{
    assert(s[pos] == spec_enc_u32_be(n)[0]);
    assert(s[pos + 1] == spec_enc_u32_be(n)[1]);
    assert(s[pos + 2] == spec_enc_u32_be(n)[2]);
    assert(s[pos + 3] == spec_enc_u32_be(n)[3]);
    assert((((((n >> 24) & 0xFF) as u8) as u32) << 24
        | (((((n >> 16) & 0xFF)) as u8) as u32) << 16
        | (((((n >> 8) & 0xFF)) as u8) as u32) << 8
        | (((n & 0xFF) as u8) as u32)) == n) by (bit_vector);
}

/// A buffer carrying an encoded frame at `pos` decodes to its contents.
pub proof fn lemma_sdec_enc_frame(s: Seq<u8>, pos: int, b: Seq<u8>)
    requires
        0 <= pos,
        b.len() < 0x1_0000_0000,
        pos + 4 + b.len() <= s.len(),
        s.subrange(pos, pos + 4 + b.len()) == spec_enc_frame(b),
    ensures
        sdec_frame(s, pos) == Some((b, pos + 4 + b.len())),
{
    let n: u32 = b.len() as u32;
    lemma_subrange_concat(s, pos, spec_enc_u32_be(n), b);
    lemma_sdec_enc_u32_be(s, pos, n);
}

/// Appends the length-prefixed frame around `b` to `out`.
pub fn enc_frame(out: &mut Vec<u8>, b: &Vec<u8>)
    requires
        b@.len() < 0x1_0000_0000,
    ensures
        final(out)@ == old(out)@ + spec_enc_frame(b@),
{
    let n: u32 = b.len() as u32;
    out.push(((n >> 24) & 0xFF) as u8);
    out.push(((n >> 16) & 0xFF) as u8);
    out.push(((n >> 8) & 0xFF) as u8);
    out.push((n & 0xFF) as u8);
    let ghost mid = out@;
    proof {
        assert(mid =~= old(out)@ + spec_enc_u32_be(n));
    }
    let mut i: usize = 0;
    while i < b.len()
        invariant
            i <= b@.len(),
            out@ == mid + b@.subrange(0, i as int),
        decreases b@.len() - i,
    {
        out.push(b[i]);
        proof {
            assert(mid + b@.subrange(0, i as int) + seq![b@[i as int]]
                =~= mid + b@.subrange(0, i as int + 1));
        }
        i = i + 1;
    }
    proof {
        assert(b@.subrange(0, b@.len() as int) =~= b@);
    }
}

/// Reads a length-prefixed frame at `pos`.
pub fn dec_frame(buf: &Vec<u8>, pos: usize) -> (r: Option<(Vec<u8>, usize)>)
    ensures
        match r {
            Some(vp) => sdec_frame(buf@, pos as int) == Some((vp.0@, vp.1 as int)),
            None => sdec_frame(buf@, pos as int) is None,
        },
{
    if buf.len() < 4 || pos > buf.len() - 4 {
        return None;
    }
    let n: u32 = (buf[pos] as u32) << 24 | (buf[pos + 1] as u32) << 16
        | (buf[pos + 2] as u32) << 8 | (buf[pos + 3] as u32);
    let len: usize = n as usize;
    let start: usize = pos + 4;
    if len > buf.len() - start {
        return None;
    }
    let mut content: Vec<u8> = Vec::new();
    let mut i: usize = 0;
    while i < len
        invariant
            i <= len,
            start + len <= buf.len(),
            content@ == buf@.subrange(start as int, start as int + i as int),
        decreases len - i,
    {
        content.push(buf[start + i]);
        proof {
            assert(buf@.subrange(start as int, start as int + i as int)
                + seq![buf@[start as int + i as int]]
                =~= buf@.subrange(start as int, start as int + i as int + 1));
        }
        i = i + 1;
    }
    Some((content, start + len))
}

} // verus!
