//! Length-prefixed framing of serialized messages.
//!
//! A frame is one tag byte (2, 4 or 8), then the payload's length as a
//! big-endian integer of that many bytes, then the payload. The tag is the
//! smallest width that holds the length.

use vstd::prelude::*;
use std::marker::PhantomData;

verus! {

/// What makes a connection's byte stream unusable.
#[derive(Debug, Clone, Copy, PartialEq, Eq, Structural)]
pub enum Error {
    /// The payload could not be turned into a message.
    Serialization,
    /// The payload is longer than the widest length field can say.
    LargePayload,
    /// The tag byte is not one of 2, 4 and 8.
    InvalidLengthBye(u8),
}

pub open spec fn pow256(n: nat) -> nat
    decreases n,
{
    if n == 0 {
        1
    } else {
        256 * pow256((n - 1) as nat)
    }
}

/// The `w` bytes of `v`, most significant first.
pub open spec fn be_bytes(v: nat, w: nat) -> Seq<u8>
    decreases w,
{
    if w == 0 {
        Seq::empty()
    } else {
        be_bytes(v / 256, (w - 1) as nat).push((v % 256) as u8)
    }
}

/// The number that the bytes `s` give, read most significant first.
pub open spec fn be_value(s: Seq<u8>) -> nat
    decreases s.len(),
{
    if s.len() == 0 {
        0
    } else {
        be_value(s.drop_last()) * 256 + s.last() as nat
    }
}

pub open spec fn valid_tag(t: u8) -> bool {
    t == 2 || t == 4 || t == 8
}

/// The smallest of the widths 2, 4 and 8 whose field holds `len`.
pub open spec fn width_for(len: nat) -> nat {
    if len < 0x1_0000 {
        2
    } else if len < 0x1_0000_0000 {
        4
    } else {
        8
    }
}

/// The frame that carries `payload`.
pub open spec fn frame(payload: Seq<u8>) -> Seq<u8> {
    let w = width_for(payload.len());
    seq![w as u8] + be_bytes(payload.len(), w) + payload
}

/// The length of the header of a buffer that starts with a valid tag.
pub open spec fn header_len(s: Seq<u8>) -> nat {
    1 + s[0] as nat
}

/// The payload length that the header of `s` announces.
pub open spec fn announced_len(s: Seq<u8>) -> nat {
    be_value(s.subrange(1, header_len(s) as int))
}

/// `s` starts with a frame that is buffered whole.
pub open spec fn frame_ready(s: Seq<u8>) -> bool {
    &&& s.len() > 0
    &&& valid_tag(s[0])
    &&& s.len() >= header_len(s)
    &&& s.len() >= header_len(s) + announced_len(s)
}

/// The end of the first frame of `s`, where `frame_ready(s)`.
pub open spec fn frame_end(s: Seq<u8>) -> nat {
    header_len(s) + announced_len(s)
}

proof fn lemma_pow256_values()
    ensures
        pow256(2) == 0x1_0000,
        pow256(4) == 0x1_0000_0000,
        pow256(8) == 0x1_0000_0000_0000_0000,
{
    reveal_with_fuel(pow256, 9);
}

proof fn lemma_be_bytes_len(v: nat, w: nat)
    ensures
        be_bytes(v, w).len() == w,
    decreases w,
{
    if w > 0 {
        lemma_be_bytes_len(v / 256, (w - 1) as nat);
    }
}

proof fn lemma_be_round_trip(v: nat, w: nat)
    requires
        v < pow256(w),
    ensures
        be_value(be_bytes(v, w)) == v,
    decreases w,
{
    if w > 0 {
        let p = pow256((w - 1) as nat);
        assert(v / 256 < p) by (nonlinear_arith)
            requires
                v < 256 * p,
        ;
        lemma_be_round_trip(v / 256, (w - 1) as nat);
        let s = be_bytes(v, w);
        assert(s.drop_last() == be_bytes(v / 256, (w - 1) as nat));
    }
}

proof fn lemma_be_value_bound(s: Seq<u8>)
    ensures
        be_value(s) < pow256(s.len()),
    decreases s.len(),
{
    if s.len() > 0 {
        lemma_be_value_bound(s.drop_last());
        let a = be_value(s.drop_last());
        let p = pow256(s.drop_last().len());
        let b = s.last() as nat;
        assert(a * 256 + b < 256 * p) by (nonlinear_arith)
            requires
                a < p,
                b < 256,
        ;
    }
}

/// The width that `encode` chooses holds the length, and no smaller one does.
pub proof fn lemma_width_minimal(len: nat)
    requires
        len < pow256(8),
    ensures
        len < pow256(width_for(len)),
        forall|w: nat| (w == 2 || w == 4 || w == 8) && w < width_for(len) ==> len >= pow256(w),
{
    lemma_pow256_values();
}

/// Every frame decodes back to its payload, whatever follows it; and every
/// proper prefix of a frame asks for more bytes without being an error.
pub proof fn lemma_frame_round_trip(payload: Seq<u8>, rest: Seq<u8>)
    requires
        payload.len() < pow256(8),
    ensures
        frame_ready(frame(payload) + rest),
        frame_end(frame(payload) + rest) == frame(payload).len(),
        (frame(payload) + rest).subrange(
            header_len(frame(payload) + rest) as int,
            frame_end(frame(payload) + rest) as int,
        ) == payload,
        forall|k: int|
            0 < k < frame(payload).len() ==> valid_tag(#[trigger] frame(payload).take(k)[0])
                && !frame_ready(frame(payload).take(k)),
{
    lemma_pow256_values();
    let n = payload.len();
    let w = width_for(n);
    let f = frame(payload);
    let s = f + rest;
    lemma_be_bytes_len(n, w);
    lemma_be_round_trip(n, w);
    assert(s[0] == w as u8);
    assert(s.subrange(1, (1 + w) as int) == be_bytes(n, w));
    assert(s.subrange((1 + w) as int, (1 + w + n) as int) == payload);
    assert forall|k: int| 0 < k < f.len() implies valid_tag(#[trigger] f.take(k)[0]) && !frame_ready(
        f.take(k),
    ) by {
        let t = f.take(k);
        assert(t[0] == f[0]);
        if t.len() >= 1 + w {
            assert(t.subrange(1, (1 + w) as int) == be_bytes(n, w));
        }
    }
}

/// Reads the `w` bytes of `src` from `start` as a big-endian number.
fn read_be(src: &Vec<u8>, start: usize, w: usize) -> (r: u64)
    requires
        w <= 8,
        start + w <= src.len(),
    ensures
        r == be_value(src@.subrange(start as int, start + w)),
{
    proof {
        lemma_pow256_values();
    }
    let mut v: u64 = 0;
    let mut k: usize = 0;
    while k < w
        invariant
            w <= 8,
            start + w <= src.len(),
            k <= w,
            v == be_value(src@.subrange(start as int, start + k)),
            v < pow256(k as nat),
            pow256(8) == 0x1_0000_0000_0000_0000,
        decreases w - k,
    {
        proof {
            let s = src@.subrange(start as int, start + k + 1);
            assert(s.drop_last() == src@.subrange(start as int, start + k));
            lemma_pow256_monotone(k as nat, 7);
            let p = pow256(k as nat);
            let b = src[start + k] as nat;
            assert(v * 256 + b < 256 * p) by (nonlinear_arith)
                requires
                    v < p,
                    b < 256,
            ;
        }
        v = v * 256 + src[start + k] as u64;
        k = k + 1;
    }
    v
}

proof fn lemma_pow256_monotone(a: nat, b: nat)
    requires
        a <= b,
    ensures
        pow256(a) <= pow256(b),
    decreases b,
{
    if a < b {
        lemma_pow256_monotone(a, (b - 1) as nat);
    }
}

/// Appends the `w` bytes of `v`, most significant first.
fn push_be(v: u64, w: usize, out: &mut Vec<u8>)
    ensures
        final(out)@ == old(out)@ + be_bytes(v as nat, w as nat),
    decreases w,
{
    if w > 0 {
        push_be(v / 256, w - 1, out);
        out.push((v % 256) as u8);
    }
}

/// The bytes of `src` from `from` up to `to`.
fn copy_range(src: &Vec<u8>, from: usize, to: usize) -> (r: Vec<u8>)
    requires
        from <= to <= src.len(),
    ensures
        r@ == src@.subrange(from as int, to as int),
{
    let mut r: Vec<u8> = Vec::new();
    let mut k: usize = from;
    while k < to
        invariant
            from <= k <= to <= src.len(),
            r@ == src@.subrange(from as int, k as int),
        decreases to - k,
    {
        r.push(src[k]);
        k = k + 1;
    }
    r
}

/// The framing of a byte stream that carries messages of type `T`.
#[derive(Debug)]
pub struct NetworkMessage<T> {
    marker: PhantomData<T>,
}

impl<T> NetworkMessage<T> {
    pub fn new() -> Self {
        NetworkMessage { marker: PhantomData }
    }

    /// Appends the frame of `payload` to `buf`.
    pub fn encode(&mut self, payload: &[u8], buf: &mut Vec<u8>) -> (r: Result<(), Error>)
        ensures
            r is Ok,
            final(buf)@ == old(buf)@ + frame(payload@),
    {
        let n = payload.len();
        let w: usize = if n <= 0xffff {
            2
        } else if (n as u64) <= 0xffff_ffff {
            4
        } else {
            8
        };
        buf.push(w as u8);
        push_be(n as u64, w, buf);
        let mut k: usize = 0;
        let ghost before = buf@;
        while k < n
            invariant
                n == payload@.len(),
                k <= n,
                buf@ == before + payload@.take(k as int),
            decreases n - k,
        {
            buf.push(payload[k]);
            proof {
                assert(payload@.take(k + 1) == payload@.take(k as int).push(payload@[k as int]));
            }
            k = k + 1;
        }
        proof {
            assert(payload@.take(n as int) == payload@);
        }
        Ok(())
    }

    /// Takes the first frame off `src` and returns its payload. Where the
    /// frame is not buffered whole the result is `Ok(None)` and `src` is left
    /// as it was; a tag other than 2, 4 or 8 is an error.
    pub fn decode(&mut self, src: &mut Vec<u8>) -> (r: Result<Option<Vec<u8>>, Error>)
        ensures
            old(src)@.len() > 0 && !valid_tag(old(src)@[0]) <==> r == Err::<Option<Vec<u8>>, Error>(
                Error::InvalidLengthBye(old(src)@[0]),
            ),
            (old(src)@.len() == 0 || valid_tag(old(src)@[0])) && !frame_ready(old(src)@) <==> r
                == Ok::<Option<Vec<u8>>, Error>(None),
            frame_ready(old(src)@) <==> r matches Ok(Some(_)),
            r matches Ok(Some(p)) ==> p@ == old(src)@.subrange(
                header_len(old(src)@) as int,
                frame_end(old(src)@) as int,
            ) && final(src)@ == old(src)@.subrange(
                frame_end(old(src)@) as int,
                old(src)@.len() as int,
            ),
            !(r matches Ok(Some(_))) ==> final(src)@ == old(src)@,
    {
        let len = src.len();
        if len == 0 {
            return Ok(None);
        }
        let tag = src[0];
        if !(tag == 2 || tag == 4 || tag == 8) {
            return Err(Error::InvalidLengthBye(tag));
        }
        let w = tag as usize;
        if len < 1 + w {
            return Ok(None);
        }
        let size = read_be(src, 1, w);
        let header = 1 + w;
        if ((len - header) as u64) < size {
            return Ok(None);
        }
        let end = header + size as usize;
        let payload = copy_range(src, header, end);
        let rest = copy_range(src, end, len);
        *src = rest;
        Ok(Some(payload))
    }
}

} // verus!
