//! The wire format. Outbound frames are a big-endian command, a big-endian
//! payload length and the payload; inbound frames are a big-endian length
//! and that many bytes, with no identifier.

use vstd::prelude::*;

verus! {

/// The two big-endian bytes of a 16-bit value.
pub open spec fn be16(v: nat) -> Seq<u8> {
    seq![(v / 256) as u8, (v % 256) as u8]
}

/// The value of two big-endian bytes.
pub open spec fn be16_value(hi: u8, lo: u8) -> int {
    hi as int * 256 + lo as int
}

/// An outbound frame: command, payload length, payload.
pub open spec fn frame_of(command: u16, payload: Seq<u8>) -> Seq<u8> {
    be16(command as nat) + be16(payload.len()) + payload
}

/// The complete inbound frames at the start of `buf`, in order, and the
/// bytes after the last of them. A frame whose length field or body is cut
/// short ends the parse: it and everything after it is left over.
pub open spec fn parse_frames(buf: Seq<u8>) -> (Seq<Seq<u8>>, Seq<u8>)
    decreases buf.len(),
{
    if buf.len() < 2 {
        (seq![], buf)
    } else {
        let n = be16_value(buf[0], buf[1]);
        if buf.len() < 2 + n {
            (seq![], buf)
        } else {
            let rest = parse_frames(buf.skip(2 + n));
            (seq![buf.subrange(2, 2 + n)] + rest.0, rest.1)
        }
    }
}

/// Appends the outbound frame of `command` and `payload` to `out`.
pub fn encode_frame(out: &mut Vec<u8>, command: u16, payload: &Vec<u8>)
    requires
        payload@.len() <= u16::MAX,
    ensures
        final(out)@ == old(out)@ + frame_of(command, payload@),
{
    let len = payload.len();
    out.push((command / 256) as u8);
    out.push((command % 256) as u8);
    out.push((len / 256) as u8);
    out.push((len % 256) as u8);
    let ghost header = old(out)@ + be16(command as nat) + be16(len as nat);
    assert(out@ =~= header);
    let mut i: usize = 0;
    while i < len
        invariant
            len == payload@.len(),
            i <= len,
            out@ =~= header + payload@.subrange(0, i as int),
        decreases len - i,
    {
        out.push(payload[i]);
        i += 1;
        assert(out@ =~= header + payload@.subrange(0, i as int));
    }
    assert(payload@.subrange(0, len as int) =~= payload@);
}

/// The bytes of `buf` from `start` up to `end`.
pub fn copy_range(buf: &Vec<u8>, start: usize, end: usize) -> (r: Vec<u8>)
    requires
        start <= end <= buf@.len(),
    ensures
        r@ == buf@.subrange(start as int, end as int),
{
    let mut r: Vec<u8> = Vec::new();
    let mut i: usize = start;
    while i < end
        invariant
            start <= i <= end <= buf@.len(),
            r@ =~= buf@.subrange(start as int, i as int),
        decreases end - i,
    {
        r.push(buf[i]);
        i += 1;
        assert(r@ =~= buf@.subrange(start as int, i as int));
    }
    r
}

proof fn lemma_parse_step(buf: Seq<u8>, off: int)
    requires
        0 <= off,
        off + 2 <= buf.len(),
        off + 2 + be16_value(buf[off], buf[off + 1]) <= buf.len(),
    ensures
        ({
            let n = be16_value(buf[off], buf[off + 1]);
            let here = parse_frames(buf.skip(off));
            let next = parse_frames(buf.skip(off + 2 + n));
            here.0 == seq![buf.subrange(off + 2, off + 2 + n)] + next.0 && here.1 == next.1
        }),
{
    let n = be16_value(buf[off], buf[off + 1]);
    let s = buf.skip(off);
    assert(s[0] == buf[off] && s[1] == buf[off + 1]);
    assert(s.skip(2 + n) =~= buf.skip(off + 2 + n));
    assert(s.subrange(2, 2 + n) =~= buf.subrange(off + 2, off + 2 + n));
}

/// Splits `buf` into its complete inbound frames. Returns the frames' bodies
/// in order and the offset where the unparsed rest begins.
pub fn split_frames(buf: &Vec<u8>) -> (r: (Vec<Vec<u8>>, usize))
    ensures
        r.0@.len() == parse_frames(buf@).0.len(),
        forall|i: int| 0 <= i < r.0@.len() ==> r.0@[i]@ == parse_frames(buf@).0[i],
        r.1 <= buf@.len(),
        buf@.skip(r.1 as int) == parse_frames(buf@).1,
{
    let mut frames: Vec<Vec<u8>> = Vec::new();
    let mut off: usize = 0;
    assert(buf@.skip(0) =~= buf@);
    while buf.len() - off >= 2
        invariant
            off <= buf@.len(),
            frames@.map_values(|f: Vec<u8>| f@) + parse_frames(buf@.skip(off as int)).0
                == parse_frames(buf@).0,
            parse_frames(buf@.skip(off as int)).1 == parse_frames(buf@).1,
        ensures
            off <= buf@.len(),
            frames@.map_values(|f: Vec<u8>| f@) + parse_frames(buf@.skip(off as int)).0
                == parse_frames(buf@).0,
            parse_frames(buf@.skip(off as int)).1 == parse_frames(buf@).1,
            parse_frames(buf@.skip(off as int)).0 == Seq::<Seq<u8>>::empty(),
            parse_frames(buf@.skip(off as int)).1 == buf@.skip(off as int),
        decreases buf@.len() - off,
    {
        let n = (buf[off] as usize) * 256 + (buf[off + 1] as usize);
        if n > buf.len() - off - 2 {
            proof {
                let s = buf@.skip(off as int);
                assert(s[0] == buf@[off as int] && s[1] == buf@[off + 1]);
            }
            break;
        }
        proof {
            lemma_parse_step(buf@, off as int);
        }
        let body = copy_range(buf, off + 2, off + 2 + n);
        let ghost before = frames@.map_values(|f: Vec<u8>| f@);
        frames.push(body);
        assert(frames@.map_values(|f: Vec<u8>| f@) =~= before.push(body@));
        off = off + 2 + n;
    }
    assert(frames@.map_values(|f: Vec<u8>| f@) =~= parse_frames(buf@).0);
    (frames, off)
}

} // verus!
