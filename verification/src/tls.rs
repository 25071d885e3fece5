//! Length-prefixed framing of datagrams over a TLS byte stream.

use vstd::prelude::*;

use crate::order::contents;

verus! {

/// The largest body a frame may announce unless a smaller limit is chosen: all
/// that the 16-bit length prefix can say.
pub const TLS_FRAME_MAX: usize = 65535;

/// Why a datagram could not be framed, or a frame could not be read.
#[derive(Clone, Copy, Debug, PartialEq, Eq, Structural)]
pub enum FrameError {
    /// The datagram does not fit into one frame.
    TooLarge,
    /// The announced length is zero or above the limit.
    BadLength,
}

/// The two bytes that announce a body of `len` bytes, high byte first.
pub open spec fn length_prefix(len: nat) -> Seq<u8> {
    seq![(len / 256) as u8, (len % 256) as u8]
}

/// The body length that the first two bytes of `buf` announce.
pub open spec fn announced(buf: Seq<u8>) -> nat {
    (buf[0] as nat) * 256 + buf[1] as nat
}

/// One datagram on the wire.
pub open spec fn frame(dg: Seq<u8>) -> Seq<u8> {
    length_prefix(dg.len()) + dg
}

/// Datagrams on the wire, one after the other.
pub open spec fn frames(dgs: Seq<Seq<u8>>) -> Seq<u8>
    decreases dgs.len(),
{
    if dgs.len() == 0 {
        Seq::empty()
    } else {
        frame(dgs[0]) + frames(dgs.drop_first())
    }
}

/// What a reader that allows bodies up to `max` bytes sees at the head of `buf`.
pub enum Head {
    /// The head frame is not complete yet.
    Incomplete,
    /// The head announces a length that is zero or above the limit.
    Bad,
    /// A complete frame: its body, and what follows it.
    Frame { body: Seq<u8>, rest: Seq<u8> },
}

pub open spec fn head(buf: Seq<u8>, max: nat) -> Head {
    if buf.len() < 2 {
        Head::Incomplete
    } else if announced(buf) == 0 || announced(buf) > max {
        Head::Bad
    } else if buf.len() < 2 + announced(buf) {
        Head::Incomplete
    } else {
        Head::Frame {
            body: buf.subrange(2, 2 + announced(buf) as int),
            rest: buf.skip(2 + announced(buf) as int),
        }
    }
}

/// The frame of `dg`; nothing for a body above `max` bytes or above what the length prefix
/// can say.
pub open spec fn framed(dg: Seq<u8>, max: nat) -> Option<Seq<u8>> {
    if dg.len() <= max && dg.len() <= 65535 {
        Some(frame(dg))
    } else {
        None
    }
}

/// Appends the frame of `dg` to `out`; refuses a body above `max` bytes or above
/// what the length prefix can say, and then leaves `out` alone.
pub fn frame_datagram_within(dg: &[u8], max: usize, out: &mut Vec<u8>) -> (res: Result<
    (),
    FrameError,
>)
    ensures
        dg@.len() <= max && dg@.len() <= 65535 ==> {
            &&& res == Ok::<(), FrameError>(())
            &&& final(out)@ == old(out)@ + frame(dg@)
        },
        dg@.len() > max || dg@.len() > 65535 ==> {
            &&& res == Err::<(), FrameError>(FrameError::TooLarge)
            &&& final(out)@ == old(out)@
        },
        res is Ok <==> framed(dg@, max as nat) is Some,
        res is Ok ==> final(out)@ == old(out)@ + framed(dg@, max as nat)->0,
{
    let len: usize = dg.len();
    if len > 65535 || len > max {
        return Err(FrameError::TooLarge);
    }
    out.push((len / 256) as u8);
    out.push((len % 256) as u8);
    out.extend_from_slice(dg);
    assert(out@ =~= old(out)@ + frame(dg@));
    Ok(())
}

/// Appends `[u16 length, high byte first][dg]` to `out`; refuses a datagram above
/// [`TLS_FRAME_MAX`].
pub fn frame_datagram(dg: &[u8], out: &mut Vec<u8>) -> (res: Result<(), FrameError>)
    ensures
        dg@.len() <= TLS_FRAME_MAX ==> {
            &&& res == Ok::<(), FrameError>(())
            &&& final(out)@ == old(out)@ + frame(dg@)
        },
        dg@.len() > TLS_FRAME_MAX ==> {
            &&& res == Err::<(), FrameError>(FrameError::TooLarge)
            &&& final(out)@ == old(out)@
        },
{
    frame_datagram_within(dg, TLS_FRAME_MAX, out)
}

/// Reassembles datagrams from a stream of plaintext bytes.
pub struct FrameReader {
    buf: Vec<u8>,
    max: usize,
}

/// What a [`FrameReader`] holds: the bytes that were pushed and not yet handed out, and
/// the largest body that it accepts.
#[verifier::ext_equal]
pub struct ReaderView {
    pub buf: Seq<u8>,
    pub max: nat,
}

impl View for FrameReader {
    type V = ReaderView;

    closed spec fn view(&self) -> ReaderView {
        ReaderView { buf: self.buf@, max: self.max as nat }
    }
}

impl Default for FrameReader {
    fn default() -> (r: Self)
        ensures
            r@ == (ReaderView { buf: Seq::empty(), max: TLS_FRAME_MAX as nat }),
            r@.max == 65535,
    {
        FrameReader { buf: Vec::new(), max: TLS_FRAME_MAX }
    }
}

impl FrameReader {
    /// A reader that accepts bodies up to `max` bytes.
    pub fn with_limit(max: usize) -> (r: Self)
        ensures
            r@ == (ReaderView { buf: Seq::empty(), max: max as nat }),
    {
        FrameReader { buf: Vec::new(), max }
    }

    /// Appends freshly decrypted plaintext.
    pub fn push(&mut self, bytes: &[u8])
        ensures
            final(self)@ == (ReaderView { buf: old(self)@.buf + bytes@, ..old(self)@ }),
    {
        self.buf.extend_from_slice(bytes);
        assert(self.buf@ =~= old(self).buf@ + bytes@);
    }

    /// Takes one complete datagram; `Ok(None)` while the head frame is incomplete.
    /// A length of zero, or one above the limit, is an error and stays one.
    pub fn next(&mut self) -> (res: Result<Option<Vec<u8>>, FrameError>)
        ensures
            match head(old(self)@.buf, old(self)@.max) {
                Head::Incomplete => {
                    &&& res == Ok::<Option<Vec<u8>>, FrameError>(None)
                    &&& final(self)@ == old(self)@
                },
                Head::Bad => {
                    &&& res == Err::<Option<Vec<u8>>, FrameError>(FrameError::BadLength)
                    &&& final(self)@ == old(self)@
                },
                Head::Frame { body, rest } => {
                    &&& res matches Ok(Some(dg)) && dg@ == body
                    &&& final(self)@ == (ReaderView { buf: rest, ..old(self)@ })
                },
            },
    {
        if self.buf.len() < 2 {
            return Ok(None);
        }
        let len: usize = self.buf[0] as usize * 256 + self.buf[1] as usize;
        if len == 0 || len > self.max {
            return Err(FrameError::BadLength);
        }
        if self.buf.len() < 2 + len {
            return Ok(None);
        }
        let mut dg: Vec<u8> = self.buf.split_off(2);
        let rest: Vec<u8> = dg.split_off(len);
        self.buf = rest;
        assert(dg@ =~= old(self).buf@.subrange(2, 2 + len as int));
        assert(self.buf@ =~= old(self).buf@.skip(2 + len as int));
        Ok(Some(dg))
    }

    /// Takes every complete datagram, in their order; the flag says whether a bad length
    /// stands behind them.
    pub fn drain(&mut self) -> (r: (Vec<Vec<u8>>, bool))
        ensures
            contents(r.0@) == drained(old(self)@.buf, old(self)@.max),
            final(self)@ == (ReaderView {
                buf: leftover(old(self)@.buf, old(self)@.max),
                ..old(self)@
            }),
            r.1 == (head(final(self)@.buf, old(self)@.max) is Bad),
    {
        let ghost start = self@.buf;
        let ghost max = self@.max;
        let mut out: Vec<Vec<u8>> = Vec::new();
        assert(contents(out@) + drained(self@.buf, max) =~= drained(start, max));
        loop
            invariant
                max == old(self)@.max,
                start == old(self)@.buf,
                self@.max == max,
                contents(out@) + drained(self@.buf, max) == drained(start, max),
                leftover(self@.buf, max) == leftover(start, max),
            decreases self@.buf.len(),
        {
            let ghost had = out@;
            let ghost buf = self@.buf;
            match self.next() {
                Ok(Some(dg)) => {
                    out.push(dg);
                    proof {
                        assert(contents(out@) =~= contents(had) + seq![dg@]);
                        assert(contents(out@) + drained(self@.buf, max) =~= contents(had) + drained(
                            buf,
                            max,
                        ));
                    }
                },
                Ok(None) => {
                    assert(contents(out@) + drained(self@.buf, max) =~= contents(out@));
                    return (out, false);
                },
                Err(_) => {
                    assert(contents(out@) + drained(self@.buf, max) =~= contents(out@));
                    return (out, true);
                },
            }
        }
    }
}

/// A frame at the head of the buffer gives its datagram back and leaves exactly
/// what follows it, for every non-empty datagram within the limit.
pub proof fn law_frame_round_trip(dg: Seq<u8>, rest: Seq<u8>, max: nat)
    requires
        0 < dg.len() <= max,
        dg.len() <= 65535,
    ensures
        head(frame(dg) + rest, max) == (Head::Frame { body: dg, rest }),
{
    let buf = frame(dg) + rest;
    assert(buf[0] == (dg.len() / 256) as u8);
    assert(buf[1] == (dg.len() % 256) as u8);
    assert(announced(buf) == dg.len());
    assert(buf.subrange(2, 2 + dg.len() as int) =~= dg);
    assert(buf.skip(2 + dg.len() as int) =~= rest);
}

/// A strict prefix of a frame never yields anything, however the stream was cut.
pub proof fn law_partial_frame_waits(dg: Seq<u8>, cut: int, max: nat)
    requires
        0 < dg.len() <= max,
        dg.len() <= 65535,
        0 <= cut < frame(dg).len(),
    ensures
        head(frame(dg).take(cut), max) == Head::Incomplete,
{
    let buf = frame(dg).take(cut);
    if cut >= 2 {
        assert(buf[0] == (dg.len() / 256) as u8);
        assert(buf[1] == (dg.len() % 256) as u8);
        assert(announced(buf) == dg.len());
    }
}

/// Everything a reader takes out of `buf` until the head is incomplete or bad.
pub open spec fn drained(buf: Seq<u8>, max: nat) -> Seq<Seq<u8>>
    decreases buf.len(),
{
    match head(buf, max) {
        Head::Frame { body, rest } => seq![body] + drained(rest, max),
        _ => Seq::empty(),
    }
}

/// What is left of `buf` after a reader took out all it can.
pub open spec fn leftover(buf: Seq<u8>, max: nat) -> Seq<u8>
    decreases buf.len(),
{
    match head(buf, max) {
        Head::Frame { rest, .. } => leftover(rest, max),
        _ => buf,
    }
}

/// How a stream is cut does not matter: what a reader takes out of the bytes that came
/// first, and then out of what was left with the rest behind it, is what it takes out of
/// the whole, and leaves what it leaves of the whole.
pub proof fn law_cut_does_not_matter(a: Seq<u8>, b: Seq<u8>, max: nat)
    ensures
        drained(a + b, max) == drained(a, max) + drained(leftover(a, max) + b, max),
        leftover(a + b, max) == leftover(leftover(a, max) + b, max),
    decreases a.len(),
{
    match head(a, max) {
        Head::Frame { body, rest } => {
            assert((a + b).subrange(2, 2 + announced(a) as int) =~= body);
            assert((a + b).skip(2 + announced(a) as int) =~= rest + b);
            assert(head(a + b, max) == (Head::Frame { body, rest: rest + b }));
            law_cut_does_not_matter(rest, b, max);
            assert(drained(a, max) + drained(leftover(a, max) + b, max) =~= seq![body] + (drained(
                rest,
                max,
            ) + drained(leftover(rest, max) + b, max)));
        },
        _ => {
            assert(drained(a, max) + drained(a + b, max) =~= drained(a + b, max));
        },
    }
}

/// A stream of frames comes out as the datagrams that went in, in their order,
/// followed by what the bytes after them give.
pub proof fn law_stream_round_trip(dgs: Seq<Seq<u8>>, rest: Seq<u8>, max: nat)
    requires
        forall|i: int| 0 <= i < dgs.len() ==> 0 < #[trigger] dgs[i].len() <= max,
        forall|i: int| 0 <= i < dgs.len() ==> #[trigger] dgs[i].len() <= 65535,
    ensures
        drained(frames(dgs) + rest, max) == dgs + drained(rest, max),
        leftover(frames(dgs) + rest, max) == leftover(rest, max),
    decreases dgs.len(),
{
    if dgs.len() == 0 {
        assert(frames(dgs) + rest =~= rest);
        assert(dgs + drained(rest, max) =~= drained(rest, max));
    } else {
        let tail = dgs.drop_first();
        assert forall|i: int| 0 <= i < tail.len() implies 0 < #[trigger] tail[i].len() <= max
            && tail[i].len() <= 65535 by {
            assert(tail[i] == dgs[i + 1]);
        }
        law_stream_round_trip(tail, rest, max);
        law_frame_round_trip(dgs[0], frames(tail) + rest, max);
        assert(frames(dgs) + rest =~= frame(dgs[0]) + (frames(tail) + rest));
        assert(dgs + drained(rest, max) =~= seq![dgs[0]] + (tail + drained(rest, max)));
    }
}

/// A frame is two bytes longer than its datagram, which it ends with; the two bytes say the
/// datagram's length, the high one first.
pub proof fn law_frame_layout(dg: Seq<u8>)
    requires
        dg.len() <= 65535,
    ensures
        frame(dg).len() == dg.len() + 2,
        frame(dg)[0] == dg.len() / 256,
        frame(dg)[1] == dg.len() % 256,
        frame(dg).skip(2) == dg,
{
    assert(frame(dg).skip(2) =~= dg);
}

/// What stands at the head of a stream: a length that is zero or above the limit breaks it as
/// soon as the length is there; until the whole frame is there nothing comes out; then its
/// body does, and what is behind it stays.
pub proof fn law_head_of_a_stream(buf: Seq<u8>, max: nat)
    ensures
        ({
            let len = buf[0] * 256 + buf[1];
            let h = head(buf, max);
            &&& buf.len() < 2 ==> h is Incomplete
            &&& buf.len() >= 2 && (len == 0 || len > max) ==> h is Bad
            &&& buf.len() >= 2 && 0 < len <= max && buf.len() < len + 2 ==> h is Incomplete
            &&& buf.len() >= 2 && 0 < len <= max && buf.len() >= len + 2 ==> {
                &&& h is Frame
                &&& h->body.len() == len
                &&& h->body == buf.skip(2).take(len)
                &&& h->rest == buf.skip(len + 2)
            }
        }),
{
    let len = buf[0] * 256 + buf[1];
    if buf.len() >= len + 2 && buf.len() >= 2 {
        assert(buf.subrange(2, 2 + len) =~= buf.skip(2).take(len));
    }
}

/// What is within the limit of a reader can be framed for it, and nothing else; what is framed,
/// and not empty, the reader gives back as it was, with all that is behind it left.
pub proof fn law_what_fits_gets_through(dg: Seq<u8>, rest: Seq<u8>, max: nat)
    ensures
        framed(dg, max) is Some <==> dg.len() <= max && dg.len() <= 65535,
        framed(dg, TLS_FRAME_MAX as nat) is Some <==> dg.len() <= 65535,
        framed(dg, max) is Some && dg.len() > 0 ==> head(framed(dg, max)->0 + rest, max) == (
        Head::Frame { body: dg, rest }),
{
    if framed(dg, max) is Some && dg.len() > 0 {
        law_frame_round_trip(dg, rest, max);
    }
}

} // verus!
