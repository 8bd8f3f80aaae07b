//! The FLV container writer and the byte sinks it writes into.

use crate::chunk::chunk_bytes;
use crate::chunk::chunk_new;
use crate::chunk::chunk_remaining_capacity;
use crate::chunk::chunk_try_extend_from_slice;
use crate::chunk::concat;
use crate::chunk::lemma_concat_push;
use crate::chunk::send_chunk;
use crate::chunk::Chunk;
use crate::chunk::CHUNK_SIZE;
use std::sync::mpsc::SyncSender;
use vstd::prelude::*;
use vstd::slice::slice_subrange;

verus! {

/// Why a byte sink gave up.
#[derive(Debug, Clone, Copy, PartialEq, Eq, Structural)]
pub enum WriteError {
    /// The receiving end of the sink is gone.
    BrokenPipe,
}

/// The thirteen bytes that open every stream: signature, version, the video
/// flag, the header length, and the size of the (absent) tag before the first.
pub open spec fn flv_header() -> Seq<u8> {
    seq![0x46u8, 0x4Cu8, 0x56u8, 0x01u8, 0x05u8, 0x00u8, 0x00u8, 0x00u8, 0x09u8, 0x00u8, 0x00u8,
        0x00u8, 0x00u8]
}

/// The three low bytes of `n`, most significant first.
pub open spec fn u24_be(n: int) -> Seq<u8> {
    seq![((n / 0x1_0000) % 256) as u8, ((n / 0x100) % 256) as u8, (n % 256) as u8]
}

/// The four low bytes of `n`, most significant first.
pub open spec fn u32_be(n: int) -> Seq<u8> {
    seq![
        ((n / 0x100_0000) % 256) as u8,
        ((n / 0x1_0000) % 256) as u8,
        ((n / 0x100) % 256) as u8,
        (n % 256) as u8,
    ]
}

/// The eleven bytes in front of a video payload: the tag type, the payload
/// size, the low 24 bits of the timestamp, its high byte, and stream id zero.
pub open spec fn video_tag_header(timestamp: u32, payload_len: int) -> Seq<u8> {
    seq![9u8] + u24_be(payload_len) + u24_be(timestamp as int) + seq![(timestamp / 0x100_0000) as u8]
        + seq![0u8, 0u8, 0u8]
}

/// One video tag: its header, the payload, and the size of the whole tag.
pub open spec fn video_tag(timestamp: u32, payload: Seq<u8>) -> Seq<u8> {
    video_tag_header(timestamp, payload.len() as int) + payload + u32_be(11 + payload.len() as int)
}

/// The tags of a sequence of `(timestamp, payload)` pairs, one after another.
pub open spec fn video_tags(tags: Seq<(u32, Seq<u8>)>) -> Seq<u8>
    decreases tags.len(),
{
    if tags.len() == 0 {
        Seq::empty()
    } else {
        video_tag(tags[0].0, tags[0].1) + video_tags(tags.skip(1))
    }
}

/// A whole stream: the header, then the tags.
pub open spec fn flv_stream(tags: Seq<(u32, Seq<u8>)>) -> Seq<u8> {
    flv_header() + video_tags(tags)
}

/// The number that three bytes of `bytes` from `at` on spell, most significant first.
pub open spec fn u24_at(bytes: Seq<u8>, at: int) -> int {
    bytes[at] as int * 0x1_0000 + bytes[at + 1] as int * 0x100 + bytes[at + 2] as int
}

/// The number that four bytes of `bytes` from `at` on spell, most significant first.
pub open spec fn u32_at(bytes: Seq<u8>, at: int) -> int {
    bytes[at] as int * 0x100_0000 + u24_at(bytes, at + 1)
}

/// What a demuxer reads out of the bytes after the header: the video tags in
/// order, or `None` where the bytes are not a sequence of whole video tags.
#[verifier::opaque]
pub open spec fn demux_tags(bytes: Seq<u8>) -> Option<Seq<(u32, Seq<u8>)>>
    decreases bytes.len(),
{
    if bytes.len() == 0 {
        Some(Seq::empty())
    } else if bytes.len() < 15 || bytes[0] != 9 {
        None
    } else {
        let size = u24_at(bytes, 1);
        let timestamp = u24_at(bytes, 4) + bytes[7] as int * 0x100_0000;
        if bytes.len() < 15 + size || u24_at(bytes, 8) != 0 || u32_at(bytes, 11 + size) != 11
            + size {
            None
        } else {
            match demux_tags(bytes.skip(15 + size)) {
                Some(rest) => Some(
                    seq![(timestamp as u32, bytes.subrange(11, 11 + size))] + rest,
                ),
                None => None,
            }
        }
    }
}

/// What a demuxer reads out of a whole stream.
pub open spec fn demux(bytes: Seq<u8>) -> Option<Seq<(u32, Seq<u8>)>> {
    if bytes.len() >= 13 && bytes.take(13) == flv_header() {
        demux_tags(bytes.skip(13))
    } else {
        None
    }
}

/// Appending a pair to the sequence appends its tag to the bytes.
pub proof fn lemma_video_tags_push(tags: Seq<(u32, Seq<u8>)>, timestamp: u32, payload: Seq<u8>)
    ensures
        video_tags(tags.push((timestamp, payload))) == video_tags(tags) + video_tag(
            timestamp,
            payload,
        ),
        flv_stream(tags.push((timestamp, payload))) == flv_stream(tags) + video_tag(
            timestamp,
            payload,
        ),
    decreases tags.len(),
{
    let longer = tags.push((timestamp, payload));
    if tags.len() == 0 {
        assert(longer.skip(1) == Seq::<(u32, Seq<u8>)>::empty());
        assert(video_tags(longer.skip(1)) == Seq::<u8>::empty());
        assert(video_tags(longer) == video_tag(timestamp, payload) + Seq::<u8>::empty());
        assert(video_tags(tags) + video_tag(timestamp, payload) == video_tag(timestamp, payload));
        assert(video_tag(timestamp, payload) + Seq::<u8>::empty() == video_tag(
            timestamp,
            payload,
        ));
    } else {
        lemma_video_tags_push(tags.skip(1), timestamp, payload);
        assert(longer.skip(1) == tags.skip(1).push((timestamp, payload)));
        assert(longer[0] == tags[0]);
        assert(video_tag(tags[0].0, tags[0].1) + (video_tags(tags.skip(1)) + video_tag(
            timestamp,
            payload,
        )) == (video_tag(tags[0].0, tags[0].1) + video_tags(tags.skip(1))) + video_tag(
            timestamp,
            payload,
        ));
    }
    assert(flv_header() + (video_tags(tags) + video_tag(timestamp, payload)) == (flv_header()
        + video_tags(tags)) + video_tag(timestamp, payload));
}

/// The tags of two sequences, one after the other, are the tags of the first
/// followed by the tags of the second.
pub proof fn lemma_video_tags_concat(first: Seq<(u32, Seq<u8>)>, second: Seq<(u32, Seq<u8>)>)
    ensures
        video_tags(first + second) == video_tags(first) + video_tags(second),
        flv_stream(first + second) == flv_stream(first) + video_tags(second),
    decreases second.len(),
{
    if second.len() == 0 {
        assert(first + second =~= first);
        assert(video_tags(first) + video_tags(second) =~= video_tags(first));
    } else {
        let front = second.drop_last();
        let last = second.last();
        lemma_video_tags_concat(first, front);
        lemma_video_tags_push(first + front, last.0, last.1);
        lemma_video_tags_push(front, last.0, last.1);
        assert(front.push((last.0, last.1)) =~= second);
        assert((first + front).push((last.0, last.1)) =~= first + second);
        assert(video_tags(first) + (video_tags(front) + video_tag(last.0, last.1)) == (video_tags(
            first,
        ) + video_tags(front)) + video_tag(last.0, last.1));
    }
    assert(flv_header() + (video_tags(first) + video_tags(second)) == (flv_header() + video_tags(
        first,
    )) + video_tags(second));
}

/// Whatever tags follow, a stream opens with the header.
pub proof fn lemma_stream_opens_with_header(tags: Seq<(u32, Seq<u8>)>)
    ensures
        flv_stream(tags).len() >= 13,
        flv_stream(tags).take(13) == flv_header(),
{
    assert(flv_header().len() == 13);
    assert(flv_stream(tags).take(13) =~= flv_header());
}

/// Three bytes spell the number below 2^24 that they were cut from.
pub proof fn lemma_u24_spelled(n: int)
    requires
        0 <= n < 0x100_0000,
    ensures
        ((n / 0x1_0000) % 256) * 0x1_0000 + ((n / 0x100) % 256) * 0x100 + n % 256 == n,
{
}

/// Four bytes spell the number below 2^32 that they were cut from.
pub proof fn lemma_u32_spelled(n: int)
    requires
        0 <= n < 0x1_0000_0000,
    ensures
        ((n / 0x100_0000) % 256) * 0x100_0000 + ((n / 0x1_0000) % 256) * 0x1_0000 + ((n / 0x100)
            % 256) * 0x100 + n % 256 == n,
        ((n / 0x1_0000) % 256) * 0x1_0000 + ((n / 0x100) % 256) * 0x100 + n % 256 + (n
            / 0x100_0000) * 0x100_0000 == n,
        n / 0x100_0000 < 256,
{
}

/// Where the fields of a tag lie in a stream that begins with it.
proof fn lemma_tag_layout(timestamp: u32, payload: Seq<u8>, rest: Seq<u8>)
    ensures
        ({
            let bytes = video_tag(timestamp, payload) + rest;
            let len = payload.len() as int;
            &&& bytes.len() == 15 + len + rest.len()
            &&& bytes[0] == 9
            &&& bytes[1] == ((len / 0x1_0000) % 256) as u8
            &&& bytes[2] == ((len / 0x100) % 256) as u8
            &&& bytes[3] == (len % 256) as u8
            &&& bytes[4] == ((timestamp as int / 0x1_0000) % 256) as u8
            &&& bytes[5] == ((timestamp as int / 0x100) % 256) as u8
            &&& bytes[6] == (timestamp as int % 256) as u8
            &&& bytes[7] == (timestamp / 0x100_0000) as u8
            &&& bytes[8] == 0
            &&& bytes[9] == 0
            &&& bytes[10] == 0
            &&& bytes[11 + len] == (((11 + len) / 0x100_0000) % 256) as u8
            &&& bytes[12 + len] == (((11 + len) / 0x1_0000) % 256) as u8
            &&& bytes[13 + len] == (((11 + len) / 0x100) % 256) as u8
            &&& bytes[14 + len] == ((11 + len) % 256) as u8
            &&& bytes.skip(15 + len) == rest
            &&& bytes.subrange(11, 11 + len) == payload
        }),
{
    let bytes = video_tag(timestamp, payload) + rest;
    let len = payload.len() as int;
    let head = video_tag_header(timestamp, len);
    let trailer = u32_be(11 + len);
    assert(head.len() == 11);
    assert(trailer.len() == 4);
    assert(video_tag(timestamp, payload).len() == 15 + len);
    assert forall|i: int| 0 <= i < 11 implies bytes[i] == head[i] by {}
    assert forall|i: int| 0 <= i < 4 implies bytes[11 + len + i] == trailer[i] by {}
    assert(bytes[11 + len] == trailer[0]);
    assert(bytes[12 + len] == trailer[1]);
    assert(bytes[13 + len] == trailer[2]);
    assert(bytes[14 + len] == trailer[3]);
    assert(bytes.skip(15 + len) =~= rest);
    assert(bytes.subrange(11, 11 + len) =~= payload);
}

/// A demuxer that meets one tag in front of `rest` reads that tag's timestamp
/// and payload back and goes on with `rest`, as long as the payload's length
/// fits the 24 bits of the size field.
pub proof fn lemma_demux_one_tag(timestamp: u32, payload: Seq<u8>, rest: Seq<u8>)
    requires
        payload.len() < 0x100_0000,
    ensures
        demux_tags(video_tag(timestamp, payload) + rest) == match demux_tags(rest) {
            Some(more) => Some(seq![(timestamp, payload)] + more),
            None => None,
        },
{
    let bytes = video_tag(timestamp, payload) + rest;
    let len = payload.len() as int;
    reveal(demux_tags);
    lemma_tag_layout(timestamp, payload, rest);
    lemma_u24_spelled(len);
    lemma_u32_spelled(timestamp as int);
    lemma_u32_spelled(11 + len);
    assert(u24_at(bytes, 1) == len);
    assert(u24_at(bytes, 4) + bytes[7] as int * 0x100_0000 == timestamp as int);
    assert(u24_at(bytes, 8) == 0);
    assert(u32_at(bytes, 11 + len) == 11 + len);
}

/// Out of no bytes a demuxer reads no tags.
pub proof fn lemma_demux_nothing()
    ensures
        demux_tags(Seq::<u8>::empty()) == Some(Seq::<(u32, Seq<u8>)>::empty()),
{
    reveal(demux_tags);
}

/// The framing law for the tags alone: the bytes written for any sequence of
/// timestamps and payloads demux back to exactly that sequence, as long as
/// each payload's length fits the 24 bits of the size field.
pub proof fn lemma_demux_tags_roundtrip(tags: Seq<(u32, Seq<u8>)>)
    requires
        forall|i: int| 0 <= i < tags.len() ==> (#[trigger] tags[i]).1.len() < 0x100_0000,
    ensures
        demux_tags(video_tags(tags)) == Some(tags),
    decreases tags.len(),
{
    if tags.len() == 0 {
        lemma_demux_nothing();
        assert(tags =~= Seq::<(u32, Seq<u8>)>::empty());
    } else {
        let rest = tags.skip(1);
        assert forall|i: int| 0 <= i < rest.len() implies (#[trigger] rest[i]).1.len()
            < 0x100_0000 by {
            assert(rest[i] == tags[i + 1]);
        }
        lemma_demux_tags_roundtrip(rest);
        assert(tags[0].1.len() < 0x100_0000);
        lemma_demux_one_tag(tags[0].0, tags[0].1, video_tags(rest));
        assert(video_tags(tags) == video_tag(tags[0].0, tags[0].1) + video_tags(rest));
        assert(seq![(tags[0].0, tags[0].1)] + rest =~= tags);
    }
}

/// The framing law: the stream written for any sequence of timestamps and
/// payloads demuxes back to exactly that sequence, each timestamp put together
/// again from its low 24 bits and its high byte, as long as each payload's
/// length fits the 24 bits of the size field.
pub proof fn lemma_demux_roundtrip(tags: Seq<(u32, Seq<u8>)>)
    requires
        forall|i: int| 0 <= i < tags.len() ==> (#[trigger] tags[i]).1.len() < 0x100_0000,
    ensures
        demux(flv_stream(tags)) == Some(tags),
{
    lemma_demux_tags_roundtrip(tags);
    lemma_stream_opens_with_header(tags);
    assert(flv_stream(tags).skip(13) =~= video_tags(tags));
}

/// Something that takes bytes in order, as a file or a pipe does.
pub trait ByteSink {
    /// Every byte accepted so far, in order.
    spec fn written(&self) -> Seq<u8>;

    /// The sink's own invariant.
    spec fn well_formed(&self) -> bool;

    /// Whether a write or a flush of this sink can fail.
    spec fn can_fail(&self) -> bool;

    /// A number of bytes that the sink is sure to take whole, whatever happens
    /// elsewhere.
    spec fn spare(&self) -> nat;

    /// The bytes accepted that the sink still holds back: the end of what was
    /// written, not yet passed on to where the bytes go.
    spec fn held(&self) -> Seq<u8>;

    /// Takes a prefix of `buf` and says how long it is: at least one byte
    /// where `buf` is not empty.
    fn write(&mut self, buf: &[u8]) -> (r: Result<usize, WriteError>)
        requires
            old(self).well_formed(),
        ensures
            final(self).well_formed(),
            final(self).can_fail() == old(self).can_fail(),
            match r {
                Ok(n) => n <= buf@.len() && (buf@.len() > 0 ==> n > 0) && final(self).written()
                    == old(self).written() + buf@.take(n as int),
                Err(_) => old(self).can_fail(),
            },
            buf@.len() <= old(self).spare() ==> r == Ok::<usize, WriteError>(buf@.len() as usize)
                && final(self).spare() == old(self).spare() - buf@.len(),
            final(self).held().is_suffix_of(final(self).written()),
    ;

    /// Passes on what the sink holds back: after a flush that succeeds
    /// nothing is held, and nothing was added to what was written.
    fn flush(&mut self) -> (r: Result<(), WriteError>)
        requires
            old(self).well_formed(),
        ensures
            final(self).well_formed(),
            final(self).can_fail() == old(self).can_fail(),
            match r {
                Ok(()) => {
                    &&& final(self).written() == old(self).written()
                    &&& final(self).held() == Seq::<u8>::empty()
                },
                Err(_) => old(self).can_fail(),
            },
            final(self).held().is_suffix_of(final(self).written()),
    ;
}

/// A growing byte vector is a sink that never fails.
impl ByteSink for Vec<u8> {
    open spec fn written(&self) -> Seq<u8> {
        self@
    }

    open spec fn well_formed(&self) -> bool {
        true
    }

    open spec fn can_fail(&self) -> bool {
        false
    }

    open spec fn spare(&self) -> nat {
        0
    }

    /// A vector holds nothing back.
    open spec fn held(&self) -> Seq<u8> {
        Seq::empty()
    }

    /// Takes all of `buf`.
    fn write(&mut self, buf: &[u8]) -> (r: Result<usize, WriteError>)
        ensures
            r == Ok::<usize, WriteError>(buf@.len() as usize),
            final(self)@ == old(self)@ + buf@,
    {
        self.extend_from_slice(buf);
        assert(buf@.take(buf@.len() as int) == buf@);
        assert(self@.subrange(self@.len() as int, self@.len() as int) =~= Seq::<u8>::empty());
        Ok(buf.len())
    }

    /// Does nothing: a vector holds nothing back.
    fn flush(&mut self) -> (r: Result<(), WriteError>)
        ensures
            r == Ok::<(), WriteError>(()),
            final(self)@ == old(self)@,
    {
        assert(self@.subrange(self@.len() as int, self@.len() as int) =~= Seq::<u8>::empty());
        Ok(())
    }
}


/// Frames a live video stream as FLV into the sink it owns.
pub struct FLVWriterWrapper<W> {
    inner: W,
}

impl<W: ByteSink> FLVWriterWrapper<W> {
    /// The sink that the writer owns.
    pub closed spec fn sink(&self) -> W {
        self.inner
    }

    /// Wraps a sink; nothing is written yet.
    pub fn new(inner: W) -> (r: Self)
        ensures
            r.sink() == inner,
    {
        Self { inner }
    }

    /// Writes all of `buf`, going on after each short write.
    pub fn write_all(&mut self, buf: &[u8]) -> (r: Result<(), WriteError>)
        requires
            old(self).sink().well_formed(),
        ensures
            final(self).sink().well_formed(),
            final(self).sink().can_fail() == old(self).sink().can_fail(),
            match r {
                Ok(()) => final(self).sink().written() == old(self).sink().written() + buf@,
                Err(_) => old(self).sink().can_fail(),
            },
            buf@.len() <= old(self).sink().spare() ==> {
                &&& r is Ok
                &&& final(self).sink().spare() == old(self).sink().spare() - buf@.len()
            },
    {
        let mut pos: usize = 0;
        while pos < buf.len()
            invariant
                pos <= buf@.len(),
                self.inner.well_formed(),
                self.inner.can_fail() == old(self).inner.can_fail(),
                self.inner.written() == old(self).inner.written() + buf@.take(pos as int),
                buf@.len() <= old(self).inner.spare() ==> {
                    ||| pos == 0 && self.inner.spare() == old(self).inner.spare()
                    ||| pos == buf@.len() && self.inner.spare() == old(self).inner.spare()
                        - buf@.len()
                },
            decreases buf@.len() - pos,
        {
            let rest = slice_subrange(buf, pos, buf.len());
            match self.inner.write(rest) {
                Ok(n) => {
                    assert(buf@.take(pos as int) + rest@.take(n as int) == buf@.take(pos + n));
                    pos = pos + n;
                },
                Err(e) => {
                    return Err(e);
                },
            }
        }
        assert(buf@.take(pos as int) == buf@);
        Ok(())
    }

    /// Writes the stream header.
    pub fn write_header(&mut self) -> (r: Result<(), WriteError>)
        requires
            old(self).sink().well_formed(),
        ensures
            final(self).sink().well_formed(),
            final(self).sink().can_fail() == old(self).sink().can_fail(),
            match r {
                Ok(()) => final(self).sink().written() == old(self).sink().written()
                    + flv_header(),
                Err(_) => old(self).sink().can_fail(),
            },
            13 <= old(self).sink().spare() ==> {
                &&& r is Ok
                &&& final(self).sink().spare() == old(self).sink().spare() - 13
            },
    {
        let header: [u8; 13] = [
            0x46, 0x4C, 0x56, 0x01, 0x05, 0x00, 0x00, 0x00, 0x09, 0x00, 0x00, 0x00, 0x00,
        ];
        assert(header@ == flv_header());
        self.write_all(header.as_slice())
    }

    /// Writes one video tag: the tag header, the payload, and the tag's size.
    /// The size field keeps the low 24 bits of the payload's length.
    pub fn write_video_bytes(&mut self, timestamp: u32, video_bytes: &[u8]) -> (r: Result<
        (),
        WriteError,
    >)
        requires
            old(self).sink().well_formed(),
        ensures
            final(self).sink().well_formed(),
            final(self).sink().can_fail() == old(self).sink().can_fail(),
            match r {
                Ok(()) => final(self).sink().written() == old(self).sink().written() + video_tag(
                    timestamp,
                    video_bytes@,
                ),
                Err(_) => old(self).sink().can_fail(),
            },
            15 + video_bytes@.len() <= old(self).sink().spare() ==> {
                &&& r is Ok
                &&& final(self).sink().spare() == old(self).sink().spare() - 15
                    - video_bytes@.len()
            },
    {
        let len: usize = video_bytes.len();
        let header: [u8; 11] = [
            9,
            ((len / 0x1_0000) % 256) as u8,
            ((len / 0x100) % 256) as u8,
            (len % 256) as u8,
            ((timestamp / 0x1_0000) % 256) as u8,
            ((timestamp / 0x100) % 256) as u8,
            (timestamp % 256) as u8,
            (timestamp / 0x100_0000) as u8,
            0,
            0,
            0,
        ];
        assert(header@ == video_tag_header(timestamp, len as int));
        let tag_size: u128 = len as u128 + 11;
        let trailer: [u8; 4] = [
            ((tag_size / 0x100_0000) % 256) as u8,
            ((tag_size / 0x1_0000) % 256) as u8,
            ((tag_size / 0x100) % 256) as u8,
            (tag_size % 256) as u8,
        ];
        assert(trailer@ == u32_be(11 + len as int));
        match self.write_all(header.as_slice()) {
            Ok(()) => {},
            Err(e) => {
                return Err(e);
            },
        }
        match self.write_all(video_bytes) {
            Ok(()) => {},
            Err(e) => {
                return Err(e);
            },
        }
        self.write_all(trailer.as_slice())
    }

    /// Flushes the sink: where it succeeds, the sink has passed on all that
    /// it held back, and what was written is as before.
    pub fn flush_inner(&mut self) -> (r: Result<(), WriteError>)
        requires
            old(self).sink().well_formed(),
        ensures
            final(self).sink().well_formed(),
            final(self).sink().can_fail() == old(self).sink().can_fail(),
            match r {
                Ok(()) => {
                    &&& final(self).sink().written() == old(self).sink().written()
                    &&& final(self).sink().held() == Seq::<u8>::empty()
                },
                Err(_) => old(self).sink().can_fail(),
            },
            final(self).sink().held().is_suffix_of(final(self).sink().written()),
    {
        self.inner.flush()
    }

    /// Gives the sink back.
    pub fn into_inner(self) -> (r: W)
        ensures
            r == self.sink(),
    {
        self.inner
    }
}


/// Cuts the bytes written into it into chunks of `CHUNK_SIZE` bytes and
/// sends each full chunk down a bounded queue.
pub struct BufferedSenderWriter {
    sender: SyncSender<Chunk>,
    buffer: Chunk,
    sent: Ghost<Seq<Seq<u8>>>,
}

impl BufferedSenderWriter {
    /// The chunks that the queue took, oldest first.
    pub closed spec fn dispatched(&self) -> Seq<Seq<u8>> {
        self.sent@
    }

    /// The bytes accepted and not yet sent.
    pub closed spec fn buffered(&self) -> Seq<u8> {
        chunk_bytes(self.buffer)
    }

    /// A writer on the sending end of a queue, with nothing sent or held.
    pub fn new(sender: SyncSender<Chunk>) -> (r: Self)
        ensures
            r.well_formed(),
            r.dispatched() == Seq::<Seq<u8>>::empty(),
            r.buffered() == Seq::<u8>::empty(),
            r.written() == Seq::<u8>::empty(),
    {
        let buffer = chunk_new();
        let r = Self { sender, buffer, sent: Ghost(Seq::empty()) };
        assert(concat(Seq::<Seq<u8>>::empty()) + Seq::<u8>::empty() == Seq::<u8>::empty());
        r
    }

    /// Sends what is held, whatever its length, and holds nothing after.
    fn dispatch(&mut self) -> (delivered: bool)
        ensures
            final(self).buffered() == Seq::<u8>::empty(),
            delivered ==> final(self).dispatched() == old(self).dispatched().push(
                old(self).buffered(),
            ),
            !delivered ==> final(self).dispatched() == old(self).dispatched(),
    {
        let mut chunk = chunk_new();
        std::mem::swap(&mut self.buffer, &mut chunk);
        let delivered = send_chunk(&self.sender, chunk);
        if delivered {
            proof {
                self.sent@ = self.sent@.push(chunk_bytes(chunk));
            }
        }
        delivered
    }
}

/// The chunking law: what the queue took, chunk after chunk, is the start of
/// what was written, and what is missing at the end is less than one chunk,
/// the bytes still held. (A flush that succeeds sends these too, so that the
/// chunks then make up all that was written.)
pub proof fn lemma_dispatched_starts_written(writer: BufferedSenderWriter)
    requires
        writer.well_formed(),
    ensures
        concat(writer.dispatched()).is_prefix_of(writer.written()),
        writer.written() == concat(writer.dispatched()) + writer.buffered(),
        writer.written().len() - concat(writer.dispatched()).len() < CHUNK_SIZE,
{
    assert(writer.written().subrange(0, concat(writer.dispatched()).len() as int) =~= concat(
        writer.dispatched(),
    ));
}

/// What stands at the end of a sequence is a suffix of it.
proof fn lemma_end_is_suffix(front: Seq<u8>, end: Seq<u8>)
    ensures
        end.is_suffix_of(front + end),
{
    assert((front + end).subrange((front + end).len() - end.len(), (front + end).len() as int)
        =~= end);
}

impl ByteSink for BufferedSenderWriter {
    /// What the queue took, then what is held.
    open spec fn written(&self) -> Seq<u8> {
        concat(self.dispatched()) + self.buffered()
    }

    /// Between calls there is room for at least one more byte.
    open spec fn well_formed(&self) -> bool {
        self.buffered().len() < CHUNK_SIZE
    }

    open spec fn can_fail(&self) -> bool {
        true
    }

    /// What the chunk in the making can take and still not be full.
    open spec fn spare(&self) -> nat {
        (CHUNK_SIZE - 1 - self.buffered().len()) as nat
    }

    /// The chunk in the making.
    open spec fn held(&self) -> Seq<u8> {
        self.buffered()
    }

    /// Takes as much of `buf` as the chunk in the making has room for, and
    /// sends the chunk once it is full. Where the queue's receiving end is
    /// gone the full chunk is lost and the error is `BrokenPipe`.
    fn write(&mut self, buf: &[u8]) -> (r: Result<usize, WriteError>)
        ensures
            match r {
                Ok(n) => {
                    &&& n == if buf@.len() <= CHUNK_SIZE - old(self).buffered().len() {
                        buf@.len() as int
                    } else {
                        CHUNK_SIZE - old(self).buffered().len()
                    }
                    &&& if old(self).buffered().len() + n == CHUNK_SIZE {
                        &&& final(self).dispatched() == old(self).dispatched().push(
                            old(self).buffered() + buf@.take(n as int),
                        )
                        &&& final(self).buffered() == Seq::<u8>::empty()
                    } else {
                        &&& final(self).dispatched() == old(self).dispatched()
                        &&& final(self).buffered() == old(self).buffered() + buf@.take(n as int)
                    }
                },
                Err(e) => {
                    &&& e == WriteError::BrokenPipe
                    &&& old(self).buffered().len() + buf@.len() >= CHUNK_SIZE
                    &&& final(self).dispatched() == old(self).dispatched()
                    &&& final(self).buffered() == Seq::<u8>::empty()
                },
            },
    {
        let room = chunk_remaining_capacity(&self.buffer);
        let could_add = if buf.len() > room {
            slice_subrange(buf, 0, room)
        } else {
            buf
        };
        assert(could_add@ == buf@.take(could_add@.len() as int));
        let fits = chunk_try_extend_from_slice(&mut self.buffer, could_add);
        assert(fits);
        if chunk_remaining_capacity(&self.buffer) == 0 {
            let ghost full = self.buffered();
            if !self.dispatch() {
                proof {
                    lemma_end_is_suffix(concat(self.dispatched()), self.buffered());
                }
                return Err(WriteError::BrokenPipe);
            }
            proof {
                lemma_concat_push(old(self).dispatched(), full);
                assert(concat(old(self).dispatched()) + (old(self).buffered() + could_add@) == (
                concat(old(self).dispatched()) + old(self).buffered()) + could_add@);
                assert(concat(self.dispatched()) + Seq::<u8>::empty() == concat(
                    self.dispatched(),
                ));
            }
        } else {
            assert(concat(old(self).dispatched()) + (old(self).buffered() + could_add@) == (concat(
                old(self).dispatched(),
            ) + old(self).buffered()) + could_add@);
        }
        proof {
            lemma_end_is_suffix(concat(self.dispatched()), self.buffered());
        }
        Ok(could_add.len())
    }

    /// Sends what is held, even a chunk that is not full or is empty. Where
    /// the queue's receiving end is gone that chunk is lost and the error is
    /// `BrokenPipe`.
    fn flush(&mut self) -> (r: Result<(), WriteError>)
        ensures
            final(self).buffered() == Seq::<u8>::empty(),
            match r {
                Ok(()) => final(self).dispatched() == old(self).dispatched().push(
                    old(self).buffered(),
                ) && concat(final(self).dispatched()) == old(self).written(),
                Err(e) => {
                    &&& e == WriteError::BrokenPipe
                    &&& final(self).dispatched() == old(self).dispatched()
                },
            },
    {
        let delivered = self.dispatch();
        proof {
            lemma_end_is_suffix(concat(self.dispatched()), self.buffered());
        }
        if delivered {
            proof {
                lemma_concat_push(old(self).dispatched(), old(self).buffered());
                assert(concat(self.dispatched()) + Seq::<u8>::empty() == concat(
                    self.dispatched(),
                ));
            }
            Ok(())
        } else {
            Err(WriteError::BrokenPipe)
        }
    }
}

} // verus!
