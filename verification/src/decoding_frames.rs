//! The session's end of the decoding pipeline: video payloads go in, FLV
//! chunks go out to the decoder thread.

use crate::chunk::Chunk;
use crate::chunk::CHUNK_SIZE;
use crate::flv_file::demux;
use crate::flv_file::flv_header;
use crate::flv_file::lemma_demux_roundtrip;
use crate::flv_file::lemma_video_tags_concat;
use crate::flv_file::video_tags;
use crate::flv_file::flv_stream;
use crate::flv_file::lemma_stream_opens_with_header;
use crate::flv_file::lemma_video_tags_push;
use crate::flv_file::video_tag;
use crate::flv_file::BufferedSenderWriter;
use crate::flv_file::ByteSink;
use crate::flv_file::FLVWriterWrapper;
use crate::flv_file::WriteError;
use std::sync::mpsc::SyncSender;
use vstd::prelude::*;

verus! {

/// Owns the container writer of one connection. The stream bytes put in here
/// travel in chunks to whoever holds the other end of the queue.
pub struct FrameExtractor {
    rtmp_stream_input: FLVWriterWrapper<BufferedSenderWriter>,
    sent: Ghost<Seq<(u32, Seq<u8>)>>,
}

impl FrameExtractor {
    /// Every container byte written so far, header included.
    pub closed spec fn stream(&self) -> Seq<u8> {
        self.rtmp_stream_input.sink().written()
    }

    /// The video payloads taken so far with their timestamps, oldest first.
    pub closed spec fn payloads(&self) -> Seq<(u32, Seq<u8>)> {
        self.sent@
    }

    /// A number of container bytes that the extractor is sure to take
    /// without sending anything: what the chunk in the making can take and
    /// still not be full.
    pub closed spec fn room(&self) -> nat {
        self.rtmp_stream_input.sink().spare()
    }

    /// The writer's invariant, and that the bytes written are the stream of
    /// the payloads taken.
    pub closed spec fn well_formed(&self) -> bool {
        &&& self.rtmp_stream_input.sink().well_formed()
        &&& self.stream() == flv_stream(self.payloads())
    }

    /// An extractor that feeds the given queue. The stream header is written
    /// at once; it waits in the first chunk, which is not full yet.
    pub fn new(sender: SyncSender<Chunk>) -> (r: Self)
        ensures
            r.well_formed(),
            r.payloads() == Seq::<(u32, Seq<u8>)>::empty(),
            r.stream() == flv_header(),
            r.room() == CHUNK_SIZE - 14,
    {
        let writer = BufferedSenderWriter::new(sender);
        let mut rtmp_stream_input = FLVWriterWrapper::new(writer);
        let header_written = rtmp_stream_input.write_header();
        assert(header_written is Ok);
        assert(Seq::<u8>::empty() + flv_header() == flv_header());
        assert(flv_stream(Seq::<(u32, Seq<u8>)>::empty()) == flv_header() + Seq::<u8>::empty());
        assert(flv_header() + Seq::<u8>::empty() == flv_header());
        Self { rtmp_stream_input, sent: Ghost(Seq::empty()) }
    }

    /// Writes one video payload with its timestamp as a tag of the stream.
    /// It fails only where the queue's receiving end is gone; the stream is
    /// then cut short and the extractor is of no more use.
    pub fn send_bytes(&mut self, timestamp: u32, bytes: &[u8]) -> (r: Result<(), WriteError>)
        requires
            old(self).well_formed(),
        ensures
            match r {
                Ok(()) => {
                    &&& final(self).well_formed()
                    &&& final(self).payloads() == old(self).payloads().push((timestamp, bytes@))
                    &&& final(self).stream() == old(self).stream() + video_tag(timestamp, bytes@)
                },
                Err(e) => {
                    &&& e == WriteError::BrokenPipe
                    &&& final(self).payloads() == old(self).payloads()
                },
            },
            15 + bytes@.len() <= old(self).room() ==> {
                &&& r is Ok
                &&& final(self).room() == old(self).room() - 15 - bytes@.len()
            },
    {
        let r = self.rtmp_stream_input.write_video_bytes(timestamp, bytes);
        match r {
            Ok(()) => {
                proof {
                    lemma_video_tags_push(self.sent@, timestamp, bytes@);
                    self.sent@ = self.sent@.push((timestamp, bytes@));
                }
                Ok(())
            },
            Err(_) => Err(WriteError::BrokenPipe),
        }
    }
}

/// However many payloads were taken, the stream of a well-formed extractor
/// opens with the header.
pub proof fn lemma_extractor_stream_opens_with_header(extractor: FrameExtractor)
    requires
        extractor.well_formed(),
    ensures
        extractor.stream().len() >= 13,
        extractor.stream().take(13) == flv_header(),
        extractor.stream() == flv_stream(extractor.payloads()),
{
    lemma_stream_opens_with_header(extractor.payloads());
}

/// Every payload that an extractor takes adds exactly its tag to the stream:
/// between two states of a well-formed extractor the stream grows by the
/// tags of the payloads taken in between, in their order.
pub proof fn lemma_extractor_appends_tags(
    before: FrameExtractor,
    after: FrameExtractor,
    taken: Seq<(u32, Seq<u8>)>,
)
    requires
        before.well_formed(),
        after.well_formed(),
        after.payloads() == before.payloads() + taken,
    ensures
        after.stream() == before.stream() + video_tags(taken),
{
    lemma_video_tags_concat(before.payloads(), taken);
}

/// The stream of a well-formed extractor demuxes back to the payloads taken
/// with their timestamps, as long as each payload's length fits the 24 bits
/// of a tag's size field.
pub proof fn lemma_extractor_stream_demuxes(extractor: FrameExtractor)
    requires
        extractor.well_formed(),
        forall|i: int|
            0 <= i < extractor.payloads().len() ==> (#[trigger] extractor.payloads()[i]).1.len()
                < 0x100_0000,
    ensures
        demux(extractor.stream()) == Some(extractor.payloads()),
{
    lemma_demux_roundtrip(extractor.payloads());
}

} // verus!
