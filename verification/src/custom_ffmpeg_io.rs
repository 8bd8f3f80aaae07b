//! The reading end of the chunk queue, as a pull-based decoder wants it: a
//! `read` into a buffer that the decoder owns.

use crate::chunk::chunk_as_slice;
use crate::chunk::concat;
use crate::chunk::lemma_concat_push;
use crate::chunk::recv_chunk;
use crate::chunk::try_recv_chunk;
use crate::chunk::Chunk;
use crate::chunk::CHUNK_SIZE;
use crate::flv_file::WriteError;
use std::sync::mpsc::Receiver;
use vstd::prelude::*;

verus! {

/// Why a read gave no bytes.
#[derive(Debug, Clone, Copy, PartialEq, Eq, Structural)]
pub enum ReadError {
    /// The buffer offered has no room for more than one chunk.
    BufferTooSmall,
    /// The stream has ended: no chunk is left and none will come.
    Eof,
}

/// Something that a decoder can pull bytes from.
pub trait CustomFFMpegRead {
    /// Reads into `buf` and says how many bytes were read.
    fn read(&mut self, buf: &mut [u8]) -> (r: Result<u32, ReadError>)
        ensures
            final(buf)@.len() == old(buf)@.len(),
            match r {
                Ok(n) => n <= old(buf)@.len(),
                Err(_) => final(buf)@ == old(buf)@,
            },
    ;
}

/// Something that an encoder can push bytes into.
pub trait CustomFFMpegWrite {
    /// Writes from `buf` and says how many bytes were written.
    fn write(&mut self, buf: &[u8]) -> (r: Result<u32, WriteError>);
}

/// `buf` with `bytes` written over it from position `at` on.
pub open spec fn overwrite(buf: Seq<u8>, at: int, bytes: Seq<u8>) -> Seq<u8> {
    Seq::new(
        buf.len(),
        |i: int|
            if at <= i < at + bytes.len() {
                bytes[i - at]
            } else {
                buf[i]
            },
    )
}

/// `buf` after each chunk was written over the start of its own slot: the
/// chunk of index `k` from position `k * CHUNK_SIZE` on.
pub open spec fn place_chunks(buf: Seq<u8>, chunks: Seq<Seq<u8>>) -> Seq<u8>
    decreases chunks.len(),
{
    if chunks.len() == 0 {
        buf
    } else {
        overwrite(
            place_chunks(buf, chunks.drop_last()),
            (chunks.len() - 1) * CHUNK_SIZE,
            chunks.last(),
        )
    }
}

/// Full chunks lie in the buffer without gaps: where each chunk has exactly
/// `CHUNK_SIZE` bytes and the buffer has a slot for each, the buffer begins
/// with the bytes of the chunks, one chunk after another.
pub proof fn lemma_full_chunks_are_contiguous(buf: Seq<u8>, chunks: Seq<Seq<u8>>)
    requires
        chunks.len() * CHUNK_SIZE <= buf.len(),
        forall|k: int| 0 <= k < chunks.len() ==> (#[trigger] chunks[k]).len() == CHUNK_SIZE,
    ensures
        place_chunks(buf, chunks).len() == buf.len(),
        concat(chunks).len() == chunks.len() * CHUNK_SIZE,
        place_chunks(buf, chunks).take(chunks.len() * CHUNK_SIZE) == concat(chunks),
        place_chunks(buf, chunks).skip(chunks.len() * CHUNK_SIZE) == buf.skip(
            chunks.len() * CHUNK_SIZE,
        ),
    decreases chunks.len(),
{
    if chunks.len() == 0 {
        assert(place_chunks(buf, chunks).take(0) =~= concat(chunks));
        assert(place_chunks(buf, chunks).skip(0) =~= buf.skip(0));
    } else {
        let front = chunks.drop_last();
        lemma_full_chunks_are_contiguous(buf, front);
        let placed = place_chunks(buf, front);
        let at = front.len() * CHUNK_SIZE;
        assert(place_chunks(buf, chunks) == overwrite(placed, at, chunks.last()));
        assert(place_chunks(buf, chunks).take(at + CHUNK_SIZE) =~= placed.take(at)
            + chunks.last());
        let whole = place_chunks(buf, chunks);
        assert forall|i: int| at + CHUNK_SIZE <= i < buf.len() implies #[trigger] whole[i]
            == buf[i] by {
            assert(whole[i] == placed[i]);
            assert(placed.skip(at)[i - at] == buf.skip(at)[i - at]);
        }
        assert(whole.skip(at + CHUNK_SIZE) =~= buf.skip(at + CHUNK_SIZE));
        assert(concat(chunks) == concat(front) + chunks.last());
    }
}

/// Writes `bytes` over `buf` from position `at` on.
pub fn place_chunk(buf: &mut [u8], at: usize, bytes: &[u8])
    requires
        at + bytes@.len() <= old(buf)@.len(),
    ensures
        final(buf)@ == overwrite(old(buf)@, at as int, bytes@),
{
    let mut i: usize = 0;
    let room: usize = buf.len();
    while i < bytes.len()
        invariant
            i <= bytes@.len(),
            at + bytes@.len() <= buf@.len(),
            buf@.len() == room,
            buf@ == overwrite(old(buf)@, at as int, bytes@.take(i as int)),
        decreases bytes@.len() - i,
    {
        buf[at + i] = bytes[i];
        i = i + 1;
        assert(buf@ =~= overwrite(old(buf)@, at as int, bytes@.take(i as int)));
    }
    assert(bytes@.take(i as int) == bytes@);
}

/// Reads the chunks of a queue into the buffers of a decoder.
pub struct MPSCReader {
    recv: Receiver<Chunk>,
    taken: Ghost<Seq<Seq<u8>>>,
}

impl MPSCReader {
    /// The chunks taken off the queue so far, oldest first.
    pub closed spec fn received(&self) -> Seq<Seq<u8>> {
        self.taken@
    }

    /// A reader on the receiving end of a queue, with nothing taken yet.
    pub fn new(recv: Receiver<Chunk>) -> (r: Self)
        ensures
            r.received() == Seq::<Seq<u8>>::empty(),
    {
        Self { recv, taken: Ghost(Seq::empty()) }
    }
}

impl CustomFFMpegRead for MPSCReader {
    /// Fills the slots of `buf`, each `CHUNK_SIZE` bytes wide, with one chunk
    /// per slot, and returns the number of bytes that the chunks held.
    ///
    /// A buffer of `CHUNK_SIZE` bytes or less is refused. Otherwise the read
    /// waits for the first chunk, and the stream has ended where none comes.
    /// For each slot after the first it takes a chunk only if one is ready,
    /// and stops at the first slot for which none is.
    fn read(&mut self, buf: &mut [u8]) -> (r: Result<u32, ReadError>)
        ensures
            old(self).received().is_prefix_of(final(self).received()),
            ({
                let fresh = final(self).received().skip(old(self).received().len() as int);
                match r {
                    Ok(n) => {
                        &&& old(buf)@.len() > CHUNK_SIZE
                        &&& 1 <= fresh.len() <= old(buf)@.len() / (CHUNK_SIZE as nat)
                        &&& forall|k: int|
                            0 <= k < fresh.len() ==> (#[trigger] fresh[k]).len() <= CHUNK_SIZE
                        &&& final(buf)@ == place_chunks(old(buf)@, fresh)
                        &&& n == concat(fresh).len() % 0x1_0000_0000
                    },
                    Err(e) => {
                        &&& fresh.len() == 0
                        &&& (e == ReadError::BufferTooSmall) == (old(buf)@.len() <= CHUNK_SIZE)
                        &&& (e == ReadError::Eof) == (old(buf)@.len() > CHUNK_SIZE)
                    },
                }
            }),
    {
        if buf.len() <= CHUNK_SIZE {
            assert(self.received().skip(self.received().len() as int).len() == 0);
            return Err(ReadError::BufferTooSmall);
        }
        let room: usize = buf.len();
        let slots: usize = room / CHUNK_SIZE;
        assert(slots * CHUNK_SIZE <= room);
        let mut slot: usize = 0;
        let mut bytes_written: usize = 0;
        let mut more: bool = true;
        let ghost mut fresh: Seq<Seq<u8>> = Seq::empty();
        assert(old(self).received() + fresh == old(self).received());
        while more && slot < slots
            invariant
                slots == room / CHUNK_SIZE,
                room > CHUNK_SIZE,
                slots * CHUNK_SIZE <= room,
                buf@.len() == room,
                room == old(buf)@.len(),
                slot <= slots,
                slot == fresh.len(),
                !more ==> slot >= 1,
                self.received() == old(self).received() + fresh,
                forall|k: int| 0 <= k < fresh.len() ==> (#[trigger] fresh[k]).len() <= CHUNK_SIZE,
                buf@ == place_chunks(old(buf)@, fresh),
                bytes_written == concat(fresh).len(),
                bytes_written <= slot * CHUNK_SIZE,
            decreases slots - slot + if more { 1int } else { 0int },
        {
            let next = if slot == 0 {
                recv_chunk(&self.recv)
            } else {
                try_recv_chunk(&self.recv)
            };
            match next {
                Some(chunk) => {
                    let bytes = chunk_as_slice(&chunk);
                    place_chunk(buf, slot * CHUNK_SIZE, bytes);
                    proof {
                        lemma_concat_push(fresh, bytes@);
                        assert(fresh.push(bytes@).drop_last() == fresh);
                        assert(old(self).received() + fresh.push(bytes@) == (old(self).received()
                            + fresh).push(bytes@));
                        fresh = fresh.push(bytes@);
                        self.taken@ = self.taken@.push(bytes@);
                    }
                    bytes_written = bytes_written + bytes.len();
                    slot = slot + 1;
                },
                None => {
                    if slot == 0 {
                        assert(self.received().skip(old(self).received().len() as int)
                            =~= fresh);
                        return Err(ReadError::Eof);
                    }
                    more = false;
                },
            }
        }
        assert(self.received().skip(old(self).received().len() as int) =~= fresh);
        let low: u64 = (bytes_written as u64) % 0x1_0000_0000;
        Ok(low as u32)
    }
}

} // verus!
