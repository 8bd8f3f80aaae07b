//! The fixed-capacity chunks that carry the container bytes from the session
//! thread to the decoder thread, and the queue ends they travel through.
//!
//! The chunk is an `arrayvec::ArrayVec` and the queue a bounded channel of
//! `std::sync::mpsc`. What this module states of them is taken on trust from
//! their sources; everything built on it elsewhere is proved.

use arrayvec::ArrayVec;
use std::sync::mpsc::Receiver;
use std::sync::mpsc::SyncSender;
use vstd::prelude::*;

verus! {

/// How many bytes one chunk holds at most.
pub const CHUNK_SIZE: usize = 1024;

/// How many chunks the queue between the session and the decoder holds
/// before the session has to wait.
pub const BYTES_QUEUE_CAPACITY: usize = 1000;

/// One chunk of container bytes.
pub type Chunk = ArrayVec<u8, CHUNK_SIZE>;

/// `arrayvec::ArrayVec`, a vector of at most `CAP` items stored in place.
#[verifier::external_type_specification]
#[verifier::external_body]
#[verifier::reject_recursive_types(T)]
pub struct ExArrayVec<T, const CAP: usize>(ArrayVec<T, CAP>);

/// `std::sync::mpsc::SyncSender`, the sending end of a bounded queue.
#[verifier::external_type_specification]
#[verifier::external_body]
#[verifier::reject_recursive_types(T)]
pub struct ExSyncSender<T>(SyncSender<T>);

/// `std::sync::mpsc::Receiver`, the receiving end of a queue.
#[verifier::external_type_specification]
#[verifier::external_body]
#[verifier::reject_recursive_types(T)]
pub struct ExReceiver<T>(Receiver<T>);

/// The bytes that a chunk holds, in order.
pub uninterp spec fn chunk_bytes(chunk: ArrayVec<u8, CHUNK_SIZE>) -> Seq<u8>;

/// The bytes of a sequence of chunks, one chunk after another.
pub open spec fn concat(chunks: Seq<Seq<u8>>) -> Seq<u8>
    decreases chunks.len(),
{
    if chunks.len() == 0 {
        Seq::empty()
    } else {
        concat(chunks.drop_last()) + chunks.last()
    }
}

/// Pushing a chunk appends its bytes.
pub proof fn lemma_concat_push(chunks: Seq<Seq<u8>>, chunk: Seq<u8>)
    ensures
        concat(chunks.push(chunk)) == concat(chunks) + chunk,
{
    assert(chunks.push(chunk).drop_last() == chunks);
}

/// `ArrayVec::new`: a chunk that holds nothing.
#[verifier::external_body]
pub(crate) fn chunk_new() -> (chunk: Chunk)
    ensures
        chunk_bytes(chunk) == Seq::<u8>::empty(),
{
    ArrayVec::new()
}

/// `ArrayVec::remaining_capacity`: the capacity less the number of bytes held,
/// so a chunk never holds more than `CHUNK_SIZE` bytes.
#[verifier::external_body]
pub(crate) fn chunk_remaining_capacity(chunk: &Chunk) -> (n: usize)
    ensures
        n + chunk_bytes(*chunk).len() == CHUNK_SIZE,
{
    chunk.remaining_capacity()
}

/// `ArrayVec::try_extend_from_slice`: appends all of `other` where it fits
/// into what is left of the capacity, and otherwise changes nothing and
/// reports a capacity error, which comes back here as `false`.
#[verifier::external_body]
pub(crate) fn chunk_try_extend_from_slice(chunk: &mut Chunk, other: &[u8]) -> (fits: bool)
    ensures
        fits == (chunk_bytes(*old(chunk)).len() + other@.len() <= CHUNK_SIZE),
        fits ==> chunk_bytes(*final(chunk)) == chunk_bytes(*old(chunk)) + other@,
        !fits ==> chunk_bytes(*final(chunk)) == chunk_bytes(*old(chunk)),
{
    chunk.try_extend_from_slice(other).is_ok()
}

/// `ArrayVec::as_slice`: the bytes held, as a slice, which is never longer
/// than the capacity.
#[verifier::external_body]
pub(crate) fn chunk_as_slice(chunk: &Chunk) -> (bytes: &[u8])
    ensures
        bytes@ == chunk_bytes(*chunk),
        bytes@.len() <= CHUNK_SIZE,
{
    chunk.as_slice()
}

/// `SyncSender::send`: waits until the queue has room, then hands the chunk
/// over. The answer is `false` where the receiving end is gone, and the chunk
/// is then lost. Nothing is known of the answer beforehand.
#[verifier::external_body]
pub(crate) fn send_chunk(sender: &SyncSender<Chunk>, chunk: Chunk) -> (delivered: bool) {
    sender.send(chunk).is_ok()
}

/// `Receiver::recv`: waits for the next chunk; `None` once the queue is empty
/// and every sending end is gone.
#[verifier::external_body]
pub(crate) fn recv_chunk(receiver: &Receiver<Chunk>) -> (chunk: Option<Chunk>) {
    receiver.recv().ok()
}

/// `Receiver::try_recv`: the next chunk if one is ready; `None` where the
/// queue is empty at this moment or every sending end is gone.
#[verifier::external_body]
pub(crate) fn try_recv_chunk(receiver: &Receiver<Chunk>) -> (chunk: Option<Chunk>) {
    receiver.try_recv().ok()
}

} // verus!
