use anonynews_rs::chunk::Chunk;
use anonynews_rs::chunk::CHUNK_SIZE;
use anonynews_rs::custom_ffmpeg_io::place_chunk;
use anonynews_rs::custom_ffmpeg_io::CustomFFMpegRead;
use anonynews_rs::custom_ffmpeg_io::MPSCReader;
use anonynews_rs::custom_ffmpeg_io::ReadError;
use anonynews_rs::flv_file::BufferedSenderWriter;
use anonynews_rs::flv_file::ByteSink;
use std::sync::mpsc::sync_channel;

fn chunk_of(bytes: &[u8]) -> Chunk {
    let mut chunk = Chunk::new();
    chunk.try_extend_from_slice(bytes).unwrap();
    chunk
}

fn ramp(len: usize, from: u8) -> Vec<u8> {
    (0..len).map(|i| from.wrapping_add(i as u8)).collect()
}

#[test]
fn place_chunk_overwrites_only_its_range() {
    let mut buf = vec![0u8; 8];
    place_chunk(&mut buf, 3, &[7, 8, 9]);
    assert_eq!(buf, vec![0, 0, 0, 7, 8, 9, 0, 0]);
    place_chunk(&mut buf, 8, &[]);
    place_chunk(&mut buf, 0, &[1]);
    assert_eq!(buf, vec![1, 0, 0, 7, 8, 9, 0, 0]);
}

#[test]
fn read_refuses_a_buffer_of_one_chunk_or_less() {
    let (tx, rx) = sync_channel::<Chunk>(4);
    tx.send(chunk_of(&[1, 2, 3])).unwrap();
    let mut reader = MPSCReader::new(rx);
    let mut small = vec![0xEEu8; CHUNK_SIZE];
    assert_eq!(reader.read(&mut small), Err(ReadError::BufferTooSmall));
    assert_eq!(small, vec![0xEEu8; CHUNK_SIZE]);
    let mut tiny = vec![0u8; 10];
    assert_eq!(reader.read(&mut tiny), Err(ReadError::BufferTooSmall));
    let mut none: Vec<u8> = Vec::new();
    assert_eq!(reader.read(&mut none), Err(ReadError::BufferTooSmall));
    let mut enough = vec![0u8; CHUNK_SIZE + 1];
    assert_eq!(reader.read(&mut enough), Ok(3));
    assert_eq!(&enough[..3], &[1, 2, 3]);
}

#[test]
fn read_reports_the_end_once_every_sender_is_gone() {
    let (tx, rx) = sync_channel::<Chunk>(4);
    drop(tx);
    let mut reader = MPSCReader::new(rx);
    let mut buf = vec![0x11u8; 4096];
    assert_eq!(reader.read(&mut buf), Err(ReadError::Eof));
    assert_eq!(buf, vec![0x11u8; 4096]);
}

#[test]
fn read_takes_every_chunk_that_is_ready() {
    let (tx, rx) = sync_channel::<Chunk>(4);
    let first = ramp(CHUNK_SIZE, 0);
    let second = ramp(CHUNK_SIZE, 100);
    tx.send(chunk_of(&first)).unwrap();
    tx.send(chunk_of(&second)).unwrap();
    let mut reader = MPSCReader::new(rx);
    let mut buf = vec![0xEEu8; 4 * CHUNK_SIZE];
    assert_eq!(reader.read(&mut buf), Ok(2048));
    assert_eq!(&buf[..CHUNK_SIZE], &first[..]);
    assert_eq!(&buf[CHUNK_SIZE..2 * CHUNK_SIZE], &second[..]);
    assert!(buf[2 * CHUNK_SIZE..].iter().all(|b| *b == 0xEE));
}

#[test]
fn read_fills_no_more_slots_than_fit() {
    let (tx, rx) = sync_channel::<Chunk>(8);
    for i in 0..5u8 {
        tx.send(chunk_of(&ramp(CHUNK_SIZE, i))).unwrap();
    }
    drop(tx);
    let mut reader = MPSCReader::new(rx);
    let mut buf = vec![0u8; 2 * CHUNK_SIZE + 500];
    assert_eq!(reader.read(&mut buf), Ok(2048));
    assert_eq!(&buf[..CHUNK_SIZE], &ramp(CHUNK_SIZE, 0)[..]);
    assert_eq!(&buf[CHUNK_SIZE..2 * CHUNK_SIZE], &ramp(CHUNK_SIZE, 1)[..]);
    assert_eq!(reader.read(&mut buf), Ok(2048));
    assert_eq!(&buf[..CHUNK_SIZE], &ramp(CHUNK_SIZE, 2)[..]);
    assert_eq!(reader.read(&mut buf), Ok(1024));
    assert_eq!(&buf[..CHUNK_SIZE], &ramp(CHUNK_SIZE, 4)[..]);
    assert_eq!(reader.read(&mut buf), Err(ReadError::Eof));
}

#[test]
fn read_puts_each_chunk_at_the_start_of_its_slot() {
    let (tx, rx) = sync_channel::<Chunk>(4);
    tx.send(chunk_of(&[1, 2, 3, 4, 5])).unwrap();
    tx.send(chunk_of(&ramp(CHUNK_SIZE, 9))).unwrap();
    tx.send(chunk_of(&[])).unwrap();
    let mut reader = MPSCReader::new(rx);
    let mut buf = vec![0xEEu8; 3 * CHUNK_SIZE];
    assert_eq!(reader.read(&mut buf), Ok(5 + 1024));
    assert_eq!(&buf[..5], &[1, 2, 3, 4, 5]);
    assert!(buf[5..CHUNK_SIZE].iter().all(|b| *b == 0xEE));
    assert_eq!(&buf[CHUNK_SIZE..2 * CHUNK_SIZE], &ramp(CHUNK_SIZE, 9)[..]);
    assert!(buf[2 * CHUNK_SIZE..].iter().all(|b| *b == 0xEE));
}

#[test]
fn read_with_one_ready_chunk_and_room_for_two_returns_that_chunk() {
    let (tx, rx) = sync_channel::<Chunk>(4);
    tx.send(chunk_of(&ramp(CHUNK_SIZE, 42))).unwrap();
    let mut reader = MPSCReader::new(rx);
    let mut buf = vec![0u8; 2 * CHUNK_SIZE];
    assert_eq!(reader.read(&mut buf), Ok(1024));
    assert_eq!(&buf[..CHUNK_SIZE], &ramp(CHUNK_SIZE, 42)[..]);
    drop(tx);
}

#[test]
fn what_the_writer_sends_the_reader_reads() {
    let (tx, rx) = sync_channel::<Chunk>(8);
    let mut writer = BufferedSenderWriter::new(tx);
    let data = ramp(3 * CHUNK_SIZE, 17);
    let mut at = 0;
    while at < data.len() {
        at += writer.write(&data[at..]).unwrap();
    }
    let mut reader = MPSCReader::new(rx);
    let mut buf = vec![0u8; 8 * CHUNK_SIZE];
    assert_eq!(reader.read(&mut buf), Ok(3 * 1024));
    assert_eq!(&buf[..3 * CHUNK_SIZE], &data[..]);
}

#[test]
fn dropping_the_writer_ends_the_reader_after_what_was_sent() {
    let (tx, rx) = sync_channel::<Chunk>(4);
    let mut writer = BufferedSenderWriter::new(tx);
    let data = ramp(2 * CHUNK_SIZE + 300, 3);
    let mut at = 0;
    while at < data.len() {
        at += writer.write(&data[at..]).unwrap();
    }
    drop(writer);
    let mut reader = MPSCReader::new(rx);
    let mut buf = vec![0u8; 4 * CHUNK_SIZE];
    assert_eq!(reader.read(&mut buf), Ok(2048));
    assert_eq!(&buf[..2 * CHUNK_SIZE], &data[..2 * CHUNK_SIZE]);
    assert_eq!(reader.read(&mut buf), Err(ReadError::Eof));
}
