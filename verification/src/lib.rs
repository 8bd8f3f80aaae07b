//! Ingest side of a live video anonymizer: the framing of an elementary video
//! stream into an FLV byte stream, the chunking of that stream over a bounded
//! queue, the reader that hands the chunks to a pull-based decoder, the PPM
//! boundary format of the blur stage, and the reducer loop of an RTMP session.

pub mod chunk;
pub mod connection_manager;
pub mod custom_ffmpeg_io;
pub mod decoding_frames;
pub mod flv_file;
pub mod image_processing;
pub mod rtmp;
