//! Receiver core for a multicast audio/video stream sent by a
//! retro-computer peripheral: fixed-layout packet parsing, video frame
//! reassembly, audio sequence-loss handling, a bounded jitter buffer,
//! and palette-based pixel decoding.
//!
//! Network sockets, the window, and the audio device live outside this
//! crate; the functions here take and return plain values only.

pub mod args;
pub mod audio;
pub mod constants;
pub mod protocol;
pub mod render;
pub mod ringbuffer;
pub mod video;

pub use args::ArgsError;
pub use audio::AudioDecoder;
pub use constants::{colors_to_u32, COLORS, HEIGHT, WIDTH};
pub use protocol::{AudioStream, StreamError, VideoStream};
pub use render::{decode_frame, palette_from_rgb, Window};
pub use ringbuffer::RingBuffer;
pub use video::FrameAssembler;
