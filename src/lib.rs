//! Reception and playout of audio streamed from a remote device: frame parsing, buffer and
//! timestamp model, the slaved-clock calibration, the synchronizer that schedules buffers
//! against the host clock, the resizer that brings each buffer to the length it must play
//! for, and the bounded queue that the sink pulls from.

pub mod audio;
pub mod clock;
pub mod demux;
pub mod packet;
pub mod pipeline;
pub mod queue;
pub mod resize;
pub mod ring_buffer;
pub mod runnable;
pub mod sample;
pub mod sync;
pub mod util;
