//! A chromatic-aberration effect over in-memory pixel buffers: each colour
//! channel of an image can be displaced by its own vector, the three standard
//! displacements composing into the full effect.

pub mod buffer;
pub mod shift;

pub use buffer::PixelBuffer;
pub use shift::shift_channel;
