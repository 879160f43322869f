//! A particle orbit demo: the integer logic behind its per-frame loop.
//! Circle outlines, their placement on the pixel grid, the rolling
//! frame-rate window, initial placement and the loop's quit handling are
//! verified here; the floating-point physics and the rendering live in the
//! program around the library.

pub mod circle;
pub mod fps;
pub mod frame;
pub mod pixels;
pub mod spawn;

pub use circle::get_circle;
pub use fps::{FrameWindow, NANOS_PER_SECOND, WINDOW_CAPACITY};
pub use frame::{drain_events, next_state, InputEvent, LoopState};
pub use pixels::{translate_outline, Anchor};
pub use spawn::{spawn_position, start_position, SCREEN_HEIGHT, SCREEN_WIDTH};
