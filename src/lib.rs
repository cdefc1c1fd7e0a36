//! Terminal host and command shell logic for a small operating system: key
//! decoding, command dispatch, the render window and the stream relays.

mod text;

pub mod fields;
pub mod keys;
pub mod render;
pub mod relay;
pub mod theme;
pub mod shell;
