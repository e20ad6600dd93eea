//! Display-only bidirectional correction for terminal agents: logical input
//! encoding, protocol replies, visual row reordering and host serialization.
pub mod bytes;
pub mod input;
pub mod encodings;
pub mod text;
pub mod hyperlink;
pub mod protocol;
pub mod display;
pub mod pretty;
pub mod session;
