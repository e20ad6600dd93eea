//! The decisions of a session: what host input becomes, how the child is
//! sized, how native console input is decoded, and when the loop renders,
//! captures the mouse and ends. The session loop itself performs the I/O.
pub mod command;
pub mod console;
pub mod engine;
pub mod host;
pub mod interaction;
pub mod keys;
pub mod mouse;
pub mod params;
