//! Client-side core of a networked real-time example: directional input is
//! accumulated across render frames, sent once per network tick to the pawn
//! that this client controls, and server-echoed commands are replayed on the
//! locally predicted pawn.
pub mod client;
pub mod command;
pub mod store;
