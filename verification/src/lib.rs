//! A real-time collaborative session server core: rooms hold per-participant
//! text buffers, a registry owns the rooms, and a per-connection session
//! dispatcher drives room creation, joining and rendering.

pub mod hexid;
pub mod registry;
pub mod room;
pub mod session;
