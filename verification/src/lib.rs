//! Which input devices belong to which seat, and which login session is active
//! on each seat: the decisions of a service that watches udev and logind.
//!
//! - `devices`: what is read of a udev device, the keyboard and tag tests on it,
//!   the udev query for a seat's keyboards and the list of keyboards found.
//! - `sessions`: logind's sessions, the seats to ask about, and the active marks.
//! - `messages`: the changes reported when devices or sessions come and go.
//! - `poll`: the step of the loop that waits on a udev monitor socket.
//! - `text`: character-level string helpers.
pub mod devices;
pub mod messages;
pub mod poll;
pub mod sessions;
pub mod text;
