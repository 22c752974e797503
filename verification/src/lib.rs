//! ZMODEM file transfer for a terminal: wire headers, start detection in an
//! ordinary PTY stream, transfer sessions, the transfer worker's decisions,
//! and the routing of PTY bytes between the screen and a transfer.

pub mod app_menus;
mod bytes;
pub mod clock;
pub mod event_loop;
pub mod link;
pub mod peer_headers;
pub mod protocol;
pub mod pty_writing;
pub mod status;
pub mod storage;
pub mod target_picker;
pub mod text;
pub mod transfer_handle;
pub mod trigger_state;
pub mod warpify_page;
pub mod wire;
pub mod zmodem;
pub mod zmodem_cross_transfer;
pub mod zmodem_detector;
pub mod zmodem_router;
pub mod zmodem_runtime;
pub mod zmodem_settings;
pub mod zmodem_transfer;
pub mod zmodem_worker;
