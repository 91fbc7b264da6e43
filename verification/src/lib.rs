//! Client-side terminal surface state for nmux: the cached pane surfaces a
//! client keeps between attaches, the patches that update them, their
//! rendering to plain or SGR-styled text, and the text format in which the
//! cache is persisted.

pub mod kinds;
pub mod text;
pub mod surface;
pub mod render;
pub mod protocol;
pub mod client_state;
pub mod state_file;
pub mod state_round_trip;
pub mod state_validity;
pub mod cache_laws;
pub mod error_text;
pub mod attach_request;
pub mod surface_frame;
pub mod input_frame;
pub mod scrollback_frame;
