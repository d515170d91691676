//! Shared string views: cheap, validated windows into one immutable buffer.
//!
//! An [`RcStr`] is made once from a text, which it keeps in a shared buffer,
//! and then sliced as often as needed: every view that is derived from it
//! shares that buffer and copies nothing. A view is derived from a piece of
//! text only if the piece really lies in the buffer, so no view can show
//! bytes from elsewhere.
//!
//! - [`shared`] holds the view and what it offers.
//! - [`span`] finds an address in a range of addresses.
//! - [`whitespace`] says what trimming removes.
//! - [`encoding`] relates the character boundaries of a window to those of
//!   its buffer.
//! - [`laws`] states what holds of every view.
pub mod encoding;
pub mod laws;
pub mod shared;
pub mod span;
pub mod whitespace;

pub use shared::RcStr;
