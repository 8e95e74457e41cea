//! Renders a sequence of value fragments (text runs and integers, with
//! padding and a Display/Debug mode each) into a bounded byte buffer,
//! producing the text of a fatal diagnostic message.
//!
//! The renderer escapes Debug-mode content byte by byte, truncates
//! deterministically without ever splitting a multi-byte escape sequence,
//! and retries the fill over an ascending ladder of fixed capacity tiers,
//! accepting truncation only at the final ceiling.

pub mod concat_panic_;
pub mod debug_str_fmt;
pub mod fmt;
pub mod laws;
pub mod panic_val;
pub mod utils;

pub use concat_panic_::{concat_panic, format_panic_message, NotEnoughSpace};
pub use fmt::{FmtArg, IsDisplay};
pub use panic_val::{IntVal, PanicVal, PanicVariant};
pub use utils::{Sign, WasTruncated};
