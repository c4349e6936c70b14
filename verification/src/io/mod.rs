//! Buffered reading, reading to the end or up to a delimiter, and writing
//! a whole buffer.

pub mod buf;
pub mod read_utils;
pub mod traits;
pub mod write_utils;

pub use buf::{AsyncBufferedReader, BufReader};
pub use traits::{AsyncBufRead, AsyncRead, AsyncWrite};
