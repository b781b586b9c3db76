//! Host side of a framed request/response protocol spoken with a crypto
//! coprocessor over a serial link: the wire format, the request encoders, the
//! streaming frame decoder, the response dispatcher and the reader supervisor.

pub mod buf;
pub mod dispatch;
pub mod encoder;
pub mod errors;
pub mod format;
pub mod framer;
pub mod logger;
pub mod request;
pub mod supervisor;
pub mod text;

pub use errors::{mk_err, mk_err_str};
