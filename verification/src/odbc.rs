//! The executor and the encoders behind the boundary.

pub mod batch;
pub mod exec;
pub mod msgpack;
pub mod number;
pub mod record;
pub mod text;
pub mod util;
pub mod value;
