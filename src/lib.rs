pub mod protocol;
pub mod parser;
pub mod writer;
pub mod codec;
pub mod sdp;
pub mod laws;
