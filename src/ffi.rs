pub mod buffer;
pub mod call;
pub mod default;
pub mod foreignbytes;
