pub mod status;
pub mod wire;
pub mod message;
