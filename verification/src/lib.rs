pub mod text;
pub mod keyed;
pub mod protocol;
pub mod codec;
pub mod observe;
pub mod handshake;
pub mod session;
pub mod measure;
pub mod paths;
pub mod store;
pub mod client;
pub mod mining;
pub mod scoring;
pub mod console;
