pub mod config;
pub mod err;
pub mod json;
pub mod muxer;
pub mod order;
mod outside;
pub mod platforms;
pub mod stream;
pub mod text;
pub mod util;
