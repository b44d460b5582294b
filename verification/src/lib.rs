pub mod auth;
pub mod cookies;
pub mod download;
pub mod endpoints;
pub mod error;
pub mod frames;
pub mod generate;
pub mod images;
pub mod json;
pub mod request;
pub mod rotate;
pub mod text;

pub use error::GeminiError;
