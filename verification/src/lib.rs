pub mod buffer;
pub mod error;
pub mod header;
pub mod name;
pub mod question;
pub mod message;
pub mod record;
