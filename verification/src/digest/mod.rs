pub mod sha1;
pub mod sha2;
