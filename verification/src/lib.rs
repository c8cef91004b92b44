//! A paste bin and URL shortener: identifiers, paths, request rules and rate limiting.

pub mod id;
pub mod info;
pub mod limiting;
pub mod paste_dog;
pub mod text;
pub mod paste_id;
pub mod paste_info;
pub mod site;
pub mod mpu;
pub mod namedpaste;
