//! Dedicated translation APIs.

pub mod deepl;
pub mod google;
pub mod libretranslate;
