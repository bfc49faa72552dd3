//! Reversible obfuscation of text with a shared key: a byte-wise Vigenère
//! transform wrapped in URL-safe base64, and the rules for turning a file
//! read into a configuration value.
pub mod envelope;
pub mod cipher;
pub mod file_value;
