pub mod aes;
pub mod config;
pub mod field;
pub mod group;
pub mod kzg;
pub mod network;
pub mod polynomial;
