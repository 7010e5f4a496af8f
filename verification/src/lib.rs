pub mod error;
pub mod model;
pub mod text;
pub mod xml;
pub mod archive;
pub mod unicode;
pub mod digest;
pub mod warnings;
pub mod manifest;
pub mod axml;
pub mod manifest_reader;
pub mod paths;
pub mod resources;
pub mod channel;
pub mod order;
pub mod icons;
pub mod signing;
pub mod parser;
pub mod render;
pub mod cli;
pub mod collect;
pub mod doctor;
pub mod datauri;
pub mod laws;
