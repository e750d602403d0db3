pub mod error;
pub mod uri;
pub mod uri_roundtrip;
pub mod name_addr;
pub mod headers;
pub mod parser;
pub mod builder;
