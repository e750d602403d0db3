pub mod types;
pub mod builder;
pub mod parser;
pub mod gb28181;
pub mod roundtrip;
pub mod parsed;
