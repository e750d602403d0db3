pub mod device_registry;
pub mod registry;
