pub mod batch;
pub mod clock;
pub mod config_section;
pub mod laws;
pub mod locks;
pub mod model;
pub mod store;
pub mod text;
pub mod transfer;
pub mod types;
