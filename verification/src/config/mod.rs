//! Gateway configuration: the data model, connection pool settings,
//! file-format handling and schema migrations.
pub mod env_config;
pub mod file_loader;
pub mod migrations;
pub mod pool_config;
pub mod types;

pub use env_config::EnvConfig;
