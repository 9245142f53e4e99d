//! Database schema migrations: their identity and the decisions they make.
pub mod v001_initial_schema;
pub mod v002_add_upstream_id;
pub mod v002_service_discovery;
