//! Flow documents (YGTC) as plain values: loading rules, the typed flow IR,
//! step insertion and removal, routing rewiring, and the small text helpers
//! they rest on, each with its contract proved by Verus.
pub mod json;
pub mod json_text;
pub mod text;
pub mod error;
pub mod assoc;
pub mod route;
pub mod model;
pub mod flow_ir;
pub mod splice;
pub mod add_step;
pub mod util;
pub mod component_catalog;
pub mod i18n;
pub mod ir;
pub mod registry;
pub mod lint;
pub mod schema_mode;
pub mod answers;
pub mod bundle;
pub mod wizard_ops;
pub mod flow_meta;
pub mod loader;
pub mod config_flow;
pub mod step_edit;
pub mod refs;
pub mod resolve;
pub mod questions;
pub mod questions_schema;
pub mod template;
pub mod schema_validate;
pub mod contracts;
pub mod fixtures;
pub mod component_config;
pub mod sidecar;
