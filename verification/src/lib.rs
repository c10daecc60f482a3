//! Verified core logic of the LogOS kernel and its user-space services.

pub mod storage_pool;
pub mod acpi;
pub mod aml;
pub mod boot_resources;
pub mod render_abi;
pub mod display;
pub mod capabilities;
pub mod audit;
pub mod device;
pub mod commands;
pub mod session;
pub mod terminal;
pub mod codec;
pub mod namespace;
pub mod namespace_snapshot;
pub mod namespace_transaction;
pub mod storage_api;
pub mod file_write;
pub mod package_catalog;
pub mod install_policy;
pub mod user;
pub mod completion;
pub mod editor_model;
pub mod line_editor;
pub mod session_service;
pub mod terminal_model;
pub mod terminal_state;
pub mod input_abi;
pub mod user_abi;
pub mod user_catalog;
pub mod user_service;
pub mod catalog_laws;
pub mod user_snapshot;
pub mod shell;
pub mod debug_log;
pub mod address_space;
pub mod user_gate;
