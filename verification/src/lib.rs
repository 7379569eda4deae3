pub mod json;
pub mod json_text;
pub mod text;
pub mod netutil;
pub mod error;
pub mod state;
pub mod provisioning;
pub mod kdl_parser;
pub mod config;
pub mod kdl_loader;
pub mod service;
pub mod keyed;
pub mod prov_config;
pub mod merger;
pub mod sources;
pub mod json_access;
pub mod openstack;
pub mod cloud_init;
pub mod smartos;
pub mod state_manager;
pub mod tasks;
pub mod plugin_support;
pub mod plugin_apply;
pub mod files;
pub mod storage;
pub mod watch;
pub mod software;
pub mod jail;
pub mod containers;
pub mod meta_text;
pub mod gcp;
pub mod ec2;
pub mod digitalocean;
pub mod azure;
pub mod prov_json;
pub mod local;
pub mod revision_store;
