//! SlothForge: the decisions, formats and rules behind a local model server,
//! stated as contracts and proved.

pub mod answer_laws;
pub mod answers;
pub mod browse;
pub mod calendar;
pub mod chat_api;
pub mod chat_forks;
pub mod chat_laws;
pub mod chat_lists;
pub mod chat_ops;
pub mod chat_store;
pub mod cluster;
pub mod cluster_answers;
pub mod cluster_api;
pub mod config_laws;
pub mod dataset;
pub mod dataset_laws;
pub mod decimals;
pub mod deletion;
pub mod download_answers;
pub mod download_jobs;
pub mod download_laws;
pub mod downloads;
pub mod error;
pub mod file_laws;
pub mod ggml;
pub mod gguf;
pub mod gguf_laws;
pub mod gguf_variants;
pub mod gguf_written;
pub mod hf_api;
pub mod hub;
pub mod hub_tree;
pub mod inference;
pub mod inventory;
pub mod json;
pub mod keep_laws;
pub mod list_laws;
pub mod local_files;
pub mod lora;
pub mod memory_laws;
pub mod messages;
pub mod model_answers;
pub mod model_laws;
pub mod model_scan;
pub mod models;
pub mod names;
pub mod node_laws;
pub mod offer_laws;
pub mod order;
pub mod packing_laws;
pub mod paths;
pub mod profile_answers;
pub mod profile_facts;
pub mod profile_laws;
pub mod profile_stats;
pub mod record_laws;
pub mod request_laws;
pub mod run_store;
pub mod sample_laws;
pub mod scan_folders;
pub mod scan_laws;
pub mod security;
pub mod server;
pub mod settings_answers;
pub mod settings_api;
pub mod settings_laws;
pub mod settings_store;
pub mod telemetry;
pub mod text;
pub mod text_laws;
pub mod token_laws;
pub mod tokenizer;
pub mod training;
pub mod training_laws;
pub mod training_session;
