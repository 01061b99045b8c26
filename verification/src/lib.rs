//! An object store with a flat namespace: the storage engine, the object
//! caches, the shared page region and the protocol decisions of its server and
//! client, each with a proved contract.
pub mod access_log;
pub mod benchmark_laws;
pub mod bitmap;
pub mod bytes;
pub mod cache;
pub mod cache_laws;
pub mod cache_model;
pub mod client;
pub mod client_texts;
pub mod clock;
pub mod coherence;
pub mod config;
pub mod dispatch;
pub mod error;
pub mod exchange;
pub mod form_laws;
pub mod forms;
pub mod http;
pub mod http_laws;
pub mod ids;
pub mod image;
pub mod ipc;
pub mod layout_laws;
pub mod metadata;
pub mod page_laws;
pub mod pages;
pub mod policies;
pub mod rates;
pub mod request_laws;
pub mod screen_laws;
pub mod search;
pub mod search_laws;
pub mod server;
pub mod service;
pub mod service_laws;
pub mod shm;
pub mod shown_laws;
pub mod sizes;
pub mod storage;
pub mod storage_laws;
pub mod storage_layout;
pub mod storage_promises;
pub mod storage_runs;
pub mod superblock;
pub mod text;
pub mod transfer;
pub mod trial_laws;
pub mod trials;
pub mod view_laws;
pub mod web;
pub mod web_laws;
pub mod web_search;
pub mod web_trials;
pub mod word_laws;
pub mod words;
pub mod workload;
