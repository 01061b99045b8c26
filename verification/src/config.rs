//! The settings of server and client, and the client's commands.
use crate::text::{lowercase, to_lower};
use vstd::prelude::*;
use vstd::string::*;

verus! {

/// The settings.
#[derive(Debug)]
pub struct CliArgs {
    /// Whether to run as the server.
    pub server_mode: bool,
    /// Where the server listens.
    pub socket_path: String,
    /// The name of the shared page region.
    pub shm_name: String,
    /// Bytes of the shared page region.
    pub shm_size: usize,
    /// Bytes of a shared page.
    pub page_size: usize,
    /// The store file.
    pub store_path: String,
    /// Bytes of a block.
    pub block_size: u32,
    pub total_blocks: u64,
    /// How many objects the metadata area is laid out for.
    pub max_objects: u64,
    /// The name of the cache policy.
    pub cache_algorithm: String,
    /// How many objects the cache has room for.
    pub cache_capacity: usize,
    /// Another capacity of the cache; 0 for none.
    pub cache_resize: usize,
    /// How many objects the cache is filled with at the start.
    pub cache_warmup: usize,
    /// The port of the web interface; 0 for none.
    pub metrics_port: u16,
    pub worker_threads: usize,
    pub log_level: String,
    /// The access log; empty for none.
    pub access_log: String,
    /// Whether the server runs in the background.
    pub daemonize: bool,
    /// The file that holds the number of the server's process.
    pub pid_file: String,
    pub command: Option<ClientCommand>,
}

/// A client's command.
#[allow(inconsistent_fields)]
#[derive(Debug)]
pub enum ClientCommand {
    /// Store a file.
    Put { name: String, file: String, content_type: String, tags: String },
    /// Fetch an object.
    Get { key: String, output: Option<String> },
    /// Delete an object.
    Delete { key: String },
    /// List all objects.
    List { long_format: bool },
    /// List the objects that meet the conditions.
    Search {
        name: Option<String>,
        tag: Option<String>,
        content_type: Option<String>,
        after: Option<String>,
        before: Option<String>,
    },
    /// Show the server's figures.
    Status,
    /// Give the cache another capacity.
    CacheResize { capacity: usize },
    /// Give the cache another policy.
    CacheSwitch { algorithm: String },
    /// Try the cache policies.
    CacheBenchmark { iterations: usize, sweep: bool },
    /// Start the server.
    Start { daemon: bool },
    /// Stop the server.
    Stop,
}

/// How much is logged.
#[derive(Debug, Clone, Copy, PartialEq, Eq, Structural)]
pub enum LogLevel {
    Trace,
    Debug,
    Info,
    Warn,
    Error,
}

/// The level that a name in lower case stands for; an unknown name stands for
/// [`LogLevel::Info`].
pub open spec fn level_named(name: Seq<char>) -> LogLevel {
    if name == "trace"@ {
        LogLevel::Trace
    } else if name == "debug"@ {
        LogLevel::Debug
    } else if name == "warn"@ {
        LogLevel::Warn
    } else if name == "error"@ {
        LogLevel::Error
    } else {
        LogLevel::Info
    }
}

impl LogLevel {
    /// The level that a name stands for, in upper or lower case.
    pub fn named(name: &str) -> (r: LogLevel)
        ensures
            r == level_named(lowercase(name@)),
    {
        LogLevel::named_lower(&to_lower(name))
    }

    /// The level that a name in lower case stands for.
    pub fn named_lower(name: &String) -> (r: LogLevel)
        ensures
            r == level_named(name@),
    {
        if *name == "trace".to_owned() {
            LogLevel::Trace
        } else if *name == "debug".to_owned() {
            LogLevel::Debug
        } else if *name == "warn".to_owned() {
            LogLevel::Warn
        } else if *name == "error".to_owned() {
            LogLevel::Error
        } else {
            LogLevel::Info
        }
    }
}

impl Default for CliArgs {
    fn default() -> (r: Self)
        ensures
            !r.server_mode,
            r.socket_path@ == "/tmp/minios.sock"@,
            r.shm_name@ == "/minios_shm"@,
            r.shm_size == 16 * 1024 * 1024,
            r.page_size == 4096,
            r.store_path@ == "./store.odb"@,
            r.block_size == 4096,
            r.total_blocks == 25600,
            r.max_objects == 10000,
            r.cache_algorithm@ == "lru"@,
            r.cache_capacity == 128,
            r.cache_resize == 0,
            r.cache_warmup == 0,
            r.metrics_port == 9090,
            r.worker_threads == 4,
            r.log_level@ == "info"@,
            r.access_log@ == Seq::<char>::empty(),
            !r.daemonize,
            r.pid_file@ == "/tmp/minios.pid"@,
            r.command is None,
    {
        CliArgs {
            server_mode: false,
            socket_path: "/tmp/minios.sock".to_owned(),
            shm_name: "/minios_shm".to_owned(),
            shm_size: 16777216,
            page_size: 4096,
            store_path: "./store.odb".to_owned(),
            block_size: 4096,
            total_blocks: 25600,
            max_objects: 10000,
            cache_algorithm: "lru".to_owned(),
            cache_capacity: 128,
            cache_resize: 0,
            cache_warmup: 0,
            metrics_port: 9090,
            worker_threads: 4,
            log_level: "info".to_owned(),
            access_log: String::new(),
            daemonize: false,
            pid_file: "/tmp/minios.pid".to_owned(),
            command: None,
        }
    }
}

} // verus!
