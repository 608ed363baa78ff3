//! Server configuration and its builder.

use vstd::prelude::*;
use vstd::string::StringExecFns;

verus! {

/// How the HTTP server runs.
#[derive(Debug, Clone)]
pub struct ServerConfig {
    pub host: String,
    pub port: u16,
    pub model_dir: String,
    pub backend: String,
    pub api_key: Option<String>,
    pub enable_cors: bool,
    pub max_request_size: usize,
    pub gpu_index: Option<usize>,
    pub gpu_interactive: bool,
    pub auto_update: Option<bool>,
    pub auto_install_updates: Option<bool>,
    /// Seconds between update checks.
    pub update_check_interval: Option<u64>,
}

impl ServerConfig {
    /// The defaults of the server configuration.
    pub open spec fn is_default(self) -> bool {
        &&& self.host@ == "127.0.0.1"@
        &&& self.port == 8080
        &&& self.model_dir@ == "./models"@
        &&& self.backend@ == "auto"@
        &&& self.api_key is None
        &&& self.enable_cors
        &&& self.max_request_size == 104857600
        &&& self.gpu_index is None
        &&& !self.gpu_interactive
        &&& self.auto_update == Some(true)
        &&& self.auto_install_updates == Some(false)
        &&& self.update_check_interval == Some(86400u64)
    }

    /// Local host, port 8080, `./models`, automatic backend, no API key,
    /// CORS on, 100 MiB requests, daily update checks without installing.
    pub fn default() -> (r: ServerConfig)
        ensures
            r.is_default(),
    {
        ServerConfig {
            host: String::from_str("127.0.0.1"),
            port: 8080,
            model_dir: String::from_str("./models"),
            backend: String::from_str("auto"),
            api_key: None,
            enable_cors: true,
            max_request_size: 100 * 1024 * 1024,
            gpu_index: None,
            gpu_interactive: false,
            auto_update: Some(true),
            auto_install_updates: Some(false),
            update_check_interval: Some(24 * 60 * 60),
        }
    }
}

/// Builds a server configuration from the defaults.
#[derive(Debug, Clone)]
pub struct ServerBuilder {
    pub config: ServerConfig,
}

impl ServerBuilder {
    pub fn new() -> (r: ServerBuilder)
        ensures
            r.config.is_default(),
    {
        ServerBuilder { config: ServerConfig::default() }
    }

    pub fn host(self, host: String) -> (r: ServerBuilder)
        ensures
            r.config == (ServerConfig { host, ..self.config }),
    {
        let mut b = self;
        b.config.host = host;
        b
    }

    pub fn port(self, port: u16) -> (r: ServerBuilder)
        ensures
            r.config == (ServerConfig { port, ..self.config }),
    {
        let mut b = self;
        b.config.port = port;
        b
    }

    pub fn model_dir(self, dir: String) -> (r: ServerBuilder)
        ensures
            r.config == (ServerConfig { model_dir: dir, ..self.config }),
    {
        let mut b = self;
        b.config.model_dir = dir;
        b
    }

    pub fn backend(self, backend: String) -> (r: ServerBuilder)
        ensures
            r.config == (ServerConfig { backend, ..self.config }),
    {
        let mut b = self;
        b.config.backend = backend;
        b
    }

    pub fn api_key(self, key: String) -> (r: ServerBuilder)
        ensures
            r.config == (ServerConfig { api_key: Some(key), ..self.config }),
    {
        let mut b = self;
        b.config.api_key = Some(key);
        b
    }

    pub fn cors(self, enable: bool) -> (r: ServerBuilder)
        ensures
            r.config == (ServerConfig { enable_cors: enable, ..self.config }),
    {
        let mut b = self;
        b.config.enable_cors = enable;
        b
    }
}

/// State of a model download.
#[derive(Debug, Clone, Copy, PartialEq, Eq, Structural)]
pub enum DownloadStatus {
    Pending,
    Downloading,
    Completed,
    Failed,
    Cancelled,
}

} // verus!
