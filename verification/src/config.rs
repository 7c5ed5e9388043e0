//! Configuration model. Scores and fusion weights are fixed-point values
//! in millionths (micros), so `1_000_000` stands for `1.0`.

use crate::error::RagmcpError;
use vstd::prelude::*;

verus! {

/// One million micros make 1.0: the fixed-point unit for scores and
/// weights.
pub const SCORE_UNIT: u64 = 1_000_000;

/// Root locations of the engine: the indexed folder and the index file.
#[derive(Clone)]
pub struct RagmcpConfig {
    pub rag_folder: String,
    pub db_path: String,
    pub log_level: String,
}

/// Embedding provider settings.
#[derive(Clone)]
pub struct EmbeddingsConfig {
    pub provider: String,
    pub model: String,
    pub api_key_env: String,
    pub batch_size: usize,
    pub dimensions: usize,
    pub cache_capacity: usize,
}

/// Search settings; scores and weights in micros.
#[derive(Clone)]
pub struct SearchConfig {
    pub default_k: usize,
    pub min_score_micros: u64,
    pub hybrid_bm25_weight_micros: u64,
    pub hybrid_vector_weight_micros: u64,
}

/// Performance tuning settings.
#[derive(Clone)]
pub struct PerformanceConfig {
    pub max_latency_ms: u64,
    pub chunk_size_tokens: usize,
    pub chunk_overlap_tokens: usize,
}

/// HTTP transport settings.
#[derive(Clone)]
pub struct HttpServerConfig {
    pub enabled: bool,
    pub port: u16,
    pub api_key_env: String,
    pub allowed_origins: Vec<String>,
    pub authless: bool,
}

/// The whole configuration.
#[derive(Clone)]
pub struct Config {
    pub ragmcp: RagmcpConfig,
    pub embeddings: EmbeddingsConfig,
    pub search: SearchConfig,
    pub performance: PerformanceConfig,
    pub http_server: HttpServerConfig,
}

/// The query-embedding cache holds a thousand entries unless configured.
pub fn default_cache_capacity() -> (r: usize)
    ensures
        r == 1000,
{
    1000
}

/// HTTP authentication is on unless configured off.
pub fn default_authless() -> (r: bool)
    ensures
        r == false,
{
    false
}

/// The HTTP transport is off unless configured on.
pub fn default_http_enabled() -> (r: bool)
    ensures
        r == false,
{
    false
}

/// The HTTP transport listens on 8080 unless configured.
pub fn default_http_port() -> (r: u16)
    ensures
        r == 8080,
{
    8080
}

/// The environment variable read for the HTTP credential.
pub fn default_http_api_key_env() -> (r: String)
    ensures
        r@ == "RAGMCP_API_KEY"@,
{
    "RAGMCP_API_KEY".to_owned()
}

/// No cross-origin callers are allowed unless configured.
pub fn default_allowed_origins() -> (r: Vec<String>)
    ensures
        r@.len() == 0,
{
    Vec::new()
}

/// Logging defaults to the `info` level.
pub fn default_log_level() -> (r: String)
    ensures
        r@ == "info"@,
{
    "info".to_owned()
}

/// Whether the numeric settings are coherent: a positive result count, a
/// threshold within `[0, 1]`, a positive chunk size, and an overlap shorter
/// than the chunk size.
pub open spec fn numeric_settings_valid(c: Config) -> bool {
    &&& c.search.default_k > 0
    &&& c.search.min_score_micros <= SCORE_UNIT
    &&& c.performance.chunk_size_tokens > 0
    &&& c.performance.chunk_overlap_tokens < c.performance.chunk_size_tokens
}

impl Config {
    /// Check the numeric settings; `Ok` exactly when they are coherent.
    /// Whether the indexed folder exists and the credential variable is set
    /// is checked where the configuration is loaded.
    pub fn validate_numeric(&self) -> (r: Result<(), RagmcpError>)
        ensures
            r is Ok <==> numeric_settings_valid(*self),
            r is Err ==> r->Err_0 is Config,
    {
        if self.search.default_k == 0 {
            return Err(
                RagmcpError::Config("search.default_k must be greater than 0".to_owned()),
            );
        }
        if self.search.min_score_micros > SCORE_UNIT {
            return Err(
                RagmcpError::Config("search.min_score must be between 0.0 and 1.0".to_owned()),
            );
        }
        if self.performance.chunk_size_tokens == 0 {
            return Err(
                RagmcpError::Config(
                    "performance.chunk_size_tokens must be greater than 0".to_owned(),
                ),
            );
        }
        if self.performance.chunk_overlap_tokens >= self.performance.chunk_size_tokens {
            return Err(
                RagmcpError::Config(
                    "performance.chunk_overlap_tokens must be less than chunk_size_tokens".to_owned(),
                ),
            );
        }
        Ok(())
    }

    /// The configured index location.
    pub fn db_path(&self) -> (r: &String)
        ensures
            r == &self.ragmcp.db_path,
    {
        &self.ragmcp.db_path
    }

    /// The configured documents root.
    pub fn rag_folder(&self) -> (r: &String)
        ensures
            r == &self.ragmcp.rag_folder,
    {
        &self.ragmcp.rag_folder
    }
}

} // verus!
