//! Settings of the database: where it lives, the dimension of its vectors,
//! the embedding provider, the HNSW index and the caches.

use vstd::prelude::*;

verus! {

/// Settings of the embedding provider.
#[derive(Debug, Clone)]
pub struct EmbeddingConfig {
    /// "openai", "azure", "nvidia", "huggingface", "ollama" or "mock".
    pub provider: String,
    pub endpoint: Option<String>,
    pub api_key: Option<String>,
    pub model: String,
    pub api_version: Option<String>,
    /// Extra request headers, as (name, value) pairs.
    pub headers: Vec<(String, String)>,
    pub batch_size: usize,
    pub timeout_seconds: u64,
    pub retry_attempts: u32,
    pub dimension: Option<usize>,
}

impl Default for EmbeddingConfig {
    /// The mock provider, no endpoint, no key, no extra header, batches of
    /// 100 texts, 30 s timeout, 3 retries, dimension left to the provider.
    fn default() -> (c: Self)
        ensures
            c.provider@ == "mock"@,
            c.endpoint is None,
            c.api_key is None,
            c.model@ == "text-embedding-3-small"@,
            c.api_version is None,
            c.headers@.len() == 0,
            c.batch_size == 100,
            c.timeout_seconds == 30,
            c.retry_attempts == 3,
            c.dimension is None,
    {
        EmbeddingConfig {
            provider: String::from_str("mock"),
            endpoint: None,
            api_key: None,
            model: String::from_str("text-embedding-3-small"),
            api_version: None,
            headers: Vec::new(),
            batch_size: 100,
            timeout_seconds: 30,
            retry_attempts: 3,
            dimension: None,
        }
    }
}

/// Settings of the HNSW index.
#[derive(Debug, Clone, Copy)]
pub struct HnswConfig {
    pub m: usize,
    pub ef_construction: usize,
    pub ef_search: usize,
}

impl Default for HnswConfig {
    /// 16 links per node, 200 candidates while building, 50 while searching.
    fn default() -> (c: Self)
        ensures
            c.m == 16,
            c.ef_construction == 200,
            c.ef_search == 50,
    {
        HnswConfig { m: 16, ef_construction: 200, ef_search: 50 }
    }
}

/// Settings of the caches.
#[derive(Debug, Clone, Copy)]
pub struct CacheConfig {
    pub embedding_cache_size: usize,
    pub query_cache_size: usize,
    pub cache_ttl_seconds: u64,
}

impl Default for CacheConfig {
    /// 10000 embeddings, 1000 queries, kept for an hour.
    fn default() -> (c: Self)
        ensures
            c.embedding_cache_size == 10000,
            c.query_cache_size == 1000,
            c.cache_ttl_seconds == 3600,
    {
        CacheConfig { embedding_cache_size: 10000, query_cache_size: 1000, cache_ttl_seconds: 3600 }
    }
}

/// Settings of the database.
#[derive(Debug, Clone)]
pub struct VectorDbConfig {
    pub db_path: String,
    pub vector_dimension: usize,
    pub embedding: EmbeddingConfig,
    pub hnsw: HnswConfig,
    pub cache: CacheConfig,
}

impl Default for VectorDbConfig {
    /// "./data", vectors of 384 dimensions, and the default settings of
    /// each part (the mock embedding provider among them).
    fn default() -> (c: Self)
        ensures
            c.db_path@ == "./data"@,
            c.vector_dimension == 384,
            c.embedding.provider@ == "mock"@,
            c.embedding.endpoint is None,
            c.embedding.api_key is None,
            c.embedding.model@ == "text-embedding-3-small"@,
            c.embedding.api_version is None,
            c.embedding.headers@.len() == 0,
            c.embedding.batch_size == 100,
            c.embedding.timeout_seconds == 30,
            c.embedding.retry_attempts == 3,
            c.embedding.dimension is None,
            c.hnsw.m == 16,
            c.hnsw.ef_construction == 200,
            c.hnsw.ef_search == 50,
            c.cache.embedding_cache_size == 10000,
            c.cache.query_cache_size == 1000,
            c.cache.cache_ttl_seconds == 3600,
    {
        VectorDbConfig {
            db_path: String::from_str("./data"),
            vector_dimension: 384,
            embedding: EmbeddingConfig::default(),
            hnsw: HnswConfig::default(),
            cache: CacheConfig::default(),
        }
    }
}

/// The settings that [`VectorDbConfig::default`] gives, but for the
/// provider, the endpoint, the key, the model and the API version.
pub open spec fn is_default_config(c: VectorDbConfig) -> bool {
    &&& c.db_path@ == "./data"@
    &&& c.vector_dimension == 384
    &&& c.embedding.headers@.len() == 0
    &&& c.embedding.batch_size == 100
    &&& c.embedding.timeout_seconds == 30
    &&& c.embedding.retry_attempts == 3
    &&& c.embedding.dimension is None
    &&& c.hnsw.m == 16
    &&& c.hnsw.ef_construction == 200
    &&& c.hnsw.ef_search == 50
    &&& c.cache.embedding_cache_size == 10000
    &&& c.cache.query_cache_size == 1000
    &&& c.cache.cache_ttl_seconds == 3600
}

impl VectorDbConfig {
    /// The default settings with an OpenAI-compatible provider at
    /// `endpoint`, authenticated by `api_key`, using `model`.
    pub fn with_openai_compatible(endpoint: String, api_key: String, model: String) -> (c: Self)
        ensures
            is_default_config(c),
            c.embedding.provider@ == "openai"@,
            c.embedding.api_version is None,
            c.embedding.endpoint == Some(endpoint),
            c.embedding.api_key == Some(api_key),
            c.embedding.model == model,
    {
        let mut config = Self::default();
        config.embedding.provider = String::from_str("openai");
        config.embedding.endpoint = Some(endpoint);
        config.embedding.api_key = Some(api_key);
        config.embedding.model = model;
        config
    }

    /// The default settings with an Azure OpenAI deployment at `endpoint`.
    pub fn with_azure_openai(endpoint: String, api_key: String, deployment_name: String, api_version: String) -> (c: Self)
        ensures
            is_default_config(c),
            c.embedding.provider@ == "azure"@,
            c.embedding.endpoint == Some(endpoint),
            c.embedding.api_key == Some(api_key),
            c.embedding.model == deployment_name,
            c.embedding.api_version == Some(api_version),
    {
        let mut config = Self::default();
        config.embedding.provider = String::from_str("azure");
        config.embedding.endpoint = Some(endpoint);
        config.embedding.api_key = Some(api_key);
        config.embedding.model = deployment_name;
        config.embedding.api_version = Some(api_version);
        config
    }

    /// The default settings with a local Ollama server at `endpoint`.
    pub fn with_ollama(endpoint: String, model: String) -> (c: Self)
        ensures
            is_default_config(c),
            c.embedding.api_key is None,
            c.embedding.api_version is None,
            c.embedding.provider@ == "ollama"@,
            c.embedding.endpoint == Some(endpoint),
            c.embedding.model == model,
    {
        let mut config = Self::default();
        config.embedding.provider = String::from_str("ollama");
        config.embedding.endpoint = Some(endpoint);
        config.embedding.model = model;
        config
    }
}

} // verus!
