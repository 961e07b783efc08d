use grape_vector_db::config::{EmbeddingConfig, VectorDbConfig};
use grape_vector_db::embeddings::{
    batch_bounds, choose_provider, embedding_dimension, exhausted_error, first_embedding, openai_compatible_config,
    request_headers, resolve_endpoint, retry_delay_ms, MockEmbeddingProvider, ProviderChoice,
};
use grape_vector_db::errors::VectorDbError;

#[test]
fn default_config_uses_the_mock_provider() {
    let c = VectorDbConfig::default();
    assert_eq!(c.embedding.provider, "mock");
    assert_eq!(c.db_path, "./data");
    assert_eq!(c.embedding.batch_size, 100);
    assert_eq!(c.embedding.retry_attempts, 3);
}

#[test]
fn provider_constructors_set_the_embedding_settings() {
    let c = VectorDbConfig::with_openai_compatible(
        "https://api.openai.com/v1/embeddings".to_string(),
        "key".to_string(),
        "text-embedding-3-small".to_string(),
    );
    assert_eq!(c.embedding.provider, "openai");
    assert_eq!(c.embedding.endpoint.as_deref(), Some("https://api.openai.com/v1/embeddings"));
    assert_eq!(c.embedding.api_key.as_deref(), Some("key"));

    let c = VectorDbConfig::with_azure_openai(
        "https://r.openai.azure.com".to_string(),
        "k".to_string(),
        "deploy".to_string(),
        "2023-05-15".to_string(),
    );
    assert_eq!(c.embedding.provider, "azure");
    assert_eq!(c.embedding.model, "deploy");
    assert_eq!(c.embedding.api_version.as_deref(), Some("2023-05-15"));

    let c = VectorDbConfig::with_ollama("http://localhost:11434".to_string(), "nomic-embed-text".to_string());
    assert_eq!(c.embedding.provider, "ollama");
    assert_eq!(c.embedding.api_key, None);
    assert_eq!(c.vector_dimension, 384);
}

#[test]
fn mock_provider_keeps_its_dimension() {
    let p = MockEmbeddingProvider::new(128);
    assert_eq!(p.embedding_dimension(), 128);
}

#[test]
fn provider_names_are_chosen_or_refused() {
    let mut c = VectorDbConfig::default();
    assert_eq!(choose_provider(&c).unwrap(), ProviderChoice::Mock { dimension: 384 });
    c.embedding.dimension = Some(64);
    assert_eq!(choose_provider(&c).unwrap(), ProviderChoice::Mock { dimension: 64 });
    for p in ["openai", "azure", "nvidia", "huggingface", "ollama"] {
        c.embedding.provider = p.to_string();
        assert_eq!(choose_provider(&c).unwrap(), ProviderChoice::OpenAiCompatible);
    }
    c.embedding.provider = "cohere".to_string();
    match choose_provider(&c) {
        Err(e) => assert_eq!(e.message(), "配置错误: 不支持的嵌入提供商: cohere"),
        Ok(_) => panic!("unknown provider accepted"),
    }
}

#[test]
fn endpoints_default_by_provider() {
    let mut c = EmbeddingConfig::default();
    c.provider = "openai".to_string();
    assert_eq!(resolve_endpoint(&c).unwrap(), "https://api.openai.com/v1/embeddings");
    c.provider = "ollama".to_string();
    assert_eq!(resolve_endpoint(&c).unwrap(), "http://localhost:11434/api/embeddings");
    c.provider = "azure".to_string();
    match resolve_endpoint(&c) {
        Err(VectorDbError::Config(m)) => assert_eq!(m, "Azure提供商需要指定endpoint"),
        _ => panic!("azure without endpoint accepted"),
    }
    c.endpoint = Some("https://x.example/embed".to_string());
    assert_eq!(resolve_endpoint(&c).unwrap(), "https://x.example/embed");
}

#[test]
fn headers_carry_the_key_then_the_content_type_then_extras() {
    let mut c = EmbeddingConfig::default();
    c.api_key = Some("sk-1".to_string());
    c.headers = vec![("X-Trace".to_string(), "on".to_string())];
    let h = request_headers(&c).unwrap();
    assert_eq!(
        h,
        vec![
            ("authorization".to_string(), "Bearer sk-1".to_string()),
            ("content-type".to_string(), "application/json".to_string()),
            ("X-Trace".to_string(), "on".to_string()),
        ]
    );
    c.api_key = None;
    c.headers = vec![];
    assert_eq!(request_headers(&c).unwrap().len(), 1);
}

#[test]
fn bad_headers_are_refused_with_the_http_message() {
    let mut c = EmbeddingConfig::default();
    c.api_key = Some("bad\nkey".to_string());
    match request_headers(&c) {
        Err(VectorDbError::Embedding(m)) => assert_eq!(m, "无效的API密钥格式: failed to parse header value"),
        _ => panic!("control character accepted"),
    }
    c.api_key = None;
    c.headers = vec![("bad name".to_string(), "v".to_string())];
    match request_headers(&c) {
        Err(VectorDbError::Embedding(m)) => assert_eq!(m, "无效的请求头名称 bad name: invalid HTTP header name"),
        _ => panic!("space in a header name accepted"),
    }
    c.headers = vec![("x-ok".to_string(), "tab\tok".to_string()), ("x-bad".to_string(), "del\u{7f}".to_string())];
    match request_headers(&c) {
        Err(VectorDbError::Embedding(m)) => assert_eq!(m, "无效的请求头值 del\u{7f}: failed to parse header value"),
        _ => panic!("DEL in a header value accepted"),
    }
}

#[test]
fn dimension_retry_and_response_handling() {
    let mut c = EmbeddingConfig::default();
    assert_eq!(embedding_dimension(&c), 1536);
    c.dimension = Some(3072);
    assert_eq!(embedding_dimension(&c), 3072);
    assert_eq!(retry_delay_ms(0, 3), Some(1000));
    assert_eq!(retry_delay_ms(2, 3), Some(3000));
    assert_eq!(retry_delay_ms(3, 3), None);
    match exhausted_error(None) {
        VectorDbError::Embedding(m) => assert_eq!(m, "未知错误"),
        _ => panic!(),
    }
    assert!(matches!(exhausted_error(Some(VectorDbError::Other("x".to_string()))), VectorDbError::Other(_)));
    assert_eq!(first_embedding(vec![7u32, 8]).unwrap(), 7);
    match first_embedding::<u32>(Vec::new()) {
        Err(VectorDbError::Embedding(m)) => assert_eq!(m, "响应中没有嵌入数据"),
        _ => panic!(),
    }
}

#[test]
fn texts_are_cut_in_batches_like_chunks() {
    assert_eq!(batch_bounds(0, 10), vec![]);
    assert_eq!(batch_bounds(5, 2), vec![(0, 2), (2, 4), (4, 5)]);
    assert_eq!(batch_bounds(4, 2), vec![(0, 2), (2, 4)]);
    assert_eq!(batch_bounds(3, 100), vec![(0, 3)]);
    let texts: Vec<u32> = (0..23).collect();
    let chunks: Vec<(usize, usize)> = texts
        .chunks(5)
        .scan(0usize, |start, ch| {
            let s = *start;
            *start += ch.len();
            Some((s, s + ch.len()))
        })
        .collect();
    assert_eq!(batch_bounds(23, 5), chunks);
}

#[test]
fn openai_compatible_settings() {
    let c = openai_compatible_config("https://e".to_string(), "k".to_string(), "m".to_string());
    assert_eq!(c.provider, "openai");
    assert_eq!(c.endpoint.as_deref(), Some("https://e"));
    assert_eq!(c.api_key.as_deref(), Some("k"));
    assert_eq!(c.model, "m");
}

#[test]
fn error_texts() {
    assert_eq!(VectorDbError::config_error("x".to_string()).message(), "配置错误: x");
    assert_eq!(VectorDbError::index_error("x".to_string()).message(), "索引错误: x");
    assert_eq!(VectorDbError::embedding_error("x".to_string()).message(), "嵌入生成错误: x");
    assert_eq!(VectorDbError::query_error("x".to_string()).message(), "查询错误: x");
    assert_eq!(VectorDbError::storage_error("x".to_string()).message(), "存储错误: x");
    assert_eq!(VectorDbError::cache_error("x".to_string()).message(), "缓存错误: x");
    assert_eq!(VectorDbError::other("x".to_string()).message(), "错误: x");
    assert_eq!(VectorDbError::DocumentNotFound("d".to_string()).message(), "文档未找到: d");
    assert_eq!(VectorDbError::DuplicateDocument("d".to_string()).message(), "重复文档: d");
    assert_eq!(
        VectorDbError::InvalidVectorDimension { expected: 384, actual: 12 }.message(),
        "向量维度不匹配，期望: 384, 实际: 12"
    );
    let io = VectorDbError::Io(std::io::Error::new(std::io::ErrorKind::Other, "disk gone"));
    assert_eq!(io.message(), "I/O错误: disk gone");
    let serde = VectorDbError::Serde(serde_json::from_str::<u32>("x").unwrap_err());
    assert!(serde.message().starts_with("序列化错误: "));
}

#[test]
fn header_names_are_http_tokens() {
    let mut c = EmbeddingConfig::default();
    c.api_key = None;
    c.headers = vec![("X-Api_Key!#$%&'*+-.^`|~9".to_string(), "v".to_string())];
    assert!(request_headers(&c).is_ok());
    for bad in ["", "é", "a:b", "a(b)"] {
        c.headers = vec![(bad.to_string(), "v".to_string())];
        assert!(request_headers(&c).is_err(), "{:?} accepted", bad);
    }
    c.headers = vec![("a".repeat(65535), "v".to_string())];
    assert!(request_headers(&c).is_ok());
    c.headers = vec![("a".repeat(65536), "v".to_string())];
    assert!(request_headers(&c).is_err());
}
