//! The decisions of the embedding providers: which provider the settings
//! ask for, the endpoint and the request headers of an OpenAI-compatible
//! service, the batches a list of texts is sent in, the retry schedule,
//! and what is made of a response.

use crate::config::{EmbeddingConfig, VectorDbConfig};
use crate::errors::VectorDbError;
use crate::text::{concat, str_equal};
use vstd::prelude::*;

verus! {

/// Whether `c` may stand in an HTTP header value: a tab, or any character
/// from the space on but DEL.
pub open spec fn header_value_char(c: char) -> bool {
    c == '\t' || (c as u32 >= 32 && c as u32 != 127)
}

/// Whether every character of `s` may stand in an HTTP header value.
pub open spec fn header_value_ok(s: Seq<char>) -> bool {
    forall|i: int| 0 <= i < s.len() ==> header_value_char(#[trigger] s[i])
}

/// Whether `c` is a token character of HTTP (RFC 7230): an ASCII letter or
/// digit, or one of ! # $ % & ' * + - . ^ _ ` | ~.
pub open spec fn token_char(c: char) -> bool {
    ('a' <= c <= 'z') || ('A' <= c <= 'Z') || ('0' <= c <= '9') || c == '!' || c == '#' || c == '$' || c == '%'
        || c == '&' || c == '\'' || c == '*' || c == '+' || c == '-' || c == '.' || c == '^' || c == '_' || c == '`'
        || c == '|' || c == '~'
}

/// Whether `reqwest::header::HeaderName` parses `name`: from 1 to 65535
/// token characters.
pub open spec fn header_name_accepted(name: Seq<char>) -> bool {
    1 <= name.len() <= 65535 && forall|i: int| 0 <= i < name.len() ==> token_char(#[trigger] name[i])
}

/// Calls `reqwest::header::HeaderValue::from_str`, which accepts a string
/// exactly when each of its bytes is a tab or at least 32 and not 127 (so
/// every character from U+0080 on is accepted); its error reads "failed to
/// parse header value".
#[verifier::external_body]
fn check_header_value(value: &str) -> (r: Result<(), String>)
    ensures
        r is Ok <==> header_value_ok(value@),
        r matches Err(t) ==> t@ == "failed to parse header value"@,
{
    match reqwest::header::HeaderValue::from_str(value) {
        Ok(_) => Ok(()),
        Err(e) => Err(e.to_string()),
    }
}

/// Parses `name` as a `reqwest::header::HeaderName` (`str::parse`, which
/// reads the bytes of `name` through the token table of `http`: any byte
/// outside it, an empty name or one past 65535 bytes is refused); its
/// error reads "invalid HTTP header name".
#[verifier::external_body]
fn check_header_name(name: &str) -> (r: Result<(), String>)
    ensures
        r is Ok <==> header_name_accepted(name@),
        r matches Err(t) ==> t@ == "invalid HTTP header name"@,
{
    match name.parse::<reqwest::header::HeaderName>() {
        Ok(_) => Ok(()),
        Err(e) => Err(e.to_string()),
    }
}

/// A provider that makes vectors from the text itself, for tests.
#[derive(Debug, Clone, Copy)]
pub struct MockEmbeddingProvider {
    dimension: usize,
}

impl MockEmbeddingProvider {
    /// The dimension of the vectors it makes.
    pub closed spec fn dim(self) -> nat {
        self.dimension as nat
    }

    /// A mock provider of `dimension`-dimensional vectors.
    pub fn new(dimension: usize) -> (p: Self)
        ensures
            p.dim() == dimension,
    {
        MockEmbeddingProvider { dimension }
    }

    /// The dimension of the vectors it makes.
    pub fn embedding_dimension(&self) -> (d: usize)
        ensures
            d == self.dim(),
    {
        self.dimension
    }
}

/// The provider that the settings ask for.
#[derive(Debug, Clone, Copy, PartialEq, Eq, Structural)]
pub enum ProviderChoice {
    /// A service that speaks the OpenAI embeddings API.
    OpenAiCompatible,
    /// The mock provider, with the dimension of its vectors.
    Mock { dimension: usize },
}

/// Whether `p` names a service that speaks the OpenAI embeddings API.
pub open spec fn openai_compatible_name(p: Seq<char>) -> bool {
    p == "openai"@ || p == "azure"@ || p == "nvidia"@ || p == "huggingface"@ || p == "ollama"@
}

/// The provider that `config` asks for: an OpenAI-compatible service for
/// "openai", "azure", "nvidia", "huggingface" and "ollama"; the mock
/// provider for "mock", with the embedding dimension if one is set and the
/// database's vector dimension otherwise; any other name is refused.
pub fn choose_provider(config: &VectorDbConfig) -> (r: Result<ProviderChoice, VectorDbError>)
    ensures
        openai_compatible_name(config.embedding.provider@) ==> r == Ok::<ProviderChoice, VectorDbError>(
            ProviderChoice::OpenAiCompatible,
        ),
        config.embedding.provider@ == "mock"@ ==> r == Ok::<ProviderChoice, VectorDbError>(
            ProviderChoice::Mock {
                dimension: match config.embedding.dimension {
                    Some(d) => d,
                    None => config.vector_dimension,
                },
            },
        ),
        !openai_compatible_name(config.embedding.provider@) && config.embedding.provider@ != "mock"@ ==> (
        r matches Err(VectorDbError::Config(m)) && m@ == "不支持的嵌入提供商: "@ + config.embedding.provider@),
{
    proof {
        reveal_strlit("openai");
        reveal_strlit("azure");
        reveal_strlit("nvidia");
        reveal_strlit("huggingface");
        reveal_strlit("ollama");
        reveal_strlit("mock");
        assert("mock"@.len() == 4);
        assert("openai"@.len() == 6);
        assert("azure"@.len() == 5);
        assert("nvidia"@.len() == 6);
        assert("huggingface"@.len() == 11);
        assert("ollama"@.len() == 6);
    }
    let p = config.embedding.provider.as_str();
    if str_equal(p, "openai") || str_equal(p, "azure") || str_equal(p, "nvidia") || str_equal(p, "huggingface")
        || str_equal(p, "ollama") {
        Ok(ProviderChoice::OpenAiCompatible)
    } else if str_equal(p, "mock") {
        let dimension = match config.embedding.dimension {
            Some(d) => d,
            None => config.vector_dimension,
        };
        Ok(ProviderChoice::Mock { dimension })
    } else {
        Err(VectorDbError::Config(concat("不支持的嵌入提供商: ", p)))
    }
}

/// The URL that an OpenAI-compatible provider posts to: the endpoint if
/// one is set; otherwise OpenAI's own for "openai", none for "azure" (an
/// error), and a local Ollama server for any other provider.
pub fn resolve_endpoint(config: &EmbeddingConfig) -> (r: Result<String, VectorDbError>)
    ensures
        config.endpoint matches Some(e) ==> (r matches Ok(u) && u@ == e@),
        config.endpoint is None && config.provider@ == "openai"@ ==> (r matches Ok(u) && u@
            == "https://api.openai.com/v1/embeddings"@),
        config.endpoint is None && config.provider@ == "azure"@ ==> (r matches Err(VectorDbError::Config(m))
            && m@ == "Azure提供商需要指定endpoint"@),
        config.endpoint is None && config.provider@ != "openai"@ && config.provider@ != "azure"@ ==> (r matches Ok(u)
            && u@ == "http://localhost:11434/api/embeddings"@),
{
    proof {
        reveal_strlit("openai");
        reveal_strlit("azure");
        assert("openai"@.len() == 6);
        assert("azure"@.len() == 5);
    }
    match &config.endpoint {
        Some(url) => Ok(url.clone()),
        None => {
            let p = config.provider.as_str();
            if str_equal(p, "openai") {
                Ok(String::from_str("https://api.openai.com/v1/embeddings"))
            } else if str_equal(p, "azure") {
                Err(VectorDbError::Config(String::from_str("Azure提供商需要指定endpoint")))
            } else {
                Ok(String::from_str("http://localhost:11434/api/embeddings"))
            }
        },
    }
}

/// The header lines before the extra ones: the bearer token when there is
/// a key, then the JSON content type.
pub open spec fn base_headers(api_key: Option<String>) -> Seq<(Seq<char>, Seq<char>)> {
    match api_key {
        Some(k) => seq![("authorization"@, "Bearer "@ + k@), ("content-type"@, "application/json"@)],
        None => seq![("content-type"@, "application/json"@)],
    }
}

/// Whether the extra header `h` has a name and a value that HTTP accepts.
pub open spec fn header_ok(h: (String, String)) -> bool {
    header_name_accepted(h.0@) && header_value_ok(h.1@)
}

/// The error for the first extra header that HTTP refuses.
pub open spec fn header_error(h: (String, String)) -> Seq<char> {
    if !header_name_accepted(h.0@) {
        "无效的请求头名称 "@ + h.0@ + ": invalid HTTP header name"@
    } else {
        "无效的请求头值 "@ + h.1@ + ": failed to parse header value"@
    }
}

fn pair_view(h: &(String, String)) -> (r: (String, String))
    ensures
        r.0@ == h.0@,
        r.1@ == h.1@,
{
    (h.0.clone(), h.1.clone())
}

/// The request headers of an OpenAI-compatible provider, in the order they
/// are set: the bearer token when there is a key, the JSON content type,
/// then the extra headers. A key that cannot stand in a header, or an
/// extra header whose name or value HTTP refuses, is an error.
pub fn request_headers(config: &EmbeddingConfig) -> (r: Result<Vec<(String, String)>, VectorDbError>)
    ensures
        r is Ok <==> (match config.api_key {
            Some(k) => header_value_ok("Bearer "@ + k@),
            None => true,
        }) && (forall|i: int| 0 <= i < config.headers@.len() ==> header_ok(#[trigger] config.headers@[i])),
        r matches Ok(hs) ==> hs@.len() == base_headers(config.api_key).len() + config.headers@.len() && (forall|
            i: int,
        |
            0 <= i < base_headers(config.api_key).len() ==> (#[trigger] hs@[i]).0@ == base_headers(
                config.api_key,
            )[i].0 && hs@[i].1@ == base_headers(config.api_key)[i].1) && (forall|i: int|
            0 <= i < config.headers@.len() ==> (#[trigger] hs@[base_headers(config.api_key).len() + i]).0@
                == config.headers@[i].0@ && hs@[base_headers(config.api_key).len() + i].1@
                == config.headers@[i].1@),
        config.api_key matches Some(k) && !header_value_ok("Bearer "@ + k@) ==> (r matches Err(
            VectorDbError::Embedding(m),
        ) && m@ == "无效的API密钥格式: failed to parse header value"@),
        forall|j: int|
            (match config.api_key {
                Some(k) => header_value_ok("Bearer "@ + k@),
                None => true,
            }) && 0 <= j < config.headers@.len() && !header_ok(#[trigger] config.headers@[j]) && (forall|i: int|
                0 <= i < j ==> header_ok(config.headers@[i])) ==> (r matches Err(VectorDbError::Embedding(m))
                && m@ == header_error(config.headers@[j])),
{
    proof {
        reveal_strlit("无效的API密钥格式: ");
        reveal_strlit("failed to parse header value");
        reveal_strlit("无效的API密钥格式: failed to parse header value");
        reveal_strlit("无效的请求头名称 ");
        reveal_strlit("无效的请求头值 ");
        reveal_strlit(": ");
        reveal_strlit("invalid HTTP header name");
        reveal_strlit(": invalid HTTP header name");
        reveal_strlit(": failed to parse header value");
    }
    let mut out: Vec<(String, String)> = Vec::new();
    match &config.api_key {
        Some(k) => {
            let auth = concat("Bearer ", k.as_str());
            match check_header_value(auth.as_str()) {
                Ok(()) => {},
                Err(t) => {
                    return Err(VectorDbError::Embedding(concat("无效的API密钥格式: ", t.as_str())));
                },
            }
            out.push((String::from_str("authorization"), auth));
        },
        None => {},
    }
    out.push((String::from_str("content-type"), String::from_str("application/json")));
    let ghost base = base_headers(config.api_key);
    assert(out@.len() == base.len());
    let b = out.len();
    let mut i: usize = 0;
    while i < config.headers.len()
        invariant
            b == base.len(),
            base == base_headers(config.api_key),
            i <= config.headers@.len(),
            out@.len() == b + i,
            forall|k: int| 0 <= k < b ==> (#[trigger] out@[k]).0@ == base[k].0 && out@[k].1@ == base[k].1,
            forall|k: int|
                0 <= k < i ==> (#[trigger] out@[b + k]).0@ == config.headers@[k].0@ && out@[b + k].1@
                    == config.headers@[k].1@,
            forall|k: int| 0 <= k < i ==> header_ok(#[trigger] config.headers@[k]),
            match config.api_key {
                Some(k) => header_value_ok("Bearer "@ + k@),
                None => true,
            },
        decreases config.headers.len() - i,
    {
        let h = &config.headers[i];
        match check_header_name(h.0.as_str()) {
            Ok(()) => {},
            Err(t) => {
                let mut m = concat("无效的请求头名称 ", h.0.as_str());
                m.append(": ");
                m.append(t.as_str());
                proof {
                    assert forall|j: int|
                        0 <= j < config.headers@.len() && !header_ok(#[trigger] config.headers@[j]) && (forall|
                            k: int,
                        | 0 <= k < j ==> header_ok(config.headers@[k])) implies j == i by {
                        if j < i {
                            assert(header_ok(config.headers@[j]));
                        }
                        if j > i {
                            assert(header_ok(config.headers@[i as int]));
                        }
                    }
                    reveal_strlit(": ");
                    reveal_strlit("invalid HTTP header name");
                    reveal_strlit(": invalid HTTP header name");
                    assert(": "@ + "invalid HTTP header name"@ =~= ": invalid HTTP header name"@);
                    assert(m@ =~= header_error(config.headers@[i as int]));
                }
                return Err(VectorDbError::Embedding(m));
            },
        }
        match check_header_value(h.1.as_str()) {
            Ok(()) => {},
            Err(t) => {
                let mut m = concat("无效的请求头值 ", h.1.as_str());
                m.append(": ");
                m.append(t.as_str());
                proof {
                    assert forall|j: int|
                        0 <= j < config.headers@.len() && !header_ok(#[trigger] config.headers@[j]) && (forall|
                            k: int,
                        | 0 <= k < j ==> header_ok(config.headers@[k])) implies j == i by {
                        if j < i {
                            assert(header_ok(config.headers@[j]));
                        }
                        if j > i {
                            assert(header_ok(config.headers@[i as int]));
                        }
                    }
                    reveal_strlit(": ");
                    reveal_strlit("failed to parse header value");
                    reveal_strlit(": failed to parse header value");
                    assert(": "@ + "failed to parse header value"@ =~= ": failed to parse header value"@);
                    assert(m@ =~= header_error(config.headers@[i as int]));
                }
                return Err(VectorDbError::Embedding(m));
            },
        }
        out.push(pair_view(h));
        i = i + 1;
    }
    Ok(out)
}

/// The dimension of the vectors of an OpenAI-compatible provider: the one
/// set, else OpenAI's 1536.
pub fn embedding_dimension(config: &EmbeddingConfig) -> (d: usize)
    ensures
        d == match config.dimension {
            Some(x) => x,
            None => 1536,
        },
{
    match config.dimension {
        Some(x) => x,
        None => 1536,
    }
}

/// How long to wait after the failed attempt `attempt` (counted from 0)
/// before the next one: 1 s times the number of attempts made, or no wait
/// and no further attempt once `retry_attempts` retries are spent.
pub fn retry_delay_ms(attempt: u32, retry_attempts: u32) -> (r: Option<u64>)
    ensures
        attempt < retry_attempts ==> r == Some((1000 * (attempt + 1)) as u64),
        attempt >= retry_attempts ==> r is None,
{
    if attempt < retry_attempts {
        Some(1000 * (attempt as u64 + 1))
    } else {
        None
    }
}

/// The error that ends the attempts: the last one seen, or "未知错误".
pub fn exhausted_error(last: Option<VectorDbError>) -> (e: VectorDbError)
    ensures
        last matches Some(l) ==> e == l,
        last is None ==> (e matches VectorDbError::Embedding(m) && m@ == "未知错误"@),
{
    match last {
        Some(l) => l,
        None => VectorDbError::Embedding(String::from_str("未知错误")),
    }
}

/// The first embedding of a response, which must hold one.
pub fn first_embedding<T>(data: Vec<T>) -> (r: Result<T, VectorDbError>)
    ensures
        data@.len() > 0 ==> r == Ok::<T, VectorDbError>(data@[0]),
        data@.len() == 0 ==> (r matches Err(VectorDbError::Embedding(m)) && m@ == "响应中没有嵌入数据"@),
{
    let mut data = data;
    if data.len() == 0 {
        Err(VectorDbError::Embedding(String::from_str("响应中没有嵌入数据")))
    } else {
        Ok(data.remove(0))
    }
}

/// The batch that starts at position `start` of `count` texts sent
/// `size` at a time: from `start` to `start + size`, or to the end.
pub open spec fn batch_at(start: int, size: int, count: int) -> (int, int) {
    (start, if start + size <= count { start + size } else { count })
}

/// The batches in which `count` texts are sent, `batch_size` at a time
/// (as `slice::chunks` cuts them), as (first, end) positions.
pub fn batch_bounds(count: usize, batch_size: usize) -> (r: Vec<(usize, usize)>)
    requires
        batch_size > 0,
    ensures
        r@.len() * batch_size >= count,
        r@.len() == 0 || (r@.len() - 1) * batch_size < count,
        forall|i: int|
            0 <= i < r@.len() ==> (#[trigger] r@[i]).0 == i * batch_size && r@[i] == ((i * batch_size) as usize, (
            batch_at(i * batch_size, batch_size as int, count as int).1) as usize),
{
    let mut r: Vec<(usize, usize)> = Vec::new();
    let mut start: usize = 0;
    assert(r@.len() * batch_size == 0) by (nonlinear_arith)
        requires
            r@.len() == 0,
    ;
    while start < count
        invariant_except_break
            start == r@.len() * batch_size,
            r@.len() == 0 || (r@.len() - 1) * batch_size < count,
        invariant
            batch_size > 0,
            forall|i: int|
                0 <= i < r@.len() ==> (#[trigger] r@[i]).0 == i * batch_size && r@[i] == ((i * batch_size) as usize, (
                batch_at(i * batch_size, batch_size as int, count as int).1) as usize),
        ensures
            r@.len() * batch_size >= count,
            r@.len() == 0 || (r@.len() - 1) * batch_size < count,
        decreases count - start,
    {
        let ghost k = r@.len();
        proof {
            assert((k + 1) * batch_size == k * batch_size + batch_size) by (nonlinear_arith);
        }
        if count - start <= batch_size {
            r.push((start, count));
            assert(r@.len() - 1 == k);
            break;
        }
        r.push((start, start + batch_size));
        start = start + batch_size;
    }
    r
}

/// The settings of an OpenAI-compatible provider at `endpoint`, with
/// `api_key` and `model`, all else as [`EmbeddingConfig::default`] has it.
pub fn openai_compatible_config(endpoint: String, api_key: String, model: String) -> (c: EmbeddingConfig)
    ensures
        c.provider@ == "openai"@,
        c.endpoint == Some(endpoint),
        c.api_key == Some(api_key),
        c.model == model,
        c.api_version is None,
        c.headers@.len() == 0,
        c.batch_size == 100,
        c.timeout_seconds == 30,
        c.retry_attempts == 3,
        c.dimension is None,
{
    let mut c = EmbeddingConfig::default();
    c.provider = String::from_str("openai");
    c.endpoint = Some(endpoint);
    c.api_key = Some(api_key);
    c.model = model;
    c
}

} // verus!
