//! The errors of database operations and their texts.

use crate::text::{concat, decimal, push_decimal};
use vstd::prelude::*;

verus! {

#[verifier::external_type_specification]
#[verifier::external_body]
pub struct ExIoError(std::io::Error);

#[verifier::external_type_specification]
#[verifier::external_body]
pub struct ExSerdeJsonError(serde_json::Error);

/// Calls `Display` of `std::io::Error` (`to_string`). What it says comes
/// from the operating system and is not stated.
#[verifier::external_body]
fn io_error_text(e: &std::io::Error) -> (r: String) {
    e.to_string()
}

/// Calls `Display` of `serde_json::Error` (`to_string`). The value is
/// opaque here, so nothing is stated of the text.
#[verifier::external_body]
fn serde_error_text(e: &serde_json::Error) -> (r: String) {
    e.to_string()
}

/// Why a database operation failed.
#[derive(Debug)]
pub enum VectorDbError {
    Io(std::io::Error),
    Serde(serde_json::Error),
    Config(String),
    Storage(String),
    Index(String),
    Embedding(String),
    Query(String),
    DocumentNotFound(String),
    DuplicateDocument(String),
    InvalidVectorDimension { expected: usize, actual: usize },
    Cache(String),
    Other(String),
}

/// The prefix of the text of `e`, and for the errors that carry a string,
/// the whole text.
pub open spec fn db_error_prefix(e: VectorDbError) -> Seq<char> {
    match e {
        VectorDbError::Io(_) => "I/O错误: "@,
        VectorDbError::Serde(_) => "序列化错误: "@,
        VectorDbError::Config(m) => "配置错误: "@ + m@,
        VectorDbError::Storage(m) => "存储错误: "@ + m@,
        VectorDbError::Index(m) => "索引错误: "@ + m@,
        VectorDbError::Embedding(m) => "嵌入生成错误: "@ + m@,
        VectorDbError::Query(m) => "查询错误: "@ + m@,
        VectorDbError::DocumentNotFound(id) => "文档未找到: "@ + id@,
        VectorDbError::DuplicateDocument(id) => "重复文档: "@ + id@,
        VectorDbError::InvalidVectorDimension { expected, actual } => "向量维度不匹配，期望: "@ + decimal(
            expected as nat,
        ) + ", 实际: "@ + decimal(actual as nat),
        VectorDbError::Cache(m) => "缓存错误: "@ + m@,
        VectorDbError::Other(m) => "错误: "@ + m@,
    }
}

impl VectorDbError {
    /// The text of this error. For an I/O or a serialisation error it is
    /// the prefix followed by the text of the underlying error.
    pub fn message(&self) -> (s: String)
        ensures
            !(self is Io || self is Serde) ==> s@ == db_error_prefix(*self),
            (self is Io || self is Serde) ==> s@.len() >= db_error_prefix(*self).len() && s@.subrange(
                0,
                db_error_prefix(*self).len() as int,
            ) == db_error_prefix(*self),
    {
        match self {
            VectorDbError::Io(e) => {
                let t = io_error_text(e);
                let s = concat("I/O错误: ", t.as_str());
                assert(s@.subrange(0, "I/O错误: "@.len() as int) =~= "I/O错误: "@);
                s
            },
            VectorDbError::Serde(e) => {
                let t = serde_error_text(e);
                let s = concat("序列化错误: ", t.as_str());
                assert(s@.subrange(0, "序列化错误: "@.len() as int) =~= "序列化错误: "@);
                s
            },
            VectorDbError::Config(m) => concat("配置错误: ", m.as_str()),
            VectorDbError::Storage(m) => concat("存储错误: ", m.as_str()),
            VectorDbError::Index(m) => concat("索引错误: ", m.as_str()),
            VectorDbError::Embedding(m) => concat("嵌入生成错误: ", m.as_str()),
            VectorDbError::Query(m) => concat("查询错误: ", m.as_str()),
            VectorDbError::DocumentNotFound(id) => concat("文档未找到: ", id.as_str()),
            VectorDbError::DuplicateDocument(id) => concat("重复文档: ", id.as_str()),
            VectorDbError::InvalidVectorDimension { expected, actual } => {
                let mut s = String::from_str("向量维度不匹配，期望: ");
                push_decimal(&mut s, *expected as u64);
                s.append(", 实际: ");
                push_decimal(&mut s, *actual as u64);
                s
            },
            VectorDbError::Cache(m) => concat("缓存错误: ", m.as_str()),
            VectorDbError::Other(m) => concat("错误: ", m.as_str()),
        }
    }

    /// A configuration error.
    pub fn config_error(msg: String) -> (e: Self)
        ensures
            e == VectorDbError::Config(msg),
    {
        VectorDbError::Config(msg)
    }

    /// An index error.
    pub fn index_error(msg: String) -> (e: Self)
        ensures
            e == VectorDbError::Index(msg),
    {
        VectorDbError::Index(msg)
    }

    /// An error of embedding generation.
    pub fn embedding_error(msg: String) -> (e: Self)
        ensures
            e == VectorDbError::Embedding(msg),
    {
        VectorDbError::Embedding(msg)
    }

    /// A query error.
    pub fn query_error(msg: String) -> (e: Self)
        ensures
            e == VectorDbError::Query(msg),
    {
        VectorDbError::Query(msg)
    }

    /// A storage error.
    pub fn storage_error(msg: String) -> (e: Self)
        ensures
            e == VectorDbError::Storage(msg),
    {
        VectorDbError::Storage(msg)
    }

    /// A cache error.
    pub fn cache_error(msg: String) -> (e: Self)
        ensures
            e == VectorDbError::Cache(msg),
    {
        VectorDbError::Cache(msg)
    }

    /// Any other error.
    pub fn other(msg: String) -> (e: Self)
        ensures
            e == VectorDbError::Other(msg),
    {
        VectorDbError::Other(msg)
    }
}

} // verus!
