//! The records that requests and responses carry.

use vstd::prelude::*;

verus! {

/// A value as a request or a response carries it.
#[derive(Debug)]
pub enum IntOrString {
    Int(i64),
    String(String),
}

/// The mathematical form of an [`IntOrString`].
pub enum IntOrStringView {
    Int(i64),
    String(Seq<char>),
}

impl View for IntOrString {
    type V = IntOrStringView;

    open spec fn view(&self) -> IntOrStringView {
        match self {
            IntOrString::Int(n) => IntOrStringView::Int(*n),
            IntOrString::String(s) => IntOrStringView::String(s@),
        }
    }
}

/// The ttl of a request that names none: no expiry.
pub fn default_ttl() -> (ttl: i64)
    ensures
        ttl == -1,
{
    -1
}

#[derive(Debug)]
pub struct SetRequest {
    pub key: String,
    pub value: IntOrString,
    pub ttl: i64,
}

#[derive(Debug)]
pub struct DeleteKeysRequest {
    pub prefix: String,
}

#[derive(Debug)]
pub struct GetResponse {
    pub value: Option<IntOrString>,
}

#[derive(Debug)]
pub struct OperationSuccessResponse {
    pub success: bool,
}

#[derive(Debug)]
pub struct GetAllKeysResponse {
    pub keys: Vec<String>,
}

#[derive(Debug)]
pub struct ErrorResponse {
    pub error: String,
}

/// A response: what was asked for, or why it could not be had.
#[derive(Debug)]
pub enum ApiResponse<T> {
    Success(T),
    ErrorResponse(ErrorResponse),
}

#[derive(Debug)]
pub struct GetAllKeysQuery {
    pub prefix: String,
}

#[derive(Debug)]
pub struct InfoResponse {
    pub version: String,
    pub rustc: String,
    pub build_date: String,
    pub backend: String,
}

#[derive(Debug)]
pub struct IncrementRequest {
    pub value: i64,
    pub default: Option<i64>,
}

#[derive(Debug)]
pub struct IncrementResponse {
    pub value: i64,
}

#[derive(Debug)]
pub struct DecrementRequest {
    pub value: i64,
    pub default: i64,
}

#[derive(Debug)]
pub struct DecrementResponse {
    pub value: i64,
}

#[derive(Debug)]
pub struct GetTtlResponse {
    pub ttl: i64,
}

#[derive(Debug)]
pub struct SetTtlRequest {
    pub ttl: i64,
}

} // verus!
