//! The errors of the engine and the daemon, and how the daemon answers them.

use vstd::prelude::*;
use crate::text::{push_str, to_string};
use crate::operator::types::{OperatorError, operator_error_text};

verus! {

/// An error of the engine or the daemon.
#[derive(Debug)]
pub enum WeaveflowError {
    Internal(String),
    Parse(String),
    Validation(String),
    NotFound(String),
    Operator(String),
    /// An I/O failure, by its message.
    Io(String),
    /// A storage operation that failed, and why.
    Database { operation: String, source: Box<WeaveflowError> },
    BadRequest(String),
    Unavailable(String),
}

/// The error's message.
pub open spec fn error_text(e: WeaveflowError) -> Seq<char>
    decreases e,
{
    match e {
        WeaveflowError::Internal(m) => m@,
        WeaveflowError::Parse(m) => "解析错误: "@ + m@,
        WeaveflowError::Validation(m) => "校验错误: "@ + m@,
        WeaveflowError::NotFound(m) => "查找失败: "@ + m@,
        WeaveflowError::Operator(m) => "算子错误: "@ + m@,
        WeaveflowError::Io(m) => "IO 错误: "@ + m@,
        WeaveflowError::Database { operation, source } => "数据库错误 — 操作: "@ + operation@ + ", 原因: "@
            + error_text(*source),
        WeaveflowError::BadRequest(m) => "请求参数错误: "@ + m@,
        WeaveflowError::Unavailable(m) => "服务不可用: "@ + m@,
    }
}

/// The HTTP status the daemon answers an error with.
pub open spec fn error_status(e: WeaveflowError) -> u16 {
    match e {
        WeaveflowError::NotFound(_) => 404,
        WeaveflowError::BadRequest(_) => 400,
        WeaveflowError::Parse(_) => 400,
        WeaveflowError::Validation(_) => 400,
        WeaveflowError::Unavailable(_) => 503,
        _ => 500,
    }
}

/// The message the daemon answers an error with: the detail of an error
/// of the request, and only `internal server error` otherwise.
pub open spec fn error_reply(e: WeaveflowError) -> Seq<char> {
    match e {
        WeaveflowError::NotFound(m) => m@,
        WeaveflowError::BadRequest(m) => m@,
        WeaveflowError::Parse(m) => m@,
        WeaveflowError::Validation(m) => m@,
        WeaveflowError::Unavailable(m) => m@,
        _ => "internal server error"@,
    }
}

impl WeaveflowError {
    /// The error's message (see `error_text`).
    pub fn to_text(&self) -> (r: String)
        ensures
            r@ == error_text(*self),
        decreases self,
    {
        let mut s = String::new();
        match self {
            WeaveflowError::Internal(m) => push_str(&mut s, m.as_str()),
            WeaveflowError::Parse(m) => {
                push_str(&mut s, "解析错误: ");
                push_str(&mut s, m.as_str());
            },
            WeaveflowError::Validation(m) => {
                push_str(&mut s, "校验错误: ");
                push_str(&mut s, m.as_str());
            },
            WeaveflowError::NotFound(m) => {
                push_str(&mut s, "查找失败: ");
                push_str(&mut s, m.as_str());
            },
            WeaveflowError::Operator(m) => {
                push_str(&mut s, "算子错误: ");
                push_str(&mut s, m.as_str());
            },
            WeaveflowError::Io(m) => {
                push_str(&mut s, "IO 错误: ");
                push_str(&mut s, m.as_str());
            },
            WeaveflowError::Database { operation, source } => {
                push_str(&mut s, "数据库错误 — 操作: ");
                push_str(&mut s, operation.as_str());
                push_str(&mut s, ", 原因: ");
                let inner = source.to_text();
                push_str(&mut s, inner.as_str());
            },
            WeaveflowError::BadRequest(m) => {
                push_str(&mut s, "请求参数错误: ");
                push_str(&mut s, m.as_str());
            },
            WeaveflowError::Unavailable(m) => {
                push_str(&mut s, "服务不可用: ");
                push_str(&mut s, m.as_str());
            },
        }
        s
    }

    /// The HTTP status of the daemon's answer (see `error_status`).
    pub fn status(&self) -> (r: u16)
        ensures
            r == error_status(*self),
    {
        match self {
            WeaveflowError::NotFound(_) => 404,
            WeaveflowError::BadRequest(_) => 400,
            WeaveflowError::Parse(_) => 400,
            WeaveflowError::Validation(_) => 400,
            WeaveflowError::Unavailable(_) => 503,
            _ => 500,
        }
    }

    /// The message of the daemon's answer (see `error_reply`).
    pub fn reply(&self) -> (r: String)
        ensures
            r@ == error_reply(*self),
    {
        match self {
            WeaveflowError::NotFound(m) => to_string(m.as_str()),
            WeaveflowError::BadRequest(m) => to_string(m.as_str()),
            WeaveflowError::Parse(m) => to_string(m.as_str()),
            WeaveflowError::Validation(m) => to_string(m.as_str()),
            WeaveflowError::Unavailable(m) => to_string(m.as_str()),
            _ => to_string("internal server error"),
        }
    }

    /// An operator's failure, by its message.
    pub fn from_operator(e: OperatorError) -> (r: WeaveflowError)
        ensures
            r matches WeaveflowError::Operator(m) && m@ == operator_error_text(e),
    {
        WeaveflowError::Operator(e.to_text())
    }
}

} // verus!
