//! The pipeline DSL: variable paths, templates, step definitions, their
//! conversion from the raw YAML form, and validation.

pub mod variable;
pub mod schema;
pub mod step;
pub mod storage;
pub mod refs;
pub mod pipeline;
pub mod validator;
pub mod unread;
pub mod raw;
pub mod inputs;
pub mod parser;
