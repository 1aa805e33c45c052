//! Dynamic-SQL templating core: an immutable syntax tree of nodes that is
//! evaluated against a JSON-like environment to produce a parameterized SQL
//! string together with the ordered list of bound argument values.

pub mod delete;
pub mod engine;
pub mod eval;
pub mod html;
pub mod laws;
pub mod node;
pub mod pgcodec;
pub mod proxy;
pub mod pysql;
pub mod snowflake;
pub mod strutil;
pub mod text;
pub mod value;
