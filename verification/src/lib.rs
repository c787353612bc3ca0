//! Core logic of a client-rendered blog: a query parser that turns a free-text
//! search pattern into structured criteria, an in-memory article index with
//! filtering and pagination, and a Markdown rendering pipeline that rewrites
//! asset links and hands code blocks and math spans to external capabilities.

pub mod cmark;
pub mod criteria;
pub mod index;
pub mod markdown;
pub mod site;
pub mod text;
