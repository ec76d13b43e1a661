//! A catalog of downloadable content, organised as a tree of documents and
//! categories, together with the rules that sort raw catalog records into it.

pub mod category;
pub mod grouping;
pub mod laws;
pub mod order;
pub mod page;
pub mod parsing;
pub mod parsing_laws;
pub mod routing;
pub mod text;
pub mod types;
