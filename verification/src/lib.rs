//! A small report engine: a quote-aware delimited-text parser, a column
//! extractor for tagged amounts, and a template language with variable
//! substitution and iteration over a dynamically typed data model.

mod csv;
mod items;
mod model;
mod parser;
mod render;
mod template;
mod tokenizer;
mod shims;
mod text;
mod value;

pub use csv::CsvError;
pub use items::CostItem;
pub use items::ExtractError;
pub use items::get_items;
pub use model::Alias;
pub use model::Identifier;
pub use model::Model;
pub use model::Param;
pub use tokenizer::Kind;
pub use tokenizer::Token;
pub use tokenizer::tokenize;
pub use parser::Block;
pub use parser::ForEachBlock;
pub use parser::ParseError;
pub use parser::Scope;
pub use parser::convert_to_blocks;
pub use parser::parse_tokens;
pub use render::RenderError;
pub use template::Template;
pub use csv::parse_csv;
pub use csv::parse_csv_clusters;
pub use value::Member;
pub use value::Value;
