//! Quest logs: a line-oriented quest description is parsed into a sequence of
//! stages and rendered as an HTML fragment.

pub mod grammar;
pub mod parser;
pub mod quest;
pub mod render;
pub mod tokens;
