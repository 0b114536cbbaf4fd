//! Tokenizing text at Unicode word boundaries, and expanding contractions.

pub mod contraction_expander;
pub mod lexer;
pub mod stream;
pub mod unicode_base_lexer;
