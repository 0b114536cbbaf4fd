//! Text-preprocessing primitives: a word-boundary tokenizer with byte offsets,
//! an English clitic expander, and a grapheme-level edit distance.

pub mod edit_script;
pub mod matrix;
pub mod minimum_edit_distance;
pub mod segmentation;
pub mod text;
pub mod tokenize;
