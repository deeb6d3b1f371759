//! A rule-based word tokenizer: whitespace segmentation, then protected
//! candidates, infix splitting and prefix / suffix stripping.
pub mod laws;
pub mod progress;
pub mod rules;
pub mod token;
pub mod tokenizer;
pub mod whitespace;

pub use progress::{Progress, Report};
pub use token::{Text, Token};
pub use tokenizer::{PatternError, Tokenizer};
pub use whitespace::{WhitespaceIterator, WhitespaceTokenizer};
