//! Detection of zero-address validation of address parameters in
//! constructors, initializer functions and other functions of contract
//! source text.

pub mod analyzer;
pub mod locator;
pub mod rules;
pub mod summary;
pub mod text;
pub mod types;

pub use analyzer::ConstructorAnalyzer;
pub use summary::{summarize, Summary};
pub use types::{AnalysisResult, CliConfig, ConstructorAnalyzerError, FunctionType, ValidationType};
