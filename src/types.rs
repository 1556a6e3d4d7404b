//! The values that an analysis produces, and their mathematical views.

use vstd::prelude::*;

verus! {

/// Failures of an analysis run.
#[derive(Debug, Clone, PartialEq, Eq)]
pub enum ConstructorAnalyzerError {
    /// A file exists but could not be read.
    IoError(String),
    /// The path to analyze does not exist.
    NotFound(String),
}

impl ConstructorAnalyzerError {
    /// A one-line description of the failure.
    pub fn message(&self) -> (r: String)
        ensures
            r@ == match self {
                ConstructorAnalyzerError::IoError(m) => seq!['I', 'O', ' ', 'e', 'r', 'r', 'o', 'r', ':', ' '] + m@,
                ConstructorAnalyzerError::NotFound(p) => seq!['P', 'a', 't', 'h', ' ', 'n', 'o', 't', ' ', 'f', 'o', 'u', 'n', 'd', ':', ' '] + p@,
            },
    {
        match self {
            ConstructorAnalyzerError::IoError(m) => {
                let mut r = String::from_str("IO error: ");
                proof {
                    reveal_strlit("IO error: ");
                }
                r.append(m.as_str());
                r
            },
            ConstructorAnalyzerError::NotFound(p) => {
                let mut r = String::from_str("Path not found: ");
                proof {
                    reveal_strlit("Path not found: ");
                }
                r.append(p.as_str());
                r
            },
        }
    }
}

/// The kind of function unit that a result describes.
#[derive(Debug, Clone, PartialEq, Eq)]
pub enum FunctionType {
    Constructor,
    Initialize,
    /// Any other function, by name.
    Regular(String),
}

pub enum FunctionKindView {
    Constructor,
    Initialize,
    Regular(Seq<char>),
}

impl View for FunctionType {
    type V = FunctionKindView;

    open spec fn view(&self) -> FunctionKindView {
        match self {
            FunctionType::Constructor => FunctionKindView::Constructor,
            FunctionType::Initialize => FunctionKindView::Initialize,
            FunctionType::Regular(n) => FunctionKindView::Regular(n@),
        }
    }
}

/// How a zero-address check was written.
#[derive(Debug, Clone, Copy, PartialEq, Eq, Structural)]
pub enum ValidationType {
    /// `x == address(0)` or `x != address(0)`.
    EqualityCheck,
    /// `require(x == address(0) ...)` or `require(x != address(0) ...)`.
    RequireStatement,
}

/// The analysis of one function unit.
#[derive(Debug, Clone)]
pub struct AnalysisResult {
    pub function_type: FunctionType,
    /// Base name of the file the function was found in.
    pub file_name: String,
    /// The parameter list as written.
    pub arguments: String,
    /// The function as reconstructed from its signature and body.
    pub code: String,
    /// Address parameters: declared type and name, in declaration order.
    pub address_arguments: Vec<(String, String)>,
    /// Variables checked against the zero address, in order of first check.
    pub validated_variables: Vec<String>,
    /// Address parameters that no check covers, in declaration order.
    pub missing_validations: Vec<String>,
    /// The kinds of check found.
    pub validation_types: Vec<ValidationType>,
}

pub struct AnalysisView {
    pub kind: FunctionKindView,
    pub file_name: Seq<char>,
    pub arguments: Seq<char>,
    pub code: Seq<char>,
    pub address_arguments: Seq<(Seq<char>, Seq<char>)>,
    pub validated: Seq<Seq<char>>,
    pub missing: Seq<Seq<char>>,
    pub tags: Seq<ValidationType>,
}

impl View for AnalysisResult {
    type V = AnalysisView;

    open spec fn view(&self) -> AnalysisView {
        AnalysisView {
            kind: self.function_type@,
            file_name: self.file_name@,
            arguments: self.arguments@,
            code: self.code@,
            address_arguments: self.address_arguments.deep_view(),
            validated: self.validated_variables.deep_view(),
            missing: self.missing_validations.deep_view(),
            tags: self.validation_types@,
        }
    }
}

/// Options of a command-line run.
#[derive(Debug, Clone)]
pub struct CliConfig {
    /// File or directory to analyze.
    pub input_path: String,
    /// Print only the summary counts.
    pub summary_only: bool,
    /// Print the results as JSON.
    pub json_output: bool,
    /// Analyze every function with address parameters, not only
    /// constructors and initializers.
    pub all_functions: bool,
}

} // verus!
