use construstor::{
    summarize, AnalysisResult, ConstructorAnalyzer, ConstructorAnalyzerError, FunctionType,
    ValidationType,
};

fn pair(t: &str, n: &str) -> (String, String) {
    (t.to_string(), n.to_string())
}

fn analyze(contents: &str, all: bool) -> Vec<AnalysisResult> {
    let analyzer = ConstructorAnalyzer::new().unwrap();
    analyzer.analyze_source(&"Test.sol".to_string(), contents, all)
}

#[test]
fn merged_checks_keep_first_seen_order() {
    let analyzer = ConstructorAnalyzer::new().unwrap();
    let code = "if (_owner == address(0)) revert(); require(_token != address(0));";
    assert_eq!(analyzer.extract_require_checked_variables(code), vec!["_token"]);
    let result = analyzer.analyze_function(
        FunctionType::Constructor,
        "Test.sol".to_string(),
        "address _owner, address _token",
        code,
    );
    assert_eq!(result.validated_variables, vec!["_owner", "_token"]);
    assert!(result.missing_validations.is_empty());
    assert_eq!(
        result.validation_types,
        vec![ValidationType::EqualityCheck, ValidationType::RequireStatement]
    );
}

#[test]
fn comparison_inside_require_counts_as_equality_too() {
    let analyzer = ConstructorAnalyzer::new().unwrap();
    let result = analyzer.analyze_function(
        FunctionType::Constructor,
        "Test.sol".to_string(),
        "address _owner, address _token",
        "require(_owner != address(0), \"Invalid owner\");",
    );
    assert_eq!(result.missing_validations, vec!["_token"]);
    assert_eq!(
        result.validation_types,
        vec![ValidationType::EqualityCheck, ValidationType::RequireStatement]
    );
}

#[test]
fn regular_function_reported_only_in_all_mode() {
    let src = "contract C {\n    function transfer(address _to, uint256 _amount) public {\n        balances[_to] += _amount;\n    }\n}";
    assert!(analyze(src, false).is_empty());
    let results = analyze(src, true);
    assert_eq!(results.len(), 1);
    let r = &results[0];
    assert_eq!(r.function_type, FunctionType::Regular("transfer".to_string()));
    assert_eq!(r.file_name, "Test.sol");
    assert_eq!(r.arguments, "address _to, uint256 _amount");
    assert_eq!(
        r.code,
        "function transfer(address _to, uint256 _amount) {\nbalances[_to] += _amount;\n}"
    );
    assert_eq!(r.address_arguments, vec![pair("address", "_to")]);
    assert_eq!(r.missing_validations, vec!["_to"]);
    assert!(r.validation_types.is_empty());
}

#[test]
fn function_without_address_parameters_is_not_reported() {
    assert!(analyze("function setValue(uint256 v) public { value = v; }", true).is_empty());
}

#[test]
fn body_ends_at_first_closing_brace() {
    let src = "constructor(address _a, address _b) {\n    if (_a == address(0)) { revert(); }\n    require(_b != address(0));\n}";
    let results = analyze(src, false);
    assert_eq!(results.len(), 1);
    let r = &results[0];
    assert_eq!(r.function_type, FunctionType::Constructor);
    assert_eq!(
        r.code,
        "constructor(address _a, address _b) {\nif (_a == address(0)) { revert();\n}"
    );
    assert_eq!(r.validated_variables, vec!["_a"]);
    assert_eq!(r.missing_validations, vec!["_b"]);
    assert_eq!(r.validation_types, vec![ValidationType::EqualityCheck]);
}

#[test]
fn constructor_with_modifier_before_brace_is_not_matched() {
    let src = "constructor(address _a) public { require(_a != address(0)); }";
    assert!(analyze(src, false).is_empty());
}

#[test]
fn initializer_reported_once_in_all_mode() {
    let src = "function initialize(address _owner) external initializer {\n    require(_owner != address(0), \"zero\");\n}";
    for all in [false, true] {
        let results = analyze(src, all);
        assert_eq!(results.len(), 1);
        let r = &results[0];
        assert_eq!(r.function_type, FunctionType::Initialize);
        assert_eq!(r.arguments, "address _owner");
        assert_eq!(
            r.code,
            "function initialize(address _owner) {\nrequire(_owner != address(0), \"zero\");\n}"
        );
        assert_eq!(r.validated_variables, vec!["_owner"]);
        assert!(r.missing_validations.is_empty());
    }
}

#[test]
fn constructors_come_before_initializers() {
    let src = "function initialize(address _y) public {}\nconstructor(address _x) {}";
    let results = analyze(src, false);
    assert_eq!(results.len(), 2);
    assert_eq!(results[0].function_type, FunctionType::Constructor);
    assert_eq!(results[0].missing_validations, vec!["_x"]);
    assert_eq!(results[1].function_type, FunctionType::Initialize);
    assert_eq!(results[1].missing_validations, vec!["_y"]);
}

#[test]
fn require_argument_is_trimmed() {
    let analyzer = ConstructorAnalyzer::new().unwrap();
    let code = "require( msg.sender != address(0));";
    assert_eq!(analyzer.extract_require_checked_variables(code), vec!["msg.sender"]);
    assert_eq!(analyzer.extract_equality_checked_variables(code), vec!["sender"]);
}

#[test]
fn require_with_blank_argument_gives_empty_name() {
    let analyzer = ConstructorAnalyzer::new().unwrap();
    let code = "require( == address(0));";
    assert_eq!(analyzer.extract_require_checked_variables(code), vec![""]);
    assert!(analyzer.extract_equality_checked_variables(code).is_empty());
}

#[test]
fn address_type_without_location_takes_next_word() {
    let analyzer = ConstructorAnalyzer::new().unwrap();
    assert_eq!(
        analyzer.extract_address_arguments("address payable _x"),
        vec![pair("address", "payable")]
    );
    assert_eq!(
        analyzer.extract_address_arguments("uint a, address memory"),
        vec![pair("address", "memory")]
    );
    assert!(analyzer.extract_address_arguments("").is_empty());
    assert!(analyzer.extract_address_arguments("address[]_x").is_empty());
}

#[test]
fn captured_names_stand_in_parameter_text() {
    let analyzer = ConstructorAnalyzer::new().unwrap();
    let args = "address  _a,address[] memory\t_list, uint256 n, address calldata _c";
    let result = analyzer.extract_address_arguments(args);
    assert_eq!(result.len(), 3);
    for (ty, name) in &result {
        assert!(args.contains(name.as_str()));
        assert!(args.contains(ty.as_str()));
    }
}

#[test]
fn repeated_checks_are_listed_once() {
    let analyzer = ConstructorAnalyzer::new().unwrap();
    let code = "require(_a != address(0)); require(_a != address(0)); if (_a == address(0)) {}";
    assert_eq!(analyzer.extract_equality_checked_variables(code), vec!["_a"]);
    assert_eq!(analyzer.extract_require_checked_variables(code), vec!["_a"]);
    let result = analyzer.analyze_function(
        FunctionType::Constructor,
        "Test.sol".to_string(),
        "address _a, address _a",
        "require(_a != address(0)); if (_a == address(0)) revert(); require(_a != address(0));",
    );
    assert_eq!(result.validated_variables, vec!["_a"]);
    assert_eq!(result.address_arguments.len(), 2);
    assert!(result.missing_validations.is_empty());
}

#[test]
fn missing_names_keep_parameter_order() {
    let analyzer = ConstructorAnalyzer::new().unwrap();
    let result = analyzer.analyze_function(
        FunctionType::Constructor,
        "Test.sol".to_string(),
        "address _c, address _b, address _a",
        "constructor() { require(_b != address(0)); }",
    );
    assert_eq!(result.validated_variables, vec!["_b"]);
    assert_eq!(result.missing_validations, vec!["_c", "_a"]);
}

#[test]
fn classification_is_repeatable() {
    let analyzer = ConstructorAnalyzer::new().unwrap();
    let run = || {
        analyzer.analyze_function(
            FunctionType::Regular("f".to_string()),
            "X.sol".to_string(),
            "address _a, address _b",
            "function f(address _a, address _b) {\nif (_a == address(0)) revert();\n}",
        )
    };
    let (a, b) = (run(), run());
    assert_eq!(a.function_type, b.function_type);
    assert_eq!(a.code, b.code);
    assert_eq!(a.address_arguments, b.address_arguments);
    assert_eq!(a.validated_variables, b.validated_variables);
    assert_eq!(a.missing_validations, b.missing_validations);
    assert_eq!(a.validation_types, b.validation_types);
}

#[test]
fn results_of_several_files_keep_file_order() {
    let analyzer = ConstructorAnalyzer::new().unwrap();
    let files = vec![
        (
            "A.sol".to_string(),
            "constructor(address _x) {\n}\nfunction initialize(address _y) public {\n}".to_string(),
        ),
        (
            "B.sol".to_string(),
            "constructor(address _z) { require(_z != address(0)); }".to_string(),
        ),
    ];
    let results = analyzer.analyze_sources(&files, false);
    assert_eq!(results.len(), 3);
    assert_eq!(results[0].file_name, "A.sol");
    assert_eq!(results[0].code, "constructor(address _x) {\n\n}");
    assert_eq!(results[0].missing_validations, vec!["_x"]);
    assert_eq!(results[1].file_name, "A.sol");
    assert_eq!(results[1].function_type, FunctionType::Initialize);
    assert_eq!(results[2].file_name, "B.sol");
    assert!(results[2].missing_validations.is_empty());

    let s = summarize(&results);
    assert_eq!(s.total, 3);
    assert_eq!(s.with_address_arguments, 3);
    assert_eq!(s.fully_validated, 1);
    assert_eq!(s.partially_validated, 0);
    assert_eq!(s.unvalidated, 2);
}

#[test]
fn summary_counts_partial_validation() {
    let analyzer = ConstructorAnalyzer::new().unwrap();
    let partial = analyzer.analyze_function(
        FunctionType::Constructor,
        "P.sol".to_string(),
        "address _a, address _b",
        "require(_a != address(0));",
    );
    let none = analyzer.analyze_function(
        FunctionType::Constructor,
        "N.sol".to_string(),
        "uint256 x",
        "x = 1;",
    );
    let s = summarize(&vec![partial, none]);
    assert_eq!(s.total, 2);
    assert_eq!(s.with_address_arguments, 1);
    assert_eq!(s.fully_validated, 0);
    assert_eq!(s.partially_validated, 1);
    assert_eq!(s.unvalidated, 0);
    assert_eq!(summarize(&Vec::new()).total, 0);
}

#[test]
fn body_between_outer_braces_is_scanned() {
    let analyzer = ConstructorAnalyzer::new().unwrap();
    let result = analyzer.analyze_function(
        FunctionType::Constructor,
        "T.sol".to_string(),
        "address _a",
        "_a == address(0) } constructor() { x = 1; }",
    );
    assert!(result.validated_variables.is_empty());
    let whole = analyzer.analyze_function(
        FunctionType::Constructor,
        "T.sol".to_string(),
        "address _a",
        "} _a == address(0) {",
    );
    assert_eq!(whole.validated_variables, vec!["_a"]);
}

#[test]
fn error_messages() {
    assert_eq!(
        ConstructorAnalyzerError::NotFound("x/y".to_string()).message(),
        "Path not found: x/y"
    );
    assert_eq!(
        ConstructorAnalyzerError::IoError("denied".to_string()).message(),
        "IO error: denied"
    );
}
