use construstor::{ConstructorAnalyzer, FunctionType, ValidationType};

fn pair(t: &str, n: &str) -> (String, String) {
    (t.to_string(), n.to_string())
}

#[test]
fn test_extract_address_arguments() {
    let analyzer = ConstructorAnalyzer::new().unwrap();
    let args = "address _owner, uint256 _amount, address _token";
    let result = analyzer.extract_address_arguments(args);
    assert_eq!(
        result,
        vec![pair("address", "_owner"), pair("address", "_token")]
    );
}

#[test]
fn test_extract_address_arguments_with_arrays() {
    let analyzer = ConstructorAnalyzer::new().unwrap();
    let args = "address _owner, address[] memory _addresses, uint256 _amount, address[] calldata _tokens";
    let result = analyzer.extract_address_arguments(args);
    assert_eq!(
        result,
        vec![
            pair("address", "_owner"),
            pair("address[] memory", "_addresses"),
            pair("address[] calldata", "_tokens")
        ]
    );
}

#[test]
fn test_extract_address_arguments_with_storage_keywords() {
    let analyzer = ConstructorAnalyzer::new().unwrap();
    let args = "address storage _owner, address[] storage _addresses, address calldata _token";
    let result = analyzer.extract_address_arguments(args);
    assert_eq!(
        result,
        vec![
            pair("address storage", "_owner"),
            pair("address[] storage", "_addresses"),
            pair("address calldata", "_token")
        ]
    );
}

#[test]
fn test_extract_equality_checked_variables() {
    let analyzer = ConstructorAnalyzer::new().unwrap();
    let code = "if (_owner == address(0)) revert(); require(_token != address(0));";
    let result = analyzer.extract_equality_checked_variables(code);
    assert_eq!(result, vec!["_owner", "_token"]);
}

#[test]
fn test_extract_require_checked_variables() {
    let analyzer = ConstructorAnalyzer::new().unwrap();
    let code = "require(_owner != address(0), \"Invalid owner\"); require(_token == address(0));";
    let result = analyzer.extract_require_checked_variables(code);
    assert_eq!(result, vec!["_owner", "_token"]);
}

#[test]
fn test_analyze_function_with_missing_validation() {
    let analyzer = ConstructorAnalyzer::new().unwrap();
    let result = analyzer.analyze_function(
        FunctionType::Constructor,
        "Test.sol".to_string(),
        "address _owner, address _token",
        "require(_owner != address(0), \"Invalid owner\");",
    );
    assert_eq!(
        result.address_arguments,
        vec![pair("address", "_owner"), pair("address", "_token")]
    );
    assert_eq!(result.validated_variables, vec!["_owner"]);
    assert_eq!(result.missing_validations, vec!["_token"]);
    assert!(result.validation_types.contains(&ValidationType::RequireStatement));
}

#[test]
fn test_analyze_function_fully_validated() {
    let analyzer = ConstructorAnalyzer::new().unwrap();
    let result = analyzer.analyze_function(
        FunctionType::Initialize,
        "Test.sol".to_string(),
        "address _owner, address _token",
        "require(_owner != address(0)); if (_token == address(0)) revert();",
    );
    assert_eq!(
        result.address_arguments,
        vec![pair("address", "_owner"), pair("address", "_token")]
    );
    assert_eq!(result.validated_variables, vec!["_owner", "_token"]);
    assert!(result.missing_validations.is_empty());
    assert!(result.validation_types.contains(&ValidationType::RequireStatement));
    assert!(result.validation_types.contains(&ValidationType::EqualityCheck));
}

#[test]
fn test_analyze_regular_function() {
    let analyzer = ConstructorAnalyzer::new().unwrap();
    let result = analyzer.analyze_function(
        FunctionType::Regular("transfer".to_string()),
        "Test.sol".to_string(),
        "address _to, uint256 _amount",
        "balances[_to] += _amount;",
    );
    assert_eq!(result.address_arguments, vec![pair("address", "_to")]);
    assert!(result.validated_variables.is_empty());
    assert_eq!(result.missing_validations, vec!["_to"]);
    assert!(result.validation_types.is_empty());
}

#[test]
fn test_analyze_regular_function_with_validation() {
    let analyzer = ConstructorAnalyzer::new().unwrap();
    let result = analyzer.analyze_function(
        FunctionType::Regular("setOwner".to_string()),
        "Test.sol".to_string(),
        "address _newOwner",
        "require(_newOwner != address(0), \"Invalid owner\"); owner = _newOwner;",
    );
    assert_eq!(result.address_arguments, vec![pair("address", "_newOwner")]);
    assert_eq!(result.validated_variables, vec!["_newOwner"]);
    assert!(result.missing_validations.is_empty());
    assert!(result.validation_types.contains(&ValidationType::RequireStatement));
}
