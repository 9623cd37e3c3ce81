use mylint::{
    validate, ExpectCallValidator, IndexExpressionValidator, NothingFilter, RuleCode,
    UnsafeCodeValidator, UnwrapCallValidator, UseUnsafeValidator, ValidationError, Validator,
    Filter,
};

fn assert_source_ok<V: Validator, F: Filter>(source_code: &str, validator: V, filter: F) {
    let res = validate(source_code, validator, filter);
    assert!(matches!(res, Some(Ok(()))));
}

fn assert_err<V: Validator, F: Filter>(source_code: &str, validator: V, filter: F) -> ValidationError {
    match validate(source_code, validator, filter) {
        Some(Err(err)) => err,
        other => panic!("assertion failed: {:?} does not match Err()", other),
    }
}

#[test]
fn test_no_expect_call() {
    let source_code = "fn test() -> usize { a.no_expect_call() }";
    assert_source_ok(source_code, ExpectCallValidator, NothingFilter);
}

#[test]
fn test_expect_call() {
    let source_code = "fn test() -> usize { a.expect() }";
    let err = assert_err(source_code, ExpectCallValidator, NothingFilter);
    assert_eq!(err.rule.code, RuleCode::Expect);
}

#[test]
fn test_no_index_expression() {
    let source_code = "fn test() -> usize { let a = [0]; 233 }";
    assert_source_ok(source_code, IndexExpressionValidator, NothingFilter);
}

#[test]
fn test_index_expression() {
    let source_code = "fn test() -> usize { let a = [0]; a[0] }";
    let err = assert_err(source_code, IndexExpressionValidator, NothingFilter);
    assert_eq!(err.rule.code, RuleCode::IndexExpression);
}

#[test]
fn test_no_unsafe() {
    let source_code = "fn test() -> usize { let a = [0]; 233 }";
    assert_source_ok(source_code, UnsafeCodeValidator, NothingFilter);
}

#[test]
fn test_unsafe_block() {
    let source_code = "fn test() -> usize { unsafe { 233 } }";
    let err = assert_err(source_code, UnsafeCodeValidator, NothingFilter);
    assert_eq!(err.rule.code, RuleCode::Unsafe);
}

#[test]
fn test_unsafe_func() {
    let source_code = "unsafe async fn test() -> usize { 233 }";
    let err = assert_err(source_code, UnsafeCodeValidator, NothingFilter);
    assert_eq!(err.rule.code, RuleCode::Unsafe);
}

#[test]
fn test_no_unwrap_call() {
    let source_code = "fn test() -> usize { a.no_wrap_call() }";
    assert_source_ok(source_code, UnwrapCallValidator, NothingFilter);
}

#[test]
fn test_unwrap_call() {
    let source_code = "fn test() -> usize { a.unwrap() }";
    let err = assert_err(source_code, UnwrapCallValidator, NothingFilter);
    assert_eq!(err.rule.code, RuleCode::Unwrap);
}

#[test]
fn test_no_unsafe_ident() {
    let source_code = "fn test() -> usize { let a = [0]; 233 }";
    assert_source_ok(source_code, UseUnsafeValidator, NothingFilter);
}

#[test]
fn test_unsafe_call() {
    let source_code = "fn test() -> usize { unsafe_func() }";
    let err = assert_err(source_code, UseUnsafeValidator, NothingFilter);
    assert_eq!(err.rule.code, RuleCode::UseUnsafe);
}

#[test]
fn test_unsafe_macro() {
    let source_code = "fn test() -> usize { unsafe_macro!() }";
    let err = assert_err(source_code, UseUnsafeValidator, NothingFilter);
    assert_eq!(err.rule.code, RuleCode::UseUnsafe);
}

#[test]
fn uppercase_unwrap_is_flagged() {
    let source_code = "fn test() -> usize { a.UNWRAP() }";
    let err = assert_err(source_code, UnwrapCallValidator, NothingFilter);
    assert_eq!(err.rule.code, RuleCode::Unwrap);
}

#[test]
fn mixed_case_unsafe_identifier_is_flagged() {
    let source_code = "fn test() -> usize { call_UnSafe_thing() }";
    let err = assert_err(source_code, UseUnsafeValidator, NothingFilter);
    assert_eq!(err.rule.code, RuleCode::UseUnsafe);
    assert_eq!(err.code_range.start.column, 21);
    assert_eq!(err.code_range.end.column, 38);
}

#[test]
fn identifier_without_unsafe_is_not_flagged() {
    let source_code = "fn test() -> usize { safe_call() }";
    assert_source_ok(source_code, UseUnsafeValidator, NothingFilter);
}

#[test]
fn unwrap_after_multibyte_text_is_flagged() {
    let source_code = "fn test() -> usize { let s = \"héllo ✓\"; a.unwrap() }";
    let err = assert_err(source_code, UnwrapCallValidator, NothingFilter);
    assert_eq!(err.rule.code, RuleCode::Unwrap);
}
