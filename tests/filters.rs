use mylint::{validate, NothingFilter, RuleCode, TestModuleFilter, UnwrapCallValidator};

#[test]
fn test_tests_module() {
    let source_code = r#"
            #[cfg(test)]
            mod tests {
                #[test]
                fn test_key_exists() {
                    None.unwrap();
                }
            }
        "#;
    let res = validate(source_code, UnwrapCallValidator, TestModuleFilter);
    assert!(matches!(res, Some(Ok(()))));

    let res = validate(source_code, UnwrapCallValidator, NothingFilter);
    match res {
        Some(Err(err)) => assert_eq!(err.rule.code, RuleCode::Unwrap),
        other => panic!("assertion failed: {:?} does not match Err()", other),
    }
}

#[test]
fn test_contains_tests_module() {
    let source_code = r#"
            #[cfg(some_attr, test)]
            mod tests {
                #[test]
                fn test_key_exists() {
                    None.unwrap();
                }
            }
        "#;
    let res = validate(source_code, UnwrapCallValidator, TestModuleFilter);
    assert!(matches!(res, Some(Ok(()))));

    let res = validate(source_code, UnwrapCallValidator, NothingFilter);
    match res {
        Some(Err(err)) => assert_eq!(err.rule.code, RuleCode::Unwrap),
        other => panic!("assertion failed: {:?} does not match Err()", other),
    }
}

#[test]
fn test_normal_module() {
    let source_code = r#"
            #[cfg(some_attr)]
            mod tests {
                fn test_key_exists() {
                    None.unwrap();
                }
            }
        "#;
    let res = validate(source_code, UnwrapCallValidator, TestModuleFilter);
    match res {
        Some(Err(err)) => assert_eq!(err.rule.code, RuleCode::Unwrap),
        other => panic!("assertion failed: {:?} does not match Err()", other),
    }
}

#[test]
fn uppercase_cfg_test_module_is_excluded() {
    let source_code = "#[CFG(TEST)]\nmod tests { fn f() { None.unwrap(); } }\n";
    let res = validate(source_code, UnwrapCallValidator, TestModuleFilter);
    assert!(matches!(res, Some(Ok(()))));
}

#[test]
fn test_attribute_not_on_module_is_ignored() {
    let source_code = "#[cfg(test)]\nfn f() { None.unwrap(); }\n";
    let res = validate(source_code, UnwrapCallValidator, TestModuleFilter);
    assert!(matches!(res, Some(Err(_))));
}

#[test]
fn test_after_literal_argument_is_excluded() {
    let source_code = "#[cfg(\"x\", test)]\nmod m { fn f() { None.unwrap(); } }\n";
    let res = validate(source_code, UnwrapCallValidator, TestModuleFilter);
    assert!(matches!(res, Some(Ok(()))));
}

#[test]
fn test_after_comment_argument_is_excluded() {
    let source_code = "#[cfg(/* c */ test)]\nmod m { fn f() { None.unwrap(); } }\n";
    let res = validate(source_code, UnwrapCallValidator, TestModuleFilter);
    assert!(matches!(res, Some(Ok(()))));
}

#[test]
fn test_under_other_attribute_is_kept() {
    let source_code = "#[allow(test)]\nmod m { fn f() { None.unwrap(); } }\n";
    let res = validate(source_code, UnwrapCallValidator, TestModuleFilter);
    assert!(matches!(res, Some(Err(_))));
}
