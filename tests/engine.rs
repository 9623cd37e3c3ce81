use mylint::{
    default_filter, get_all_validators, rules, walk_nodes, AllRulesValidator, AndFilter,
    CodePosition, CodeRange, ExpectCallValidator, IndexExpressionValidator, NodeIterator,
    NothingFilter, RuleCode, SourceCode, TestModuleFilter, UnwrapCallValidator, ValidationError,
};

const TEST_MODULE_SOURCE: &str = "fn keep() { x.expect(); }\n#[cfg(test)]\nmod tests {\n    fn t() { None.unwrap(); }\n}\nfn after() { y.unwrap(); }\n";

fn parse(source: &str) -> SourceCode {
    match SourceCode::parse(source) {
        Some(s) => s,
        None => panic!("the source does not parse"),
    }
}

fn first_of_kind(source: &SourceCode, kind: &str) -> usize {
    let mut i = 0;
    while i < source.tree.nodes.len() {
        if source.tree.nodes[i].kind == kind {
            return i;
        }
        i += 1;
    }
    panic!("no node of kind {}", kind)
}

fn range(r0: usize, c0: usize, r1: usize, c1: usize) -> CodeRange {
    CodeRange {
        start: CodePosition { row: r0, column: c0 },
        end: CodePosition { row: r1, column: c1 },
    }
}

fn expect_err(res: Result<(), ValidationError>) -> ValidationError {
    match res {
        Err(e) => e,
        Ok(()) => panic!("expected a violation"),
    }
}

#[test]
fn scenario_unwrap_range() {
    let src = "fn test() -> usize { a.unwrap() }";
    let parsed = parse(src);
    let d = AllRulesValidator::with_validators(vec![UnwrapCallValidator], vec![], NothingFilter);
    let err = expect_err(d.validate(&parsed.tree, parsed.get_root_node(), src));
    assert_eq!(err.code_range, range(0, 23, 0, 29));
    assert_eq!(err.rule.code, RuleCode::Unwrap);
    assert_eq!(err.rule.desc, "Unwrap call may panic.");
    assert!(err.rule.hint.is_some());
}

#[test]
fn scenario_index_range() {
    let src = "fn test() -> usize { a[0] }";
    let parsed = parse(src);
    let d = AllRulesValidator::with_validators(vec![IndexExpressionValidator], vec![], NothingFilter);
    let err = expect_err(d.validate(&parsed.tree, 0, src));
    assert_eq!(err.code_range, range(0, 21, 0, 25));
    assert_eq!(err.rule.code, RuleCode::IndexExpression);
}

#[test]
fn scenario_test_module_excluded() {
    let src = "#[cfg(test)]\nmod tests {\n    fn t() { None.unwrap(); }\n}\n";
    let parsed = parse(src);
    let d = AllRulesValidator::with_validators(vec![UnwrapCallValidator], vec![], default_filter());
    assert!(d.validate(&parsed.tree, 0, src).is_ok());
    let d = AllRulesValidator::with_validators(vec![UnwrapCallValidator], vec![], NothingFilter);
    let err = expect_err(d.validate(&parsed.tree, 0, src));
    assert_eq!(err.rule.code, RuleCode::Unwrap);
    assert_eq!(err.code_range, range(2, 18, 2, 24));
}

#[test]
fn scenario_suppressed_unwrap() {
    let src = "fn test() -> usize { a.unwrap() }";
    let parsed = parse(src);
    let d = AllRulesValidator::with_validators(
        vec![UnwrapCallValidator],
        vec![RuleCode::Unwrap.to_string()],
        NothingFilter,
    );
    assert!(d.validate(&parsed.tree, 0, src).is_ok());
    let all = AllRulesValidator::new(vec!["Unwrap".to_string()], NothingFilter);
    assert!(all.validate(&parsed.tree, 0, src).is_ok());
}

#[test]
fn suppression_ignores_case() {
    let src = "fn test() -> usize { a.unwrap() }";
    let parsed = parse(src);
    for name in ["unwrap", "UNWRAP", "UnWrAp"] {
        let d = AllRulesValidator::new(vec![name.to_string()], NothingFilter);
        assert!(d.validate(&parsed.tree, 0, src).is_ok());
    }
    let d = AllRulesValidator::new(vec!["unwraps".to_string()], NothingFilter);
    assert!(d.validate(&parsed.tree, 0, src).is_err());
}

#[test]
fn driver_reports_first_unsuppressed() {
    let src = "fn f() { a.unwrap(); b.expect(\"x\"); c[0]; }";
    let parsed = parse(src);
    let d = AllRulesValidator::new(vec![], NothingFilter);
    assert_eq!(expect_err(d.validate(&parsed.tree, 0, src)).rule.code, RuleCode::Unwrap);
    let d = AllRulesValidator::new(vec!["unwrap".to_string()], NothingFilter);
    assert_eq!(expect_err(d.validate(&parsed.tree, 0, src)).rule.code, RuleCode::Expect);
    let d = AllRulesValidator::new(vec!["unwrap".to_string(), "expect".to_string()], NothingFilter);
    assert_eq!(expect_err(d.validate(&parsed.tree, 0, src)).rule.code, RuleCode::IndexExpression);
    let d = AllRulesValidator::new(
        vec!["unwrap".to_string(), "expect".to_string(), "indexexpression".to_string()],
        NothingFilter,
    );
    assert!(d.validate(&parsed.tree, 0, src).is_ok());
    let d = AllRulesValidator::new(vec!["no_such_rule".to_string()], NothingFilter);
    assert!(d.validate(&parsed.tree, 0, src).is_err());
}

#[test]
fn default_driver_skips_test_modules() {
    let src = "#[cfg(test)]\nmod tests { fn t() { None.unwrap(); } }\n";
    let parsed = parse(src);
    let d = AllRulesValidator::default();
    assert!(d.validate(&parsed.tree, 0, src).is_ok());
}

#[test]
fn walk_keep_all_is_every_node_in_order() {
    let parsed = parse(TEST_MODULE_SOURCE);
    let all = walk_nodes(&parsed.tree, 0, TEST_MODULE_SOURCE, &NothingFilter);
    let expected: Vec<usize> = (0..parsed.tree.len()).collect();
    assert_eq!(all, expected);
    let mut it = NodeIterator::new(&parsed.tree, 0, TEST_MODULE_SOURCE, &NothingFilter);
    let mut count = 0;
    while let Some(j) = it.next() {
        assert_eq!(j, count);
        count += 1;
    }
    assert_eq!(count, parsed.tree.len());
    assert_eq!(it.next(), None);
}

#[test]
fn walk_refusing_root_is_empty() {
    let parsed = parse(TEST_MODULE_SOURCE);
    let m = first_of_kind(&parsed, "mod_item");
    let walked = walk_nodes(&parsed.tree, m, TEST_MODULE_SOURCE, &TestModuleFilter);
    assert!(walked.is_empty());
}

#[test]
fn walk_excludes_exactly_the_test_module() {
    let parsed = parse(TEST_MODULE_SOURCE);
    let m = first_of_kind(&parsed, "mod_item");
    let end = parsed.tree.subtree_end(m);
    let all = walk_nodes(&parsed.tree, 0, TEST_MODULE_SOURCE, &NothingFilter);
    let kept = walk_nodes(&parsed.tree, 0, TEST_MODULE_SOURCE, &TestModuleFilter);
    let expected: Vec<usize> = all.into_iter().filter(|j| *j < m || *j >= end).collect();
    assert_eq!(kept, expected);
    assert!(end < parsed.tree.len());
}

#[test]
fn walk_of_subtree_stays_inside() {
    let parsed = parse(TEST_MODULE_SOURCE);
    let f = first_of_kind(&parsed, "function_item");
    let end = parsed.tree.subtree_end(f);
    let walked = walk_nodes(&parsed.tree, f, TEST_MODULE_SOURCE, &NothingFilter);
    let expected: Vec<usize> = (f..end).collect();
    assert_eq!(walked, expected);
}

#[test]
fn empty_conjunction_keeps_everything() {
    let parsed = parse(TEST_MODULE_SOURCE);
    let none: AndFilter<TestModuleFilter> = AndFilter::new(vec![]);
    let a = walk_nodes(&parsed.tree, 0, TEST_MODULE_SOURCE, &none);
    let b = walk_nodes(&parsed.tree, 0, TEST_MODULE_SOURCE, &NothingFilter);
    assert_eq!(a, b);
}

#[test]
fn conjunction_stops_at_first_refusal() {
    let parsed = parse(TEST_MODULE_SOURCE);
    let m = first_of_kind(&parsed, "mod_item");
    let two = AndFilter::new(vec![TestModuleFilter, TestModuleFilter]);
    assert_eq!(two.first_refusing(&parsed.tree, m, TEST_MODULE_SOURCE), Some(0));
    assert_eq!(two.first_refusing(&parsed.tree, 0, TEST_MODULE_SOURCE), None);
    let d = AllRulesValidator::with_validators(vec![ExpectCallValidator], vec![], default_filter());
    assert_eq!(expect_err(d.validate(&parsed.tree, 0, TEST_MODULE_SOURCE)).rule.code, RuleCode::Expect);
}

#[test]
fn tree_shape_is_consistent() {
    let parsed = parse(TEST_MODULE_SOURCE);
    let t = &parsed.tree;
    assert_eq!(t.parent(0), None);
    assert_eq!(t.subtree_end(0), t.len());
    for i in 1..t.len() {
        let p = t.parent(i).unwrap_or(usize::MAX);
        assert!(p < i && i < t.subtree_end(p));
    }
    assert_eq!(t.node(0).kind, "source_file");
}

#[test]
fn catalog_lists_every_rule() {
    let all = rules();
    assert_eq!(all.len(), 5);
    assert_eq!(all[0].code, RuleCode::Unsafe);
    assert_eq!(all[4].code, RuleCode::IndexExpression);
    assert_eq!(all[0].desc, "Unsafe keyword is forbidden.");
    assert!(all[0].hint.is_none());
    assert_eq!(RuleCode::UseUnsafe.to_string(), "UseUnsafe");
    assert_eq!(RuleCode::IndexExpression.rule().desc, "index operation may panic, use get method instead.");
    assert_eq!(get_all_validators().len(), 5);
}

#[test]
fn deeply_nested_source_is_copied_whole() {
    let depth = 6000;
    let mut src = String::from("fn f() -> usize { ");
    for _ in 0..depth {
        src.push('(');
    }
    src.push_str("a.unwrap()");
    for _ in 0..depth {
        src.push(')');
    }
    src.push_str(" }");
    let parsed = parse(&src);
    assert!(parsed.tree.len() > depth);
    let d = AllRulesValidator::with_validators(vec![UnwrapCallValidator], vec![], NothingFilter);
    let err = expect_err(d.validate(&parsed.tree, 0, &src));
    assert_eq!(err.rule.code, RuleCode::Unwrap);
    assert_eq!(err.code_range.start.column, 18 + depth + 2);
}
