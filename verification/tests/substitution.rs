//! Tests of the variable-substitution engine.

use scaffold::assignment::Assignment;
use scaffold::subst::substitute_variables;
use scaffold::validate::{find_tokens, missing_from};

#[test]
fn test_substitute_variables_basic() {
    let mut vars = Assignment::new();
    vars.insert(b"name".to_vec(), b"test".to_vec());
    let result = substitute_variables(&b"Hello {{name}}".to_vec(), &vars);
    assert_eq!(result, b"Hello test".to_vec());
}

#[test]
fn test_substitute_variables_spaced() {
    let mut vars = Assignment::new();
    vars.insert(b"name".to_vec(), b"test".to_vec());
    let result = substitute_variables(&b"Hello {{ name }}".to_vec(), &vars);
    assert_eq!(result, b"Hello test".to_vec());
}

#[test]
fn test_substitute_variables_multiple() {
    let mut vars = Assignment::new();
    vars.insert(b"name".to_vec(), b"myapp".to_vec());
    vars.insert(b"author".to_vec(), b"John".to_vec());
    let result = substitute_variables(&b"{{name}} by {{author}}".to_vec(), &vars);
    assert_eq!(result, b"myapp by John".to_vec());
}

#[test]
fn test_substitute_variables_no_match() {
    let vars = Assignment::new();
    let result = substitute_variables(&b"Hello {{name}}".to_vec(), &vars);
    assert_eq!(result, b"Hello {{name}}".to_vec());
}

#[test]
fn test_substitute_not_a_token() {
    // A space inside the identifier, or a lone brace, is not a token.
    let mut vars = Assignment::new();
    vars.insert(b"a".to_vec(), b"X".to_vec());
    vars.insert(b"a b".to_vec(), b"Y".to_vec());
    assert_eq!(
        substitute_variables(&b"{{a b}}".to_vec(), &vars),
        b"{{a b}}".to_vec()
    );
    assert_eq!(substitute_variables(&b"{a}".to_vec(), &vars), b"{a}".to_vec());
    assert_eq!(substitute_variables(&b"{{a}".to_vec(), &vars), b"{{a}".to_vec());
}

#[test]
fn test_substitute_adjacent_tokens() {
    let mut vars = Assignment::new();
    vars.insert(b"a".to_vec(), b"1".to_vec());
    vars.insert(b"b".to_vec(), b"2".to_vec());
    assert_eq!(
        substitute_variables(&b"{{a}}{{b}}{{a}}".to_vec(), &vars),
        b"121".to_vec()
    );
}

#[test]
fn test_substitute_empty_text() {
    let mut vars = Assignment::new();
    vars.insert(b"a".to_vec(), b"1".to_vec());
    assert_eq!(substitute_variables(&Vec::new(), &vars), Vec::<u8>::new());
}

#[test]
fn test_substitute_one_pass_only() {
    // The pass never rescans a substituted value, even if it looks like a token.
    let mut vars = Assignment::new();
    vars.insert(b"a".to_vec(), b"{{b}}".to_vec());
    vars.insert(b"b".to_vec(), b"deep".to_vec());
    assert_eq!(substitute_variables(&b"{{a}}".to_vec(), &vars), b"{{b}}".to_vec());
}

#[test]
fn test_substitute_twice_with_inert_values() {
    // With brace-free values holding a separator byte, a second pass is a no-op.
    let mut vars = Assignment::new();
    vars.insert(b"name".to_vec(), b"my-app".to_vec());
    vars.insert(b"author".to_vec(), b"Jane Doe.".to_vec());
    let text = b"{{name}} by {{author}} and {{missing}}".to_vec();
    let once = substitute_variables(&text, &vars);
    let twice = substitute_variables(&once, &vars);
    assert_eq!(once, b"my-app by Jane Doe. and {{missing}}".to_vec());
    assert_eq!(twice, once);
}

#[test]
fn test_substitute_glued_braces_resolve_on_second_pass() {
    // The sharp edge of one-pass substitution: a word-only value can butt
    // braces of the surrounding text together into a new token.
    let mut vars = Assignment::new();
    vars.insert(b"a".to_vec(), b"name".to_vec());
    vars.insert(b"name".to_vec(), b"demo".to_vec());
    let once = substitute_variables(&b"{{{{a}}}}".to_vec(), &vars);
    assert_eq!(once, b"{{name}}".to_vec());
    let twice = substitute_variables(&once, &vars);
    assert_eq!(twice, b"demo".to_vec());
}

#[test]
fn test_find_tokens_collects_identifiers() {
    let found = find_tokens(&b"{{a}} text {{ b }} {{a}} {{not closed".to_vec());
    assert!(found.contains(&b"a".to_vec()));
    assert!(found.contains(&b"b".to_vec()));
    assert!(!found.contains(&b"not".to_vec()));
}

#[test]
fn test_missing_from_set_difference() {
    let used = vec![b"a".to_vec(), b"b".to_vec()];
    let declared = vec![b"b".to_vec(), b"c".to_vec()];
    let undefined = missing_from(&used, &declared);
    let unused = missing_from(&declared, &used);
    assert!(undefined.contains(&b"a".to_vec()));
    assert!(!undefined.contains(&b"b".to_vec()));
    assert!(unused.contains(&b"c".to_vec()));
    assert!(!unused.contains(&b"b".to_vec()));
}
