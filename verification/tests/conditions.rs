//! Tests of the conditional evaluator and the exclusion set.

use scaffold::assignment::Assignment;
use scaffold::cond::{evaluate_condition, evaluate_conditionals, Conditional};

#[test]
fn test_evaluate_condition_bool_true() {
    let mut vars = Assignment::new();
    vars.insert(b"include_docker".to_vec(), b"true".to_vec());
    assert!(evaluate_condition(&b"include_docker == true".to_vec(), &vars));
}

#[test]
fn test_evaluate_condition_bool_false() {
    let mut vars = Assignment::new();
    vars.insert(b"include_docker".to_vec(), b"false".to_vec());
    assert!(evaluate_condition(&b"include_docker == false".to_vec(), &vars));
    assert!(!evaluate_condition(&b"include_docker == true".to_vec(), &vars));
}

#[test]
fn test_evaluate_condition_string_value() {
    let mut vars = Assignment::new();
    vars.insert(b"license".to_vec(), b"MIT".to_vec());
    assert!(evaluate_condition(&b"license == 'MIT'".to_vec(), &vars));
    assert!(evaluate_condition(&b"license == \"MIT\"".to_vec(), &vars));
    assert!(!evaluate_condition(&b"license == 'Apache'".to_vec(), &vars));
}

#[test]
fn test_evaluate_condition_missing_var() {
    let vars = Assignment::new();
    assert!(!evaluate_condition(&b"missing == true".to_vec(), &vars));
}

#[test]
fn test_evaluate_condition_whitespace_layout() {
    let mut vars = Assignment::new();
    vars.insert(b"a".to_vec(), b"x".to_vec());
    assert!(evaluate_condition(&b"  a  ==  x  ".to_vec(), &vars));
    assert!(evaluate_condition(&b"a==x".to_vec(), &vars));
}

#[test]
fn test_evaluate_condition_malformed_is_false() {
    let mut vars = Assignment::new();
    vars.insert(b"a".to_vec(), b"x".to_vec());
    // No comparison, a single '=', trailing junk, or an empty quoted literal.
    assert!(!evaluate_condition(&b"a".to_vec(), &vars));
    assert!(!evaluate_condition(&b"a = x".to_vec(), &vars));
    assert!(!evaluate_condition(&b"a == x y".to_vec(), &vars));
    assert!(!evaluate_condition(&b"a == ''".to_vec(), &vars));
    assert!(!evaluate_condition(&b"".to_vec(), &vars));
}

#[test]
fn test_evaluate_condition_mixed_quotes() {
    // The two quote characters are interchangeable, even across one literal.
    let mut vars = Assignment::new();
    vars.insert(b"license".to_vec(), b"MIT".to_vec());
    assert!(evaluate_condition(&b"license == \"MIT'".to_vec(), &vars));
    assert!(evaluate_condition(&b"license == 'MIT\"".to_vec(), &vars));
}

#[test]
fn test_evaluate_condition_quoted_value_with_space() {
    let mut vars = Assignment::new();
    vars.insert(b"a".to_vec(), b"x y".to_vec());
    assert!(evaluate_condition(&b"a == 'x y'".to_vec(), &vars));
}

#[test]
fn test_evaluate_conditionals_include() {
    let conditionals = vec![Conditional {
        include_path: Some(b"Dockerfile".to_vec()),
        exclude_path: None,
        when: b"include_docker == true".to_vec(),
    }];

    let mut vars = Assignment::new();
    vars.insert(b"include_docker".to_vec(), b"true".to_vec());
    let excluded = evaluate_conditionals(&conditionals, &vars);
    assert!(excluded.is_empty());

    vars.insert(b"include_docker".to_vec(), b"false".to_vec());
    let excluded = evaluate_conditionals(&conditionals, &vars);
    assert!(excluded.contains(&b"Dockerfile".to_vec()));
}

#[test]
fn test_evaluate_conditionals_exclude() {
    let conditionals = vec![Conditional {
        include_path: None,
        exclude_path: Some(b"cli.rs".to_vec()),
        when: b"project_type == 'lib'".to_vec(),
    }];

    let mut vars = Assignment::new();
    vars.insert(b"project_type".to_vec(), b"lib".to_vec());
    let excluded = evaluate_conditionals(&conditionals, &vars);
    assert!(excluded.contains(&b"cli.rs".to_vec()));

    vars.insert(b"project_type".to_vec(), b"bin".to_vec());
    let excluded = evaluate_conditionals(&conditionals, &vars);
    assert!(excluded.is_empty());
}

#[test]
fn test_conditionals_keep_rule_excludes_when_var_absent() {
    // A keep-rule whose variable is unbound always prunes its path.
    let conditionals = vec![Conditional {
        include_path: Some(b"Dockerfile".to_vec()),
        exclude_path: None,
        when: b"include_docker == true".to_vec(),
    }];
    let vars = Assignment::new();
    let excluded = evaluate_conditionals(&conditionals, &vars);
    assert!(excluded.contains(&b"Dockerfile".to_vec()));
}

#[test]
fn test_conditionals_drop_rule_keeps_when_var_absent() {
    // A drop-rule whose variable is unbound never prunes its path.
    let conditionals = vec![Conditional {
        include_path: None,
        exclude_path: Some(b"cli.rs".to_vec()),
        when: b"project_type == 'lib'".to_vec(),
    }];
    let vars = Assignment::new();
    let excluded = evaluate_conditionals(&conditionals, &vars);
    assert!(excluded.is_empty());
}

#[test]
fn test_conditionals_union_over_rules() {
    // Any rule that yields exclusion wins, whatever the order.
    let fwd = vec![
        Conditional {
            include_path: Some(b"a.txt".to_vec()),
            exclude_path: None,
            when: b"x == yes".to_vec(),
        },
        Conditional {
            include_path: None,
            exclude_path: Some(b"b.txt".to_vec()),
            when: b"x == no".to_vec(),
        },
    ];
    let rev = vec![
        Conditional {
            include_path: None,
            exclude_path: Some(b"b.txt".to_vec()),
            when: b"x == no".to_vec(),
        },
        Conditional {
            include_path: Some(b"a.txt".to_vec()),
            exclude_path: None,
            when: b"x == yes".to_vec(),
        },
    ];
    let mut vars = Assignment::new();
    vars.insert(b"x".to_vec(), b"no".to_vec());
    let e1 = evaluate_conditionals(&fwd, &vars);
    let e2 = evaluate_conditionals(&rev, &vars);
    assert!(e1.contains(&b"a.txt".to_vec()) && e1.contains(&b"b.txt".to_vec()));
    assert!(e2.contains(&b"a.txt".to_vec()) && e2.contains(&b"b.txt".to_vec()));
}
