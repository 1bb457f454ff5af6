//! Tests of command-line input validation, the global defaults store, the
//! manifest checks, variable resolution, and the sample arithmetic.

use scaffold::assignment::Assignment;
use scaffold::cli::{derive_project_name, parse_key_val, validate_template_name};
use scaffold::cond::Conditional;
use scaffold::config::{apply_config_action, ConfigAction, GlobalConfig};
use scaffold::manifest::{default_value, resolve_variables, TemplateConfig, Variable};
use scaffold::sample::{add, subtract};
use scaffold::validate::{validate_config, ManifestError};

#[test]
fn test_add() {
    assert_eq!(add(2, 3), 5);
    assert_eq!(add(-1, 1), 0);
    assert_eq!(add(0, 0), 0);
}

#[test]
fn test_subtract() {
    assert_eq!(subtract(5, 3), 2);
    assert_eq!(subtract(1, 1), 0);
    assert_eq!(subtract(0, 5), -5);
}

#[test]
fn test_validate_template_name_valid() {
    assert!(validate_template_name(&b"my-template".to_vec()).is_ok());
    assert!(validate_template_name(&b"template_123".to_vec()).is_ok());
    assert!(validate_template_name(&b"Template".to_vec()).is_ok());
}

#[test]
fn test_validate_template_name_empty() {
    assert!(validate_template_name(&Vec::new()).is_err());
}

#[test]
fn test_validate_template_name_with_slash() {
    assert!(validate_template_name(&b"my/template".to_vec()).is_err());
    assert!(validate_template_name(&b"my\\template".to_vec()).is_err());
}

#[test]
fn test_validate_template_name_starts_with_dot() {
    assert!(validate_template_name(&b".hidden".to_vec()).is_err());
}

#[test]
fn test_validate_template_name_special_chars() {
    assert!(validate_template_name(&b"my template".to_vec()).is_err());
    assert!(validate_template_name(&b"my@template".to_vec()).is_err());
}

#[test]
fn test_parse_key_val_valid() {
    let result = parse_key_val(&b"key=value".to_vec()).unwrap();
    assert_eq!(result, (b"key".to_vec(), b"value".to_vec()));
}

#[test]
fn test_parse_key_val_with_equals_in_value() {
    let result = parse_key_val(&b"key=val=ue".to_vec()).unwrap();
    assert_eq!(result, (b"key".to_vec(), b"val=ue".to_vec()));
}

#[test]
fn test_parse_key_val_empty_value() {
    let result = parse_key_val(&b"key=".to_vec()).unwrap();
    assert_eq!(result, (b"key".to_vec(), b"".to_vec()));
}

#[test]
fn test_parse_key_val_invalid() {
    assert!(parse_key_val(&b"invalid".to_vec()).is_err());
}

#[test]
fn test_derive_project_name_replaces_hyphens() {
    assert_eq!(derive_project_name(&b"my-cool-app".to_vec()), b"my_cool_app".to_vec());
    assert_eq!(derive_project_name(&b"plain".to_vec()), b"plain".to_vec());
}

#[test]
fn test_global_config_empty() {
    let config = GlobalConfig::default();
    assert!(config.defaults.is_empty());
}

#[test]
fn test_config_actions_set_get_unset() {
    let mut config = GlobalConfig::default();
    let set = ConfigAction::SetValue { key: b"author".to_vec(), value: b"Jane".to_vec() };
    let outcome = apply_config_action(&mut config, &set);
    assert!(outcome.store_changed);
    assert_eq!(config.defaults.get(&b"author".to_vec()), Some(&b"Jane".to_vec()));

    let get = ConfigAction::GetValue { key: b"author".to_vec() };
    let outcome = apply_config_action(&mut config, &get);
    assert!(!outcome.store_changed && outcome.key_was_bound);

    let unset = ConfigAction::Unset { key: b"author".to_vec() };
    let outcome = apply_config_action(&mut config, &unset);
    assert!(outcome.store_changed && outcome.key_was_bound);
    assert!(config.defaults.get(&b"author".to_vec()).is_none());

    let outcome = apply_config_action(&mut config, &ConfigAction::Unset {
        key: b"author".to_vec(),
    });
    assert!(!outcome.store_changed && !outcome.key_was_bound);
}

#[test]
fn test_assignment_insert_overwrites() {
    let mut a = Assignment::new();
    a.insert(b"k".to_vec(), b"v1".to_vec());
    a.insert(b"k".to_vec(), b"v2".to_vec());
    assert_eq!(a.get(&b"k".to_vec()), Some(&b"v2".to_vec()));
    assert_eq!(a.num_pairs(), 1);
}

fn string_var(name: &[u8], default: Option<&[u8]>) -> Variable {
    Variable {
        name: name.to_vec(),
        description: b"a variable".to_vec(),
        default: default.map(|d| d.to_vec()),
        var_type: None,
        choices: Vec::new(),
    }
}

#[test]
fn test_default_value_precedence_and_fallbacks() {
    let mut global = Assignment::new();
    global.insert(b"author".to_vec(), b"From Config".to_vec());

    // The saved global default overrides the manifest default.
    let v = string_var(b"author", Some(b"From Manifest"));
    assert_eq!(default_value(&v, &global), b"From Config".to_vec());
    // Without a saved global default the manifest default applies.
    let v = string_var(b"other_author", Some(b"From Manifest"));
    assert_eq!(default_value(&v, &global), b"From Manifest".to_vec());
    // Global default fills in when the manifest has none.
    let v = string_var(b"author", None);
    assert_eq!(default_value(&v, &global), b"From Config".to_vec());
    // A bool with no default at all falls back to "false".
    let v = Variable {
        name: b"use_docker".to_vec(),
        description: b"d".to_vec(),
        default: None,
        var_type: Some(b"bool".to_vec()),
        choices: Vec::new(),
    };
    assert_eq!(default_value(&v, &global), b"false".to_vec());
    // A choice with no default takes its first alternative.
    let v = Variable {
        name: b"license".to_vec(),
        description: b"d".to_vec(),
        default: None,
        var_type: Some(b"choice".to_vec()),
        choices: vec![b"MIT".to_vec(), b"Apache".to_vec()],
    };
    assert_eq!(default_value(&v, &global), b"MIT".to_vec());
    // A plain string with no default anywhere resolves to empty.
    let v = string_var(b"other", None);
    assert_eq!(default_value(&v, &global), b"".to_vec());
}

#[test]
fn test_resolve_variables_supplied_wins() {
    let variables = vec![
        string_var(b"project_name", Some(b"default-name")),
        string_var(b"author", None),
    ];
    let global = Assignment::new();
    let mut supplied = Assignment::new();
    supplied.insert(b"project_name".to_vec(), b"chosen".to_vec());
    let resolved = resolve_variables(&variables, &global, supplied);
    assert_eq!(resolved.get(&b"project_name".to_vec()), Some(&b"chosen".to_vec()));
    assert_eq!(resolved.get(&b"author".to_vec()), Some(&b"".to_vec()));
}

fn manifest_with(variables: Vec<Variable>, conditionals: Vec<Conditional>) -> TemplateConfig {
    TemplateConfig {
        name: b"Test Template".to_vec(),
        description: b"Test description".to_vec(),
        variables,
        conditionals,
        hooks: None,
    }
}

#[test]
fn test_validate_config_accepts_well_formed() {
    let config = manifest_with(
        vec![string_var(b"a", None), string_var(b"b", None)],
        vec![Conditional {
            include_path: Some(b"Dockerfile".to_vec()),
            exclude_path: None,
            when: b"a == true".to_vec(),
        }],
    );
    assert!(validate_config(&config).is_ok());
}

#[test]
fn test_validate_config_conditional_without_path() {
    let config = manifest_with(
        Vec::new(),
        vec![Conditional { include_path: None, exclude_path: None, when: b"a == b".to_vec() }],
    );
    assert_eq!(validate_config(&config), Err(ManifestError::ConditionalWithoutPath));
}

#[test]
fn test_validate_config_conditional_both_paths() {
    let config = manifest_with(
        Vec::new(),
        vec![Conditional {
            include_path: Some(b"a.txt".to_vec()),
            exclude_path: Some(b"b.txt".to_vec()),
            when: b"a == b".to_vec(),
        }],
    );
    assert_eq!(validate_config(&config), Err(ManifestError::ConditionalBothPaths));
}

#[test]
fn test_validate_config_choice_without_choices() {
    let bad = Variable {
        name: b"license".to_vec(),
        description: b"d".to_vec(),
        default: None,
        var_type: Some(b"choice".to_vec()),
        choices: Vec::new(),
    };
    let config = manifest_with(vec![bad], Vec::new());
    assert_eq!(validate_config(&config), Err(ManifestError::ChoiceWithoutChoices));
}

#[test]
fn test_validate_config_duplicate_variable_names() {
    let config = manifest_with(
        vec![string_var(b"a", None), string_var(b"a", None)],
        Vec::new(),
    );
    assert_eq!(validate_config(&config), Err(ManifestError::DuplicateVariableName));
}
