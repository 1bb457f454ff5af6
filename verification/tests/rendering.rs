//! Tests of the tree-rendering decisions: pruning, name substitution,
//! text-versus-binary content handling, and file counting.

use scaffold::assignment::Assignment;
use scaffold::cond::evaluate_conditionals;
use scaffold::cond::Conditional;
use scaffold::manifest::{resolve_variables, Variable};
use scaffold::render::{check_utf8, count_files, render_entries, render_entry,
    render_file_content, TemplateEntry};

#[test]
fn test_check_utf8_accepts_valid_sequences() {
    assert!(check_utf8(&b"plain ascii".to_vec()));
    assert!(check_utf8(&Vec::new()));
    assert!(check_utf8(&vec![0xC3, 0xA9])); // two-byte sequence
    assert!(check_utf8(&vec![0xE2, 0x82, 0xAC])); // three-byte sequence
    assert!(check_utf8(&vec![0xF0, 0x9F, 0x92, 0x96])); // four-byte sequence
    assert!(check_utf8(&vec![0xEF, 0xBF, 0xBD])); // replacement character
}

#[test]
fn test_check_utf8_rejects_invalid_sequences() {
    assert!(!check_utf8(&vec![0xFF]));
    assert!(!check_utf8(&vec![0x80])); // bare continuation byte
    assert!(!check_utf8(&vec![0xC3])); // truncated sequence
    assert!(!check_utf8(&vec![0xC0, 0x80])); // overlong two-byte form
    assert!(!check_utf8(&vec![0xE0, 0x80, 0x80])); // overlong three-byte form
    assert!(!check_utf8(&vec![0xED, 0xA0, 0x80])); // surrogate
    assert!(!check_utf8(&vec![0xF4, 0x90, 0x80, 0x80])); // above U+10FFFF
    assert!(!check_utf8(&b"ok\xFFok".to_vec()));
}

#[test]
fn test_render_round_trip_single_token() {
    // A text file whose whole content is one token renders to the bound value.
    let mut vars = Assignment::new();
    vars.insert(b"project_name".to_vec(), b"demo".to_vec());
    let out = render_file_content(&b"{{project_name}}".to_vec(), &vars);
    assert_eq!(out, b"demo".to_vec());
}

#[test]
fn test_render_binary_copied_byte_for_byte() {
    // Invalid UTF-8 disables substitution: the bytes pass through unchanged,
    // token-shaped spans included.
    let mut vars = Assignment::new();
    vars.insert(b"name".to_vec(), b"demo".to_vec());
    let binary = b"\x89PNG\xFF{{name}}\x00tail".to_vec();
    assert!(!check_utf8(&binary));
    let out = render_file_content(&binary, &vars);
    assert_eq!(out, binary);
}

#[test]
fn test_render_entry_substitutes_names_and_content() {
    let mut vars = Assignment::new();
    vars.insert(b"project_name".to_vec(), b"my_app".to_vec());
    let entry = TemplateEntry {
        path: vec![b"{{project_name}}".to_vec(), b"README.md".to_vec()],
        content: Some(b"# {{project_name}}\n".to_vec()),
    };
    let out = render_entry(&entry, &vars, &Vec::new(), true).unwrap();
    assert_eq!(out.path, vec![b"my_app".to_vec(), b"README.md".to_vec()]);
    assert_eq!(out.content, Some(b"# my_app\n".to_vec()));
}

#[test]
fn test_render_entry_prunes_manifest_and_excluded() {
    let vars = Assignment::new();
    let manifest = TemplateEntry {
        path: vec![b"template.toml".to_vec()],
        content: Some(b"name = \"t\"".to_vec()),
    };
    assert!(render_entry(&manifest, &vars, &Vec::new(), true).is_none());
    // Without the skip flag (as when a template is added) the manifest copies.
    assert!(render_entry(&manifest, &vars, &Vec::new(), false).is_some());

    let excluded = vec![b"Dockerfile".to_vec()];
    let under_dir = TemplateEntry {
        path: vec![b"Dockerfile".to_vec(), b"inner.txt".to_vec()],
        content: Some(b"x".to_vec()),
    };
    // Exclusion of a directory name prunes everything under it.
    assert!(render_entry(&under_dir, &vars, &excluded, true).is_none());
}

#[test]
fn test_render_directory_name_substitution() {
    // A directory named by a token renders along with the files below it.
    let mut vars = Assignment::new();
    vars.insert(b"project_name".to_vec(), b"my_app".to_vec());
    let entries = vec![
        TemplateEntry { path: vec![b"{{project_name}}".to_vec()], content: None },
        TemplateEntry {
            path: vec![b"{{project_name}}".to_vec(), b"main.py".to_vec()],
            content: Some(b"# {{project_name}}".to_vec()),
        },
        TemplateEntry {
            path: vec![b"template.toml".to_vec()],
            content: Some(b"name = \"t\"".to_vec()),
        },
    ];
    let out = render_entries(&entries, &vars, &Vec::new(), true);
    assert_eq!(out.len(), 2);
    assert_eq!(out[0].path, vec![b"my_app".to_vec()]);
    assert!(out[0].content.is_none());
    assert_eq!(out[1].path, vec![b"my_app".to_vec(), b"main.py".to_vec()]);
    assert_eq!(out[1].content, Some(b"# my_app".to_vec()));
}

#[test]
fn test_render_docker_conditional_scenario() {
    // The manifest declares a bool variable defaulting to "false" and guards
    // a Dockerfile behind a keep-rule: rendering with no override drops the
    // Dockerfile, rendering with an explicit true keeps it unchanged.
    let variables = vec![Variable {
        name: b"include_docker".to_vec(),
        description: b"Include a Dockerfile".to_vec(),
        default: Some(b"false".to_vec()),
        var_type: Some(b"bool".to_vec()),
        choices: Vec::new(),
    }];
    let conditionals = vec![Conditional {
        include_path: Some(b"Dockerfile".to_vec()),
        exclude_path: None,
        when: b"include_docker == true".to_vec(),
    }];
    let entries = vec![
        TemplateEntry {
            path: vec![b"Dockerfile".to_vec()],
            content: Some(b"FROM alpine:latest".to_vec()),
        },
        TemplateEntry {
            path: vec![b"README.md".to_vec()],
            content: Some(b"# app".to_vec()),
        },
    ];
    let global = Assignment::new();

    // No override: the default "false" leaves the condition unmet.
    let resolved = resolve_variables(&variables, &global, Assignment::new());
    let excluded = evaluate_conditionals(&conditionals, &resolved);
    let out = render_entries(&entries, &resolved, &excluded, true);
    assert_eq!(out.len(), 1);
    assert_eq!(out[0].path, vec![b"README.md".to_vec()]);

    // Explicit include_docker=true wins over the manifest default.
    let mut supplied = Assignment::new();
    supplied.insert(b"include_docker".to_vec(), b"true".to_vec());
    let resolved = resolve_variables(&variables, &global, supplied);
    let excluded = evaluate_conditionals(&conditionals, &resolved);
    let out = render_entries(&entries, &resolved, &excluded, true);
    assert_eq!(out.len(), 2);
    assert_eq!(out[0].path, vec![b"Dockerfile".to_vec()]);
    assert_eq!(out[0].content, Some(b"FROM alpine:latest".to_vec()));
}

#[test]
fn test_count_files_skips_manifest_directories_and_excluded() {
    let entries = vec![
        TemplateEntry { path: vec![b"src".to_vec()], content: None },
        TemplateEntry {
            path: vec![b"src".to_vec(), b"main.rs".to_vec()],
            content: Some(b"fn main() {}".to_vec()),
        },
        TemplateEntry {
            path: vec![b"template.toml".to_vec()],
            content: Some(b"name = \"t\"".to_vec()),
        },
        TemplateEntry {
            path: vec![b"Dockerfile".to_vec()],
            content: Some(b"FROM alpine".to_vec()),
        },
    ];
    let excluded = vec![b"Dockerfile".to_vec()];
    assert_eq!(count_files(&entries, &excluded), 1);
    assert_eq!(count_files(&entries, &Vec::new()), 2);
}
