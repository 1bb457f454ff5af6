//! Tests of the registry merge, the scan decision, and the bundled-cache
//! version marker.

use scaffold::manifest::TemplateConfig;
use scaffold::registry::{get_available_templates, needs_extraction, scan_decision,
    AvailableTemplate, ScanEntryAction, TemplateSource};

fn template(name: &[u8], source: TemplateSource) -> AvailableTemplate {
    AvailableTemplate {
        dir_name: name.to_vec(),
        config: TemplateConfig {
            name: name.to_vec(),
            description: b"a template".to_vec(),
            variables: Vec::new(),
            conditionals: Vec::new(),
            hooks: None,
        },
        source,
        path: name.to_vec(),
    }
}

#[test]
fn test_local_shadows_bundled_same_name() {
    // A local template and a bundled template share a name: the registry
    // returns exactly one entry under that name, the local one.
    let local = vec![template(b"rust-cli", TemplateSource::Local)];
    let bundled = vec![
        template(b"rust-cli", TemplateSource::Bundled),
        template(b"fastapi", TemplateSource::Bundled),
    ];
    let merged = get_available_templates(local, bundled);
    assert_eq!(merged.len(), 2);
    let named: Vec<&AvailableTemplate> =
        merged.iter().filter(|t| t.dir_name == b"rust-cli".to_vec()).collect();
    assert_eq!(named.len(), 1);
    assert_eq!(named[0].source, TemplateSource::Local);
    assert_eq!(merged[1].dir_name, b"fastapi".to_vec());
    assert_eq!(merged[1].source, TemplateSource::Bundled);
}

#[test]
fn test_merge_keeps_local_order_then_bundled() {
    let local = vec![
        template(b"one", TemplateSource::Local),
        template(b"two", TemplateSource::Local),
    ];
    let bundled = vec![
        template(b"three", TemplateSource::Bundled),
        template(b"two", TemplateSource::Bundled),
        template(b"four", TemplateSource::Bundled),
    ];
    let merged = get_available_templates(local, bundled);
    let names: Vec<Vec<u8>> = merged.iter().map(|t| t.dir_name.clone()).collect();
    assert_eq!(
        names,
        vec![b"one".to_vec(), b"two".to_vec(), b"three".to_vec(), b"four".to_vec()]
    );
}

#[test]
fn test_merge_without_local_templates() {
    let bundled = vec![template(b"fastapi", TemplateSource::Bundled)];
    let merged = get_available_templates(Vec::new(), bundled);
    assert_eq!(merged.len(), 1);
    assert_eq!(merged[0].source, TemplateSource::Bundled);
}

#[test]
fn test_scan_decision_rules() {
    // Files and hidden directories are ignored; a directory without a
    // manifest is skipped with a warning; anything else loads.
    assert_eq!(scan_decision(&b"notes.txt".to_vec(), false, false), ScanEntryAction::Ignore);
    assert_eq!(scan_decision(&b".git".to_vec(), true, true), ScanEntryAction::Ignore);
    assert_eq!(
        scan_decision(&b"broken".to_vec(), true, false),
        ScanEntryAction::SkipWithWarning
    );
    assert_eq!(scan_decision(&b"rust-cli".to_vec(), true, true), ScanEntryAction::Load);
}

#[test]
fn test_needs_extraction_marker_rules() {
    let version = b"1.2.3".to_vec();
    // No readable marker: extract.
    assert!(needs_extraction(&None, &version));
    // Stale marker: extract; matching marker, even padded: do not.
    assert!(needs_extraction(&Some(b"1.2.2".to_vec()), &version));
    assert!(!needs_extraction(&Some(b"1.2.3".to_vec()), &version));
    assert!(!needs_extraction(&Some(b"  1.2.3\n".to_vec()), &version));
    assert!(needs_extraction(&Some(b"".to_vec()), &version));
}

#[test]
fn test_extraction_runs_once_per_version_change() {
    // The marker protocol: a differing marker triggers exactly one
    // re-extraction, after which the freshly written marker suppresses more.
    let version = b"2.0.0".to_vec();
    let mut marker: Option<Vec<u8>> = Some(b"1.0.0".to_vec());
    let mut extractions = 0;
    for _ in 0..3 {
        if needs_extraction(&marker, &version) {
            extractions += 1;
            marker = Some(version.clone());
        }
    }
    assert_eq!(extractions, 1);
}
