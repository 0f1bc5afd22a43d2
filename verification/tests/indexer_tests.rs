//! Store behavior: replacement semantics, removal, lookups, aggregates,
//! resolution and the documented scenarios.

use lsp_server::capabilities::definition::resolve_targets;
use lsp_server::capabilities::diagnostics::compute_file_diagnostics;
use lsp_server::indexer::lens::LensLabel;
use lsp_server::indexer::{FileIndex, Finding, IndexKey, Parameter, ProjectIndex};
use lsp_server::tree_parser::assemble::{frontend_findings, FrontendEvent};
use lsp_server::syntax::{Behavior, EntityType};
use lsp_server::{Position, Range};

fn create_test_finding(key: &str, entity: EntityType, behavior: Behavior) -> Finding {
    Finding {
        key: key.to_string(),
        entity,
        behavior,
        range: Range {
            start: Position { line: 0, character: 0 },
            end: Position { line: 0, character: key.len() as u32 },
        },
        parameters: None,
        return_type: None,
        fields: None,
        attributes: None,
    }
}

fn finding_at(key: &str, entity: EntityType, behavior: Behavior, line: u32) -> Finding {
    Finding {
        key: key.to_string(),
        entity,
        behavior,
        range: Range {
            start: Position { line, character: 0 },
            end: Position { line, character: key.len() as u32 },
        },
        parameters: None,
        return_type: None,
        fields: None,
        attributes: None,
    }
}

#[test]
fn test_add_file_to_index() {
    let mut index = ProjectIndex::new();
    let path = "test.rs".to_string();

    index.add_file(FileIndex {
        path: path.clone(),
        findings: vec![create_test_finding("greet", EntityType::Command, Behavior::Definition)],
    });

    let locations = index.get_locations(EntityType::Command, "greet");
    assert_eq!(locations.len(), 1);
    assert_eq!(locations[0].path, path);
}

#[test]
fn test_remove_file_from_index() {
    let mut index = ProjectIndex::new();
    let path = "test.rs".to_string();

    index.add_file(FileIndex {
        path: path.clone(),
        findings: vec![create_test_finding("greet", EntityType::Command, Behavior::Definition)],
    });

    let locations_before = index.get_locations(EntityType::Command, "greet");
    assert_eq!(locations_before.len(), 1);

    index.remove_file(&path);

    let locations_after = index.get_locations(EntityType::Command, "greet");
    assert_eq!(locations_after.len(), 0);
}

#[test]
fn test_get_locations() {
    let mut index = ProjectIndex::new();

    index.add_file(FileIndex {
        path: "backend.rs".to_string(),
        findings: vec![create_test_finding("greet", EntityType::Command, Behavior::Definition)],
    });
    index.add_file(FileIndex {
        path: "frontend.ts".to_string(),
        findings: vec![create_test_finding("greet", EntityType::Command, Behavior::Call)],
    });

    let locations = index.get_locations(EntityType::Command, "greet");
    assert_eq!(locations.len(), 2);

    let has_definition = locations.iter().any(|l| l.behavior == Behavior::Definition);
    let has_call = locations.iter().any(|l| l.behavior == Behavior::Call);
    assert!(has_definition);
    assert!(has_call);
}

#[test]
fn test_get_key_at_position() {
    let mut index = ProjectIndex::new();
    let path = "test.ts".to_string();

    index.add_file(FileIndex {
        path: path.clone(),
        findings: vec![Finding {
            key: "greet".to_string(),
            entity: EntityType::Command,
            behavior: Behavior::Call,
            range: Range {
                start: Position { line: 5, character: 10 },
                end: Position { line: 5, character: 15 },
            },
            parameters: None,
            return_type: None,
            fields: None,
            attributes: None,
        }],
    });

    let result = index.get_key_at_position(&path, Position { line: 5, character: 12 });
    assert!(result.is_some());

    let (key, _loc) = result.unwrap();
    assert_eq!(key.name, "greet");
    assert_eq!(key.entity, EntityType::Command);

    // The end of a single-line range is outside it.
    let at_end = index.get_key_at_position(&path, Position { line: 5, character: 15 });
    assert!(at_end.is_none());
}

#[test]
fn test_get_diagnostic_info() {
    let mut index = ProjectIndex::new();

    index.add_file(FileIndex {
        path: "backend.rs".to_string(),
        findings: vec![create_test_finding("greet", EntityType::Command, Behavior::Definition)],
    });
    index.add_file(FileIndex {
        path: "frontend.ts".to_string(),
        findings: vec![create_test_finding("greet", EntityType::Command, Behavior::Call)],
    });

    let key = IndexKey { name: "greet".to_string(), entity: EntityType::Command };
    let info = index.get_diagnostic_info(&key);
    assert!(info.has_definition(), "Should have definition");
    assert!(info.has_calls(), "Should have calls");
}

#[test]
fn test_multiple_files_same_command() {
    let mut index = ProjectIndex::new();

    index.add_file(FileIndex {
        path: "backend.rs".to_string(),
        findings: vec![create_test_finding("get_user", EntityType::Command, Behavior::Definition)],
    });
    index.add_file(FileIndex {
        path: "app.ts".to_string(),
        findings: vec![create_test_finding("get_user", EntityType::Command, Behavior::Call)],
    });
    index.add_file(FileIndex {
        path: "profile.tsx".to_string(),
        findings: vec![create_test_finding("get_user", EntityType::Command, Behavior::Call)],
    });

    let locations = index.get_locations(EntityType::Command, "get_user");
    assert_eq!(locations.len(), 3, "Should find definition + 2 calls");
}

#[test]
fn test_add_file_is_idempotent() {
    let mut index = ProjectIndex::new();
    let mk = || FileIndex {
        path: "backend.rs".to_string(),
        findings: vec![
            create_test_finding("greet", EntityType::Command, Behavior::Definition),
            finding_at("save", EntityType::Command, Behavior::Definition, 4),
        ],
    };
    index.add_file(mk());
    let first = index.get_locations(EntityType::Command, "greet").len();
    index.add_file(mk());
    assert_eq!(index.get_locations(EntityType::Command, "greet").len(), first);
    assert_eq!(index.get_locations(EntityType::Command, "save").len(), 1);
}

#[test]
fn test_replacement_supersedes_old_symbols() {
    let mut index = ProjectIndex::new();
    let path = "backend.rs".to_string();
    index.add_file(FileIndex {
        path: path.clone(),
        findings: vec![
            create_test_finding("old_one", EntityType::Command, Behavior::Definition),
            finding_at("shared", EntityType::Command, Behavior::Definition, 7),
        ],
    });
    index.add_file(FileIndex {
        path: path.clone(),
        findings: vec![finding_at("shared", EntityType::Command, Behavior::Definition, 9)],
    });
    assert_eq!(index.get_locations(EntityType::Command, "old_one").len(), 0);
    assert_eq!(index.get_locations(EntityType::Command, "shared").len(), 1);
}

#[test]
fn test_removal_clears_enumeration() {
    let mut index = ProjectIndex::new();
    index.add_file(FileIndex {
        path: "only.rs".to_string(),
        findings: vec![create_test_finding("lonely", EntityType::Command, Behavior::Definition)],
    });
    assert_eq!(index.get_all_names(EntityType::Command).len(), 1);
    index.remove_file("only.rs");
    assert_eq!(index.get_locations(EntityType::Command, "lonely").len(), 0);
    assert_eq!(index.get_all_names(EntityType::Command).len(), 0);
}

#[test]
fn test_adjacency_resolution() {
    let mut index = ProjectIndex::new();
    index.add_file(FileIndex {
        path: "backend.rs".to_string(),
        findings: vec![finding_at("greet", EntityType::Command, Behavior::Definition, 3)],
    });
    index.add_file(FileIndex {
        path: "frontend.ts".to_string(),
        findings: vec![finding_at("greet", EntityType::Command, Behavior::Call, 8)],
    });
    let all = index.get_locations(EntityType::Command, "greet");
    let def = all.iter().find(|l| l.behavior == Behavior::Definition).unwrap().clone();
    let call = all.iter().find(|l| l.behavior == Behavior::Call).unwrap().clone();

    let from_def = resolve_targets(&all, &def);
    assert_eq!(from_def.len(), 1);
    assert_eq!(from_def[0].path, "frontend.ts");
    assert_eq!(from_def[0].behavior, Behavior::Call);

    let from_call = resolve_targets(&all, &call);
    assert_eq!(from_call.len(), 1);
    assert_eq!(from_call[0].path, "backend.rs");
    assert_eq!(from_call[0].behavior, Behavior::Definition);
}

#[test]
fn test_unused_command_diagnostic() {
    // A backend defining save_file with zero frontend calls.
    let mut index = ProjectIndex::new();
    index.add_file(FileIndex {
        path: "backend.rs".to_string(),
        findings: vec![Finding {
            key: "save_file".to_string(),
            entity: EntityType::Command,
            behavior: Behavior::Definition,
            range: Range {
                start: Position { line: 2, character: 3 },
                end: Position { line: 2, character: 12 },
            },
            parameters: Some(vec![Parameter {
                name: "path".to_string(),
                ty: "String".to_string(),
            }]),
            return_type: None,
            fields: None,
            attributes: None,
        }],
    });
    let key = IndexKey { name: "save_file".to_string(), entity: EntityType::Command };
    let info = index.get_diagnostic_info(&key);
    assert!(info.has_definition());
    assert!(!info.has_calls());

    let diags = compute_file_diagnostics("backend.rs", &index);
    assert_eq!(diags.len(), 1);
    assert!(diags[0].message.contains("defined but never invoked"));
}

#[test]
fn test_undefined_command_first_call_only() {
    // Three calls of an undefined command in one file: one warning, at
    // the first call's range.
    let mut index = ProjectIndex::new();
    index.add_file(FileIndex {
        path: "app.ts".to_string(),
        findings: vec![
            finding_at("ghost_command", EntityType::Command, Behavior::Call, 2),
            finding_at("ghost_command", EntityType::Command, Behavior::Call, 5),
            finding_at("ghost_command", EntityType::Command, Behavior::Call, 9),
        ],
    });
    let diags = compute_file_diagnostics("app.ts", &index);
    assert_eq!(diags.len(), 1);
    assert!(diags[0].message.contains("not defined in Rust backend"));
    assert_eq!(diags[0].range.start.line, 2);
}

#[test]
fn test_return_type_field_mismatch() {
    // A struct returned by a command, checked against a frontend
    // interface with one wrong field type.
    let mut index = ProjectIndex::new();
    index.add_file(FileIndex {
        path: "backend.rs".to_string(),
        findings: vec![
            Finding {
                key: "User".to_string(),
                entity: EntityType::Struct,
                behavior: Behavior::Definition,
                range: Range {
                    start: Position { line: 1, character: 0 },
                    end: Position { line: 1, character: 4 },
                },
                parameters: None,
                return_type: None,
                fields: Some(vec![
                    Parameter { name: "id".to_string(), ty: "u32".to_string() },
                    Parameter { name: "name".to_string(), ty: "String".to_string() },
                ]),
                attributes: None,
            },
            Finding {
                key: "get_user".to_string(),
                entity: EntityType::Command,
                behavior: Behavior::Definition,
                range: Range {
                    start: Position { line: 6, character: 3 },
                    end: Position { line: 6, character: 11 },
                },
                parameters: None,
                return_type: Some("User".to_string()),
                fields: None,
                attributes: None,
            },
        ],
    });
    index.add_file(FileIndex {
        path: "frontend.ts".to_string(),
        findings: vec![
            Finding {
                key: "UserDto".to_string(),
                entity: EntityType::Interface,
                behavior: Behavior::Definition,
                range: Range {
                    start: Position { line: 0, character: 10 },
                    end: Position { line: 0, character: 17 },
                },
                parameters: None,
                return_type: None,
                fields: Some(vec![
                    Parameter { name: "id".to_string(), ty: "number".to_string() },
                    Parameter { name: "name".to_string(), ty: "number".to_string() },
                ]),
                attributes: None,
            },
            Finding {
                key: "get_user".to_string(),
                entity: EntityType::Command,
                behavior: Behavior::Call,
                range: Range {
                    start: Position { line: 4, character: 6 },
                    end: Position { line: 4, character: 14 },
                },
                parameters: None,
                return_type: Some("<UserDto>".to_string()),
                fields: None,
                attributes: None,
            },
        ],
    });
    let diags = compute_file_diagnostics("frontend.ts", &index);
    let mismatches: Vec<_> =
        diags.iter().filter(|d| d.message.contains("Type mismatch for field")).collect();
    assert_eq!(mismatches.len(), 1);
    assert!(mismatches[0].message.contains("'name'"));
    assert!(mismatches[0].message.contains("expected string, got number"));
}

#[test]
fn test_directed_emit_no_listeners() {
    // A directed emit with no listener anywhere: one warning keyed on
    // the event name, not on the window target.
    let events = vec![FrontendEvent::Call {
        callee: "emitTo".to_string(),
        arg0: Some((
            "win".to_string(),
            Range {
                start: Position { line: 3, character: 11 },
                end: Position { line: 3, character: 14 },
            },
        )),
        arg1: Some((
            "progress".to_string(),
            Range {
                start: Position { line: 3, character: 18 },
                end: Position { line: 3, character: 26 },
            },
        )),
        parameters: None,
        type_args: None,
    }];
    let findings = frontend_findings(&events, 0);
    let mut index = ProjectIndex::new();
    index.add_file(FileIndex { path: "app.ts".to_string(), findings });

    assert_eq!(index.get_locations(EntityType::Event, "progress").len(), 1);
    assert_eq!(index.get_locations(EntityType::Event, "win").len(), 0);

    let diags = compute_file_diagnostics("app.ts", &index);
    assert_eq!(diags.len(), 1);
    assert!(diags[0].message.contains("'progress'"));
    assert!(diags[0].message.contains("no listeners"));
}

#[test]
fn test_event_presence_diagnostics() {
    let mut index = ProjectIndex::new();
    index.add_file(FileIndex {
        path: "app.ts".to_string(),
        findings: vec![finding_at("quiet", EntityType::Event, Behavior::Listen, 1)],
    });
    let diags = compute_file_diagnostics("app.ts", &index);
    assert_eq!(diags.len(), 1);
    assert!(diags[0].message.contains("listened for but never emitted"));
}

#[test]
fn test_parse_error_suppresses_diagnostics() {
    let mut index = ProjectIndex::new();
    index.add_file(FileIndex {
        path: "app.ts".to_string(),
        findings: vec![finding_at("ghost", EntityType::Command, Behavior::Call, 1)],
    });
    index.set_parse_error("app.ts".to_string(), "broken".to_string());
    assert_eq!(index.get_parse_error("app.ts"), Some("broken".to_string()));
    let diags = compute_file_diagnostics("app.ts", &index);
    assert_eq!(diags.len(), 0);
}

#[test]
fn test_parse_error_purges_stale_symbols() {
    // A file that indexed once and later fails to parse stops serving
    // its symbols until it parses again.
    let mut index = ProjectIndex::new();
    index.add_file(FileIndex {
        path: "app.ts".to_string(),
        findings: vec![finding_at("stale", EntityType::Command, Behavior::Call, 1)],
    });
    assert_eq!(index.get_locations(EntityType::Command, "stale").len(), 1);
    index.set_parse_error("app.ts".to_string(), "broken".to_string());
    assert_eq!(index.get_locations(EntityType::Command, "stale").len(), 0);
    assert_eq!(index.get_all_names(EntityType::Command).len(), 0);
    // Indexing the file again clears the error and restores symbols.
    index.add_file(FileIndex {
        path: "app.ts".to_string(),
        findings: vec![finding_at("stale", EntityType::Command, Behavior::Call, 1)],
    });
    assert_eq!(index.get_parse_error("app.ts"), None);
    assert_eq!(index.get_locations(EntityType::Command, "stale").len(), 1);
}

#[test]
fn test_search_and_outline() {
    let mut index = ProjectIndex::new();
    index.add_file(FileIndex {
        path: "backend.rs".to_string(),
        findings: vec![
            finding_at("save_file", EntityType::Command, Behavior::Definition, 4),
            finding_at("load_file", EntityType::Command, Behavior::Definition, 9),
        ],
    });
    let hits = index.search_workspace_symbols("SAVE");
    assert_eq!(hits.len(), 1);
    assert_eq!(hits[0].name, "save_file");

    let outline = index.get_document_symbols("backend.rs");
    assert_eq!(outline.len(), 2);
}

#[test]
fn test_lens_grouping_threshold() {
    let mut index = ProjectIndex::new();
    index.add_file(FileIndex {
        path: "backend.rs".to_string(),
        findings: vec![finding_at("greet", EntityType::Command, Behavior::Definition, 0)],
    });
    for (i, p) in ["a.ts", "b.ts", "c.ts", "d.ts"].iter().enumerate() {
        index.add_file(FileIndex {
            path: p.to_string(),
            findings: vec![finding_at("greet", EntityType::Command, Behavior::Call, i as u32)],
        });
    }
    // Four distinct target files against the default threshold of three:
    // a single collapsed summary.
    let lenses = index.get_lens_data("backend.rs");
    assert_eq!(lenses.len(), 1);
    match &lenses[0].label {
        LensLabel::References(c) => assert_eq!(*c, 4),
        LensLabel::GoToFile(_) => panic!("expected a summary"),
    }
}

#[test]
fn test_lens_grouping_per_file_below_threshold() {
    let mut index = ProjectIndex::new();
    index.add_file(FileIndex {
        path: "backend.rs".to_string(),
        findings: vec![finding_at("greet", EntityType::Command, Behavior::Definition, 0)],
    });
    index.add_file(FileIndex {
        path: "ui/a.ts".to_string(),
        findings: vec![finding_at("greet", EntityType::Command, Behavior::Call, 2)],
    });
    index.add_file(FileIndex {
        path: "ui/b.ts".to_string(),
        findings: vec![finding_at("greet", EntityType::Command, Behavior::Call, 3)],
    });
    // Two distinct target files under the default threshold of three:
    // one navigable entry per target file, labelled with its file name.
    let lenses = index.get_lens_data("backend.rs");
    assert_eq!(lenses.len(), 2);
    let mut names: Vec<String> = lenses
        .iter()
        .map(|l| match &l.label {
            LensLabel::GoToFile(f) => f.clone(),
            LensLabel::References(_) => panic!("expected per-file entries"),
        })
        .collect();
    names.sort();
    assert_eq!(names, vec!["a.ts".to_string(), "b.ts".to_string()]);
    assert!(lenses.iter().all(|l| l.targets.len() == 1));
}
