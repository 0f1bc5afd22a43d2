//! Cached-query behavior and the remaining presence and type checks.

use lsp_server::capabilities::diagnostics::compute_file_diagnostics;
use lsp_server::indexer::{FileIndex, Finding, IndexKey, Parameter, ProjectIndex};
use lsp_server::syntax::{Behavior, EntityType};
use lsp_server::{Position, Range};

fn create_test_finding_with_range(
    key: &str,
    entity: EntityType,
    behavior: Behavior,
    start_line: u32,
    start_char: u32,
    end_line: u32,
    end_char: u32,
) -> Finding {
    Finding {
        key: key.to_string(),
        entity,
        behavior,
        range: Range {
            start: Position { line: start_line, character: start_char },
            end: Position { line: end_line, character: end_char },
        },
        parameters: None,
        return_type: None,
        fields: None,
        attributes: None,
    }
}

#[test]
fn test_lens_data_caching() {
    let mut index = ProjectIndex::new();
    let backend_path = "backend.rs".to_string();

    index.add_file(FileIndex {
        path: backend_path.clone(),
        findings: vec![create_test_finding_with_range(
            "greet",
            EntityType::Command,
            Behavior::Definition,
            5,
            0,
            10,
            0,
        )],
    });
    index.add_file(FileIndex {
        path: "frontend.ts".to_string(),
        findings: vec![create_test_finding_with_range(
            "greet",
            EntityType::Command,
            Behavior::Call,
            2,
            0,
            2,
            10,
        )],
    });

    let lens_data_1 = index.get_lens_data(&backend_path);
    assert!(!lens_data_1.is_empty(), "Should have lens data for backend with call");

    let lens_data_2 = index.get_lens_data(&backend_path);
    assert_eq!(lens_data_1.len(), lens_data_2.len());
}

#[test]
fn test_position_index_caching() {
    let mut index = ProjectIndex::new();
    let path = "test.ts".to_string();

    index.add_file(FileIndex {
        path: path.clone(),
        findings: vec![create_test_finding_with_range(
            "greet",
            EntityType::Command,
            Behavior::Call,
            5,
            10,
            5,
            15,
        )],
    });

    let pos = Position { line: 5, character: 12 };

    let result1 = index.get_key_at_position(&path, pos);
    assert!(result1.is_some());

    let result2 = index.get_key_at_position(&path, pos);
    assert!(result2.is_some());

    let (key1, _) = result1.unwrap();
    let (key2, _) = result2.unwrap();
    assert_eq!(key1.name, key2.name);
}

#[test]
fn test_cache_invalidation_on_file_update() {
    let mut index = ProjectIndex::new();
    let backend_path = "backend.rs".to_string();

    index.add_file(FileIndex {
        path: backend_path.clone(),
        findings: vec![create_test_finding_with_range(
            "old_command",
            EntityType::Command,
            Behavior::Definition,
            0,
            0,
            1,
            0,
        )],
    });
    index.add_file(FileIndex {
        path: "frontend.ts".to_string(),
        findings: vec![create_test_finding_with_range(
            "old_command",
            EntityType::Command,
            Behavior::Call,
            0,
            0,
            0,
            10,
        )],
    });

    let initial_lens = index.get_lens_data(&backend_path);
    let initial_len = initial_lens.len();

    index.add_file(FileIndex {
        path: backend_path.clone(),
        findings: vec![create_test_finding_with_range(
            "new_command",
            EntityType::Command,
            Behavior::Definition,
            0,
            0,
            1,
            0,
        )],
    });

    let updated_lens = index.get_lens_data(&backend_path);
    assert!(updated_lens.len() != initial_len || updated_lens.is_empty());
}

#[test]
fn test_get_all_names_with_caching() {
    let mut index = ProjectIndex::new();

    index.add_file(FileIndex {
        path: "commands.rs".to_string(),
        findings: vec![
            create_test_finding_with_range(
                "cmd1",
                EntityType::Command,
                Behavior::Definition,
                0,
                0,
                1,
                0,
            ),
            create_test_finding_with_range(
                "cmd2",
                EntityType::Command,
                Behavior::Definition,
                2,
                0,
                3,
                0,
            ),
        ],
    });

    let names1 = index.get_all_names(EntityType::Command);
    assert_eq!(names1.len(), 2);

    let names2 = index.get_all_names(EntityType::Command);
    assert_eq!(names2.len(), 2);
    assert_eq!(names1.len(), names2.len());
    for (name1, _) in &names1 {
        assert!(names2.iter().any(|(name2, _)| name1 == name2));
    }
}

#[test]
fn test_multiple_positions_same_file() {
    let mut index = ProjectIndex::new();
    let path = "commands.rs".to_string();

    index.add_file(FileIndex {
        path: path.clone(),
        findings: vec![
            create_test_finding_with_range(
                "cmd1",
                EntityType::Command,
                Behavior::Definition,
                5,
                0,
                5,
                10,
            ),
            create_test_finding_with_range(
                "cmd2",
                EntityType::Command,
                Behavior::Definition,
                15,
                0,
                15,
                10,
            ),
        ],
    });

    let result1 = index.get_key_at_position(&path, Position { line: 5, character: 5 });
    assert!(result1.is_some());
    assert_eq!(result1.unwrap().0.name, "cmd1");

    let result2 = index.get_key_at_position(&path, Position { line: 15, character: 5 });
    assert!(result2.is_some());
    assert_eq!(result2.unwrap().0.name, "cmd2");

    let result3 = index.get_key_at_position(&path, Position { line: 10, character: 0 });
    assert!(result3.is_none());
}

#[test]
fn test_complete_command_no_warnings() {
    let mut index = ProjectIndex::new();

    index.add_file(FileIndex {
        path: "backend.rs".to_string(),
        findings: vec![create_test_finding_with_range(
            "greet",
            EntityType::Command,
            Behavior::Definition,
            5,
            0,
            5,
            5,
        )],
    });
    index.add_file(FileIndex {
        path: "frontend.ts".to_string(),
        findings: vec![create_test_finding_with_range(
            "greet",
            EntityType::Command,
            Behavior::Call,
            10,
            0,
            10,
            5,
        )],
    });

    let key = IndexKey { name: "greet".to_string(), entity: EntityType::Command };
    let info = index.get_diagnostic_info(&key);
    assert!(info.has_definition(), "Should have definition");
    assert!(info.has_calls(), "Should have calls");
    assert!(compute_file_diagnostics("backend.rs", &index).is_empty());
}

#[test]
fn test_complete_event_no_warnings() {
    let mut index = ProjectIndex::new();

    index.add_file(FileIndex {
        path: "backend.rs".to_string(),
        findings: vec![create_test_finding_with_range(
            "data-update",
            EntityType::Event,
            Behavior::Emit,
            5,
            0,
            5,
            11,
        )],
    });
    index.add_file(FileIndex {
        path: "frontend.ts".to_string(),
        findings: vec![create_test_finding_with_range(
            "data-update",
            EntityType::Event,
            Behavior::Listen,
            10,
            0,
            10,
            11,
        )],
    });

    let key = IndexKey { name: "data-update".to_string(), entity: EntityType::Event };
    let info = index.get_diagnostic_info(&key);
    assert!(info.has_emitters(), "Should have emitters");
    assert!(info.has_listeners(), "Should have listeners");
    assert!(compute_file_diagnostics("frontend.ts", &index).is_empty());
}

#[test]
fn test_deep_type_match_return_type() {
    let mut index = ProjectIndex::new();

    index.add_file(FileIndex {
        path: "backend.rs".to_string(),
        findings: vec![
            Finding {
                key: "Greet".to_string(),
                entity: EntityType::Struct,
                behavior: Behavior::Definition,
                range: Range {
                    start: Position { line: 0, character: 0 },
                    end: Position { line: 0, character: 5 },
                },
                parameters: None,
                return_type: None,
                fields: Some(vec![Parameter {
                    name: "message".to_string(),
                    ty: "String".to_string(),
                }]),
                attributes: None,
            },
            Finding {
                key: "greet".to_string(),
                entity: EntityType::Command,
                behavior: Behavior::Definition,
                range: Range {
                    start: Position { line: 4, character: 0 },
                    end: Position { line: 4, character: 5 },
                },
                parameters: None,
                return_type: Some("Greet".to_string()),
                fields: None,
                attributes: None,
            },
        ],
    });

    index.add_file(FileIndex {
        path: "frontend.ts".to_string(),
        findings: vec![
            Finding {
                key: "GreetType1".to_string(),
                entity: EntityType::Interface,
                behavior: Behavior::Definition,
                range: Range {
                    start: Position { line: 0, character: 0 },
                    end: Position { line: 0, character: 10 },
                },
                parameters: None,
                return_type: None,
                fields: Some(vec![Parameter {
                    name: "message".to_string(),
                    ty: "string".to_string(),
                }]),
                attributes: None,
            },
            Finding {
                key: "greet".to_string(),
                entity: EntityType::Command,
                behavior: Behavior::Call,
                range: Range {
                    start: Position { line: 10, character: 0 },
                    end: Position { line: 10, character: 20 },
                },
                parameters: None,
                return_type: Some("<GreetType1>".to_string()),
                fields: None,
                attributes: None,
            },
        ],
    });

    let diagnostics = compute_file_diagnostics("frontend.ts", &index);
    let mismatch = diagnostics.iter().find(|d| d.message.contains("Type mismatch"));
    assert!(mismatch.is_none(), "Should NOT have type mismatch diagnostic");
}

#[test]
fn test_unrecognized_return_type_never_flagged() {
    // A backend return type outside the primitive map with no indexed
    // struct: the return check stays silent.
    let mut index = ProjectIndex::new();
    index.add_file(FileIndex {
        path: "backend.rs".to_string(),
        findings: vec![Finding {
            key: "fetch_blob".to_string(),
            entity: EntityType::Command,
            behavior: Behavior::Definition,
            range: Range {
                start: Position { line: 0, character: 0 },
                end: Position { line: 0, character: 10 },
            },
            parameters: None,
            return_type: Some("Blob".to_string()),
            fields: None,
            attributes: None,
        }],
    });
    index.add_file(FileIndex {
        path: "frontend.ts".to_string(),
        findings: vec![Finding {
            key: "fetch_blob".to_string(),
            entity: EntityType::Command,
            behavior: Behavior::Call,
            range: Range {
                start: Position { line: 3, character: 0 },
                end: Position { line: 3, character: 10 },
            },
            parameters: None,
            return_type: Some("<string>".to_string()),
            fields: None,
            attributes: None,
        }],
    });
    let diagnostics = compute_file_diagnostics("frontend.ts", &index);
    assert!(diagnostics.iter().all(|d| !d.message.contains("Return type mismatch")));
}
