//! Script-region extraction, column arithmetic and finding assembly.

use lsp_server::capabilities::completion::lsp_character_to_byte_index;
use lsp_server::syntax::{Behavior, EntityType};
use lsp_server::tree_parser::assemble::{frontend_findings, rust_findings, FrontendEvent, RustEvent};
use lsp_server::tree_parser::sfc::{extract_svelte_script, extract_vue_script};
use lsp_server::tree_parser::LangType;
use lsp_server::{Position, Range};

fn range_at(line: u32, a: u32, b: u32) -> Range {
    Range { start: Position { line, character: a }, end: Position { line, character: b } }
}

#[test]
fn test_vue_script_extraction() {
    let content = "
<template>
  <div>Hello</div>
</template>

<script lang=\"ts\">
import { invoke } from '@tauri-apps/api';

export default {
    async mounted() {
        await invoke(\"get_data\");
    }
}
</script>
";
    let result = extract_vue_script(content);
    assert!(result.is_some());

    let (script, offset) = result.unwrap();
    assert!(script.contains("invoke"));
    assert!(offset > 0);
}

#[test]
fn test_svelte_script_extraction() {
    let content = "
<script lang=\"ts\">
import { invoke } from '@tauri-apps/api';

async function load() {
    await invoke(\"load_data\");
}
</script>

<main>
  <h1>Hello</h1>
</main>
";
    let result = extract_svelte_script(content);
    assert!(result.is_some());

    let (script, _offset) = result.unwrap();
    assert!(script.contains("invoke"));
}

#[test]
fn test_lsp_character_to_byte_index_basic() {
    let s = "aбc";
    assert_eq!(lsp_character_to_byte_index(s, 0), 0);
    assert_eq!(lsp_character_to_byte_index(s, 1), 1);
    assert_eq!(lsp_character_to_byte_index(s, 2), 3);
    assert_eq!(lsp_character_to_byte_index(s, 3), 4);
}

#[test]
fn test_lsp_character_to_byte_index_supplemental() {
    let s2 = "a𐐀c";
    assert_eq!(lsp_character_to_byte_index(s2, 0), 0);
    assert_eq!(lsp_character_to_byte_index(s2, 1), 1);
    assert_eq!(lsp_character_to_byte_index(s2, 3), 5);
    assert_eq!(lsp_character_to_byte_index(s2, 4), 6);
}

#[test]
fn test_lsp_character_to_byte_index_chinese() {
    let user_msg = "test你好";
    assert_eq!(lsp_character_to_byte_index(user_msg, 4), 4);
    assert_eq!(lsp_character_to_byte_index(user_msg, 5), 7);
    assert_eq!(lsp_character_to_byte_index(user_msg, 6), 10);
}

#[test]
fn test_lsp_character_to_byte_index_arabic() {
    let s = "مرحبا";
    assert_eq!(lsp_character_to_byte_index(s, 0), 0);
    assert_eq!(lsp_character_to_byte_index(s, 1), 2);
    assert_eq!(lsp_character_to_byte_index(s, 5), 10);
}

#[test]
fn test_lang_from_extension() {
    assert_eq!(LangType::from_extension("rs"), Some(LangType::Rust));
    assert_eq!(LangType::from_extension("vue"), Some(LangType::Vue));
    assert_eq!(LangType::from_extension("svelte"), Some(LangType::Svelte));
    assert_eq!(LangType::from_extension("txt"), None);
}

#[test]
fn test_import_alias_resolution() {
    let events = vec![
        FrontendEvent::Import { local: "my_invoke".to_string(), imported: "invoke".to_string() },
        FrontendEvent::Call {
            callee: "my_invoke".to_string(),
            arg0: Some(("aliased_command".to_string(), range_at(3, 4, 21))),
            arg1: None,
            parameters: None,
            type_args: None,
        },
    ];
    let fs = frontend_findings(&events, 0);
    assert_eq!(fs.len(), 1);
    assert_eq!(fs[0].key, "aliased_command");
    assert_eq!(fs[0].entity, EntityType::Command);
    assert_eq!(fs[0].behavior, Behavior::Call);
}

#[test]
fn test_emit_to_second_arg() {
    let events = vec![FrontendEvent::Call {
        callee: "emitTo".to_string(),
        arg0: Some(("window-1".to_string(), range_at(2, 11, 19))),
        arg1: Some(("target_event".to_string(), range_at(2, 23, 35))),
        parameters: None,
        type_args: None,
    }];
    let fs = frontend_findings(&events, 0);
    assert_eq!(fs.len(), 1);
    assert_eq!(fs[0].key, "target_event");
    assert_eq!(fs[0].behavior, Behavior::Emit);
}

#[test]
fn test_rust_event_assembly() {
    let events = vec![
        RustEvent::MethodCall {
            method: "emit".to_string(),
            event_name: "file_saved".to_string(),
            range: range_at(2, 13, 23),
        },
        RustEvent::MethodCall {
            method: "listen".to_string(),
            event_name: "progress".to_string(),
            range: range_at(3, 15, 23),
        },
        RustEvent::MethodCall {
            method: "unrelated".to_string(),
            event_name: "ignored".to_string(),
            range: range_at(4, 0, 7),
        },
    ];
    let fs = rust_findings(&events);
    assert_eq!(fs.len(), 2);
    assert_eq!(fs[0].key, "file_saved");
    assert_eq!(fs[0].behavior, Behavior::Emit);
    assert_eq!(fs[1].key, "progress");
    assert_eq!(fs[1].behavior, Behavior::Listen);
}

#[test]
fn test_script_region_line_offset() {
    let content = "<p>x</p>\n<script>\nlet a = 1;\n</script>\n<script>\nlet b = 2;\n</script>\n";
    let blocks = lsp_server::tree_parser::sfc::extract_script_blocks(content);
    assert_eq!(blocks.len(), 2);
    assert!(blocks[0].0.contains("let a"));
    assert_eq!(blocks[0].1, 1);
    assert!(blocks[1].0.contains("let b"));
    assert_eq!(blocks[1].1, 4);
}
