//! The extraction pipeline's pure half: dialect selection, script-region
//! isolation for embedded-script documents, the fixed rule tables, and
//! the assembly of typed findings from plain syntax events. The grammar
//! runner feeds events in; everything that decides what a finding means
//! stands here.

pub mod assemble;
pub mod builder;
pub mod patterns;
pub mod sfc;

use crate::text::{contains_sub, occurs_from, str_eq};
use vstd::prelude::*;

verus! {

/// The backend grammar's structural query.
pub const RUST_QUERY: &'static str = "(\n  (attribute_item\n    (attribute\n      (scoped_identifier\n        path: (identifier) @_attr_path\n        name: (identifier) @_attr_name)))\n  .\n  (function_item\n    name: (identifier) @command_name\n    parameters: (parameters) @command_params\n    return_type: (_)? @command_return_type)\n  (#eq? @_attr_path \"tauri\")\n  (#eq? @_attr_name \"command\"))\n\n(call_expression\n  function: (field_expression\n    field: (field_identifier) @method_name)\n  arguments: (arguments\n    .\n    (string_literal\n      (string_content) @event_name)))\n\n((attribute_item) @struct_attr\n .\n (struct_item\n   name: (type_identifier) @struct_name) @struct_def)\n\n(struct_item\n  name: (type_identifier) @struct_name) @struct_def\n\n((attribute_item) @enum_attr\n .\n (enum_item\n   name: (type_identifier) @enum_name) @enum_def)\n\n(enum_item\n  name: (type_identifier) @enum_name) @enum_def\n";

/// The scripting grammar's structural query, typed dialect.
pub const TS_QUERY: &'static str = "(call_expression\n  function: (identifier) @func_name\n  type_arguments: (type_arguments)? @type_args\n  arguments: (arguments\n    .\n    (string) @arg_string\n    (object)? @invoke_args))\n\n(import_specifier\n  name: (identifier) @imported_name\n  alias: (identifier) @local_alias)\n\n(interface_declaration\n  name: (type_identifier) @interface_name) @interface_def\n";

/// The scripting grammar's structural query, untyped dialect.
pub const JS_QUERY: &'static str = "(call_expression\n  function: (identifier) @func_name\n  arguments: (arguments\n    .\n    (string) @arg_string\n    (object)? @invoke_args))\n\n(import_specifier\n  name: (identifier) @imported_name\n  alias: (identifier) @local_alias)\n";

/// The source dialects the pipeline distinguishes.
#[derive(Clone, Copy, Debug, PartialEq, Eq, Structural)]
pub enum LangType {
    Rust,
    TypeScript,
    JavaScript,
    Vue,
    Svelte,
    Angular,
}

/// The dialect a file extension selects, if any.
pub open spec fn lang_of_extension(ext: Seq<char>) -> Option<LangType> {
    if ext == "rs"@ {
        Some(LangType::Rust)
    } else if ext == "ts"@ || ext == "tsx"@ {
        Some(LangType::TypeScript)
    } else if ext == "js"@ || ext == "jsx"@ {
        Some(LangType::JavaScript)
    } else if ext == "vue"@ {
        Some(LangType::Vue)
    } else if ext == "svelte"@ {
        Some(LangType::Svelte)
    } else if ext == "component.ts"@ {
        Some(LangType::Angular)
    } else {
        None
    }
}

impl LangType {
    /// Selects the dialect a file extension names.
    pub fn from_extension(ext: &str) -> (r: Option<LangType>)
        ensures
            r == lang_of_extension(ext@),
    {
        if str_eq(ext, "rs") {
            Some(LangType::Rust)
        } else if str_eq(ext, "ts") || str_eq(ext, "tsx") {
            Some(LangType::TypeScript)
        } else if str_eq(ext, "js") || str_eq(ext, "jsx") {
            Some(LangType::JavaScript)
        } else if str_eq(ext, "vue") {
            Some(LangType::Vue)
        } else if str_eq(ext, "svelte") {
            Some(LangType::Svelte)
        } else if str_eq(ext, "component.ts") {
            Some(LangType::Angular)
        } else {
            None
        }
    }
}

/// The structural query belonging to a dialect: the embedded-script and
/// decorator dialects share the typed scripting grammar.
pub fn get_query_source(lang: LangType) -> (r: &'static str)
    ensures
        lang == LangType::Rust ==> r@ == RUST_QUERY@,
        (lang == LangType::TypeScript || lang == LangType::Vue || lang == LangType::Svelte
            || lang == LangType::Angular) ==> r@ == TS_QUERY@,
        lang == LangType::JavaScript ==> r@ == JS_QUERY@,
{
    match lang {
        LangType::Rust => RUST_QUERY,
        LangType::TypeScript | LangType::Vue | LangType::Svelte | LangType::Angular => TS_QUERY,
        LangType::JavaScript => JS_QUERY,
    }
}

/// Whether a typed scripting file carries a recognized framework
/// decorator and is treated as the decorator sub-dialect.
pub fn is_angular_file(content: &str) -> (r: bool)
    ensures
        r == (occurs_from(content@, "@Component("@, 0) || occurs_from(content@, "@Injectable("@, 0)
            || occurs_from(content@, "@NgModule("@, 0) || occurs_from(content@, "@Directive("@, 0)
            || occurs_from(content@, "@Pipe("@, 0)),
{
    contains_sub(content, "@Component(") || contains_sub(content, "@Injectable(") || contains_sub(
        content,
        "@NgModule(",
    ) || contains_sub(content, "@Directive(") || contains_sub(content, "@Pipe(")
}

} // verus!
