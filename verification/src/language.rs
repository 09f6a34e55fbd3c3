//! The languages that symbols are found in, and what is looked for in each.

use vstd::prelude::*;

use crate::paths::{extension, path_extension};
use crate::text::str_eq;

verus! {

/// A language that symbols are found in.
#[derive(Debug, Clone, Copy, PartialEq, Eq, Structural)]
pub enum Language {
    Rust,
    TypeScript,
    JavaScript,
    Svelte,
    Html,
    Css,
}

/// What is looked for in Rust sources.
pub const RUST_QUERY: &'static str = "(struct_item name: (type_identifier) @name) @definition.class\n(enum_item name: (type_identifier) @name) @definition.class\n(union_item name: (type_identifier) @name) @definition.class\n(type_item name: (type_identifier) @name) @definition.class\n(function_item name: (identifier) @name) @definition.function\n(trait_item name: (type_identifier) @name) @definition.interface\n(mod_item name: (identifier) @name) @definition.module\n(macro_definition name: (identifier) @name) @definition.macro\n(impl_item type: (type_identifier) @name) @definition.impl\n(call_expression function: (identifier) @name) @reference.call\n(call_expression function: (field_expression field: (field_identifier) @name)) @reference.call\n(call_expression function: (scoped_identifier name: (identifier) @name)) @reference.call\n(macro_invocation macro: (identifier) @name) @reference.call\n";

/// What is looked for in JavaScript sources.
pub const JAVASCRIPT_QUERY: &'static str = "(method_definition name: (property_identifier) @name) @definition.method\n(class name: (_) @name) @definition.class\n(class_declaration name: (_) @name) @definition.class\n(function_expression name: (identifier) @name) @definition.function\n(function_declaration name: (identifier) @name) @definition.function\n(generator_function name: (identifier) @name) @definition.function\n(generator_function_declaration name: (identifier) @name) @definition.function\n(variable_declarator name: (identifier) @name value: [(arrow_function) (function_expression)]) @definition.function\n(assignment_expression left: [(identifier) @name (member_expression property: (property_identifier) @name)] right: [(arrow_function) (function_expression)]) @definition.function\n(pair key: (property_identifier) @name value: [(arrow_function) (function_expression)]) @definition.function\n(call_expression function: (identifier) @name) @reference.call\n(call_expression function: (member_expression property: (property_identifier) @name)) @reference.call\n";

/// What is looked for in TypeScript sources.
pub const TYPESCRIPT_QUERY: &'static str = "(function_signature name: (identifier) @name) @definition.function\n(method_signature name: (property_identifier) @name) @definition.method\n(abstract_method_signature name: (property_identifier) @name) @definition.method\n(abstract_class_declaration name: (type_identifier) @name) @definition.class\n(module name: (identifier) @name) @definition.module\n(interface_declaration name: (type_identifier) @name) @definition.interface\n(type_alias_declaration name: (type_identifier) @name) @definition.type\n(method_definition name: (property_identifier) @name) @definition.method\n(class_declaration name: (_) @name) @definition.class\n(function_expression name: (identifier) @name) @definition.function\n(function_declaration name: (identifier) @name) @definition.function\n(generator_function_declaration name: (identifier) @name) @definition.function\n(variable_declarator name: (identifier) @name value: [(arrow_function) (function_expression)]) @definition.function\n(assignment_expression left: [(identifier) @name (member_expression property: (property_identifier) @name)] right: [(arrow_function) (function_expression)]) @definition.function\n(pair key: (property_identifier) @name value: [(arrow_function) (function_expression)]) @definition.function\n(call_expression function: (identifier) @name) @reference.call\n(call_expression function: (member_expression property: (property_identifier) @name)) @reference.call\n";

/// What is looked for in Svelte components: their scripts, whose symbols are found as those
/// of TypeScript.
pub const SVELTE_QUERY: &'static str = "(script_element) @script\n";

/// What is looked for in HTML documents: their elements.
pub const HTML_QUERY: &'static str = "(element (start_tag (tag_name) @name)) @definition.element\n(script_element (start_tag (tag_name) @name)) @definition.element\n(style_element (start_tag (tag_name) @name)) @definition.element\n";

/// What is looked for in style sheets: their rules.
pub const CSS_QUERY: &'static str = "(rule_set (selectors) @name) @definition.rule\n(keyframes_statement (keyframes_name) @name) @definition.rule\n";

/// The language that a file extension stands for.
pub open spec fn language_of(ext: Seq<char>) -> Option<Language> {
    if ext == "rs"@ {
        Some(Language::Rust)
    } else if ext == "ts"@ || ext == "tsx"@ || ext == "jsx"@ {
        Some(Language::TypeScript)
    } else if ext == "js"@ || ext == "mjs"@ || ext == "cjs"@ {
        Some(Language::JavaScript)
    } else if ext == "svelte"@ {
        Some(Language::Svelte)
    } else if ext == "html"@ || ext == "htm"@ {
        Some(Language::Html)
    } else if ext == "css"@ {
        Some(Language::Css)
    } else {
        None
    }
}

/// The name of a language.
pub open spec fn language_name(l: Language) -> Seq<char> {
    match l {
        Language::Rust => "rust"@,
        Language::TypeScript => "typescript"@,
        Language::JavaScript => "javascript"@,
        Language::Svelte => "svelte"@,
        Language::Html => "html"@,
        Language::Css => "css"@,
    }
}

/// What is looked for in sources of a language.
pub open spec fn query_of(l: Language) -> Seq<char> {
    match l {
        Language::Rust => RUST_QUERY@,
        Language::TypeScript => TYPESCRIPT_QUERY@,
        Language::JavaScript => JAVASCRIPT_QUERY@,
        Language::Svelte => SVELTE_QUERY@,
        Language::Html => HTML_QUERY@,
        Language::Css => CSS_QUERY@,
    }
}

impl Language {
    /// The language that a file extension stands for.
    pub fn from_extension(ext: &str) -> (r: Option<Language>)
        ensures
            r == language_of(ext@),
    {
        if str_eq(ext, "rs") {
            Some(Language::Rust)
        } else if str_eq(ext, "ts") || str_eq(ext, "tsx") || str_eq(ext, "jsx") {
            Some(Language::TypeScript)
        } else if str_eq(ext, "js") || str_eq(ext, "mjs") || str_eq(ext, "cjs") {
            Some(Language::JavaScript)
        } else if str_eq(ext, "svelte") {
            Some(Language::Svelte)
        } else if str_eq(ext, "html") || str_eq(ext, "htm") {
            Some(Language::Html)
        } else if str_eq(ext, "css") {
            Some(Language::Css)
        } else {
            None
        }
    }

    /// The name of the language.
    pub fn as_str(&self) -> (r: &'static str)
        ensures
            r@ == language_name(*self),
    {
        match self {
            Language::Rust => "rust",
            Language::TypeScript => "typescript",
            Language::JavaScript => "javascript",
            Language::Svelte => "svelte",
            Language::Html => "html",
            Language::Css => "css",
        }
    }

    /// What is looked for in sources of the language.
    pub fn query_source(&self) -> (r: &'static str)
        ensures
            r@ == query_of(*self),
    {
        match self {
            Language::Rust => RUST_QUERY,
            Language::TypeScript => TYPESCRIPT_QUERY,
            Language::JavaScript => JAVASCRIPT_QUERY,
            Language::Svelte => SVELTE_QUERY,
            Language::Html => HTML_QUERY,
            Language::Css => CSS_QUERY,
        }
    }
}

/// The language of a file, by its extension.
pub open spec fn language_of_file(path: Seq<char>) -> Option<Language> {
    match path_extension(path) {
        Some(e) => language_of(e),
        None => None,
    }
}

/// The language of a file, by its extension.
pub fn detect_language(path: &str) -> (r: Option<Language>)
    ensures
        r == language_of_file(path@),
{
    match extension(path) {
        Some(e) => Language::from_extension(&e),
        None => None,
    }
}

/// The languages of files, by their extensions; a file with any other extension, or with none,
/// is not read.
pub proof fn extensions_tell_languages(ext: Seq<char>)
    ensures
        language_of(ext) == Some(Language::Rust) <==> ext == "rs"@,
        language_of(ext) == Some(Language::TypeScript) <==> ext == "ts"@ || ext == "tsx"@ || ext
            == "jsx"@,
        language_of(ext) == Some(Language::JavaScript) <==> ext == "js"@ || ext == "mjs"@ || ext
            == "cjs"@,
        language_of(ext) == Some(Language::Svelte) <==> ext == "svelte"@,
        language_of(ext) == Some(Language::Html) <==> ext == "html"@ || ext == "htm"@,
        language_of(ext) == Some(Language::Css) <==> ext == "css"@,
{
    reveal_strlit("rs");
    reveal_strlit("ts");
    reveal_strlit("tsx");
    reveal_strlit("jsx");
    reveal_strlit("js");
    reveal_strlit("mjs");
    reveal_strlit("cjs");
    reveal_strlit("svelte");
    reveal_strlit("html");
    reveal_strlit("htm");
    reveal_strlit("css");
    assert("rs"@.len() == 2 && "rs"@[0] == 'r');
    assert("ts"@.len() == 2 && "ts"@[0] == 't');
    assert("js"@.len() == 2 && "js"@[0] == 'j');
    assert("tsx"@.len() == 3 && "tsx"@[0] == 't');
    assert("jsx"@.len() == 3 && "jsx"@[0] == 'j');
    assert("mjs"@.len() == 3 && "mjs"@[0] == 'm');
    assert("cjs"@.len() == 3 && "cjs"@[0] == 'c' && "cjs"@[1] == 'j');
    assert("css"@.len() == 3 && "css"@[0] == 'c' && "css"@[1] == 's');
    assert("htm"@.len() == 3 && "htm"@[0] == 'h');
    assert("html"@.len() == 4);
    assert("svelte"@.len() == 6);
}

/// The names of the languages.
pub proof fn languages_have_names()
    ensures
        language_name(Language::Rust) == "rust"@,
        language_name(Language::TypeScript) == "typescript"@,
        language_name(Language::JavaScript) == "javascript"@,
        language_name(Language::Svelte) == "svelte"@,
        language_name(Language::Html) == "html"@,
        language_name(Language::Css) == "css"@,
{
}

/// A file is of the language that its extension stands for.
pub proof fn files_are_of_their_extensions(path: Seq<char>)
    ensures
        language_of_file(path) == match path_extension(path) {
            Some(e) => language_of(e),
            None => None,
        },
{
}

} // verus!
