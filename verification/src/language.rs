//! Which parser a source file goes to, told by its extension.

use vstd::prelude::*;
use crate::paths::{extension_of_name, file_name_of, is_word, path_extension};
use crate::text::{ascii_lower_chars, ascii_lower_seq, chars_of};

verus! {

broadcast use vstd::string::group_string_axioms;

/// The languages the parser knows.
#[derive(Debug, Clone, Copy, PartialEq, Eq, Structural)]
pub enum SupportedLanguage {
    Python,
    Go,
    Rust,
    JavaScript,
    TypeScriptReact,
    SQL,
    Unknown,
}

/// The language the scanner gives an (already lower-cased) extension:
/// `jsx` goes with the TypeScript/React grammar.
pub open spec fn scanner_language(e: Seq<char>) -> SupportedLanguage {
    if e == "py"@ {
        SupportedLanguage::Python
    } else if e == "go"@ {
        SupportedLanguage::Go
    } else if e == "rs"@ {
        SupportedLanguage::Rust
    } else if e == "js"@ {
        SupportedLanguage::JavaScript
    } else if e == "ts"@ || e == "tsx"@ || e == "jsx"@ {
        SupportedLanguage::TypeScriptReact
    } else if e == "sql"@ {
        SupportedLanguage::SQL
    } else {
        SupportedLanguage::Unknown
    }
}

/// The language the indexer gives an extension, as written (no case
/// folding): `jsx` goes with JavaScript.
pub open spec fn indexer_language(e: Seq<char>) -> SupportedLanguage {
    if e == "py"@ {
        SupportedLanguage::Python
    } else if e == "go"@ {
        SupportedLanguage::Go
    } else if e == "rs"@ {
        SupportedLanguage::Rust
    } else if e == "js"@ || e == "jsx"@ {
        SupportedLanguage::JavaScript
    } else if e == "ts"@ || e == "tsx"@ {
        SupportedLanguage::TypeScriptReact
    } else if e == "sql"@ {
        SupportedLanguage::SQL
    } else {
        SupportedLanguage::Unknown
    }
}

/// The extension of the path, or the empty text when it has none.
pub open spec fn extension_or_empty(path: Seq<char>) -> Seq<char> {
    match path_extension(path) {
        Some(e) => e,
        None => Seq::empty(),
    }
}

fn path_extension_chars(path: &str) -> (r: Option<Vec<char>>)
    ensures
        match r {
            Some(e) => path_extension(path@) == Some(e@),
            None => path_extension(path@) is None,
        },
{
    let v = chars_of(path);
    match file_name_of(&v) {
        None => None,
        Some(n) => extension_of_name(&n),
    }
}

/// The language the scanner parses `path` with: its extension, ASCII
/// lower-cased, decides; a path without one is `Unknown`.
pub fn get_language_from_path(path: &str) -> (r: SupportedLanguage)
    ensures
        r == scanner_language(ascii_lower_seq(extension_or_empty(path@))),
{
    let e = match path_extension_chars(path) {
        Some(e) => e,
        None => Vec::new(),
    };
    let l = ascii_lower_chars(&e);
    if is_word(&l, "py") {
        SupportedLanguage::Python
    } else if is_word(&l, "go") {
        SupportedLanguage::Go
    } else if is_word(&l, "rs") {
        SupportedLanguage::Rust
    } else if is_word(&l, "js") {
        SupportedLanguage::JavaScript
    } else if is_word(&l, "ts") || is_word(&l, "tsx") || is_word(&l, "jsx") {
        SupportedLanguage::TypeScriptReact
    } else if is_word(&l, "sql") {
        SupportedLanguage::SQL
    } else {
        SupportedLanguage::Unknown
    }
}

/// The language the indexer parses `path` with: its extension exactly as
/// written decides; a path without one is `Unknown`.
pub fn detect_language(path: &str) -> (r: SupportedLanguage)
    ensures
        r == match path_extension(path@) {
            Some(e) => indexer_language(e),
            None => SupportedLanguage::Unknown,
        },
{
    match path_extension_chars(path) {
        None => SupportedLanguage::Unknown,
        Some(e) => {
            if is_word(&e, "py") {
                SupportedLanguage::Python
            } else if is_word(&e, "go") {
                SupportedLanguage::Go
            } else if is_word(&e, "rs") {
                SupportedLanguage::Rust
            } else if is_word(&e, "js") || is_word(&e, "jsx") {
                SupportedLanguage::JavaScript
            } else if is_word(&e, "ts") || is_word(&e, "tsx") {
                SupportedLanguage::TypeScriptReact
            } else if is_word(&e, "sql") {
                SupportedLanguage::SQL
            } else {
                SupportedLanguage::Unknown
            }
        },
    }
}

} // verus!
