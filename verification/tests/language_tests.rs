use ozymem::language::{detect_language, get_language_from_path, SupportedLanguage};

#[test]
fn maps_extensions_to_languages() {
    assert_eq!(get_language_from_path("file.py"), SupportedLanguage::Python);
    assert_eq!(get_language_from_path("file.go"), SupportedLanguage::Go);
    assert_eq!(get_language_from_path("file.rs"), SupportedLanguage::Rust);
    assert_eq!(get_language_from_path("file.js"), SupportedLanguage::JavaScript);
    assert_eq!(get_language_from_path("file.ts"), SupportedLanguage::TypeScriptReact);
    assert_eq!(get_language_from_path("file.tsx"), SupportedLanguage::TypeScriptReact);
    assert_eq!(get_language_from_path("file.jsx"), SupportedLanguage::TypeScriptReact);
    assert_eq!(get_language_from_path("file.sql"), SupportedLanguage::SQL);
    assert_eq!(get_language_from_path("file.txt"), SupportedLanguage::Unknown);
    assert_eq!(get_language_from_path("file"), SupportedLanguage::Unknown);
}

#[test]
fn scanner_folds_extension_case() {
    assert_eq!(get_language_from_path("src/Main.PY"), SupportedLanguage::Python);
    assert_eq!(get_language_from_path(r"C:\proj\lib.Rs"), SupportedLanguage::Rust);
    assert_eq!(get_language_from_path(".rs"), SupportedLanguage::Unknown);
}

#[test]
fn indexer_keeps_extension_case_and_sends_jsx_to_javascript() {
    assert_eq!(detect_language("app/view.jsx"), SupportedLanguage::JavaScript);
    assert_eq!(detect_language("app/view.tsx"), SupportedLanguage::TypeScriptReact);
    assert_eq!(detect_language("db/schema.sql"), SupportedLanguage::SQL);
    assert_eq!(detect_language("Main.PY"), SupportedLanguage::Unknown);
    assert_eq!(detect_language("Makefile"), SupportedLanguage::Unknown);
}
