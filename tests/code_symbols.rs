use vidkosha_cortex::chunk::{HandlerContext, IngestMode};
use vidkosha_cortex::binary::Threshold;
use vidkosha_cortex::code::{
    chunk_code_symbols, extract_symbols, language_from_extension, language_name,
    sanitize_symbol_name, CodeHandler, CodeLanguage,
};

fn text_ctx() -> HandlerContext {
    HandlerContext { allow_binary: false, binary_threshold: Threshold::per_million(330_000) }
}

#[test]
fn rust_symbols_are_extracted() {
    let content = r#"
fn foo() {}

struct Bar {}

impl Bar {
    fn baz(&self) {}
}
"#;

    let symbols = extract_symbols(content, CodeLanguage::Rust).expect("parse rust");
    assert!(symbols.iter().any(|s| s.kind == "function_item"));
    assert!(symbols.iter().any(|s| s.kind == "struct_item"));
}

#[test]
fn typescript_symbols_are_extracted() {
    let content = r#"
function foo() {}
class Widget {
  method() {}
}
"#;

    let symbols = extract_symbols(content, CodeLanguage::TypeScript).expect("parse ts");
    let names: Vec<String> = symbols.iter().map(|s| s.name.clone()).collect();

    assert!(names.contains(&"foo".to_string()));
    assert!(names.contains(&"Widget".to_string()));
    assert!(names.contains(&"method".to_string()));
}

#[test]
fn python_symbols_are_extracted() {
    let content = r#"
def foo():
    pass

class Bar:
    def baz(self):
        pass
"#;

    let symbols = extract_symbols(content, CodeLanguage::Python).expect("parse py");
    let names: Vec<String> = symbols.iter().map(|s| s.name.clone()).collect();

    assert!(names.contains(&"foo".to_string()));
    assert!(names.contains(&"Bar".to_string()));
    assert!(names.contains(&"baz".to_string()));
}

#[test]
fn symbol_chunks_split_large_bodies() {
    let body = "let x = 1;\n".repeat(200);
    let content = format!("fn big() {{\n{}\n}}", body);

    let chunks =
        chunk_code_symbols(&content, 200, 50, CodeLanguage::Rust).expect("chunk rust symbols");

    // big() should be the only symbol, but split into multiple parts
    assert!(chunks.len() > 1);
    let parts: Vec<_> = chunks
        .iter()
        .map(|c| (c.symbol.name.clone(), c.part_index, c.part_count))
        .collect();
    assert!(parts.iter().all(|(name, _, _)| name == "big"));
    let total = parts[0].2;
    assert!(total > 1);
    assert!(parts.iter().any(|(_, idx, _)| *idx == 0));
}

#[test]
fn symbols_come_sorted_by_start_offset() {
    let content = "struct A {}\nfn b() {}\nenum C { X }\n";
    let symbols = extract_symbols(content, CodeLanguage::Rust).expect("parse rust");
    let starts: Vec<usize> = symbols.iter().map(|s| s.start_byte).collect();
    let mut sorted = starts.clone();
    sorted.sort();
    assert_eq!(starts, sorted);
    let names: Vec<&str> = symbols.iter().map(|s| s.name.as_str()).collect();
    assert_eq!(names, vec!["A", "b", "C"]);
}

#[test]
fn code_handler_sets_language_and_chunk_id_hint() {
    let handler = CodeHandler { chunk_bytes: 256, overlap_bytes: 32 };
    let ctx = text_ctx();

    let bytes = b"fn demo() {}\n";
    assert!(handler.supports("src/lib.rs", bytes, &ctx));

    let prepared = handler.process("src/lib.rs", bytes, &ctx);

    assert!(!prepared.is_empty());
    let first = &prepared[0];
    let lang = first.metadata.language.as_deref().unwrap_or("");
    assert_eq!(lang, "rust");
    assert!(first.chunk_id_hint.is_some());
    assert_eq!(first.metadata.ingest_mode, IngestMode::Code);
}

#[test]
fn code_chunk_id_hint_names_symbol_offset_and_part() {
    let handler = CodeHandler { chunk_bytes: 256, overlap_bytes: 32 };
    let prepared = handler.process("src/lib.rs", b"fn demo() {}\n", &text_ctx());
    assert_eq!(prepared[0].chunk_id_hint.as_deref(), Some("src/lib.rs#sym-demo-0-p0of1"));
    let sym = prepared[0].metadata.symbol.as_ref().expect("symbol metadata");
    assert_eq!(sym.name, "demo");
    assert_eq!(sym.kind, "function_item");
    assert_eq!((sym.start_byte, sym.end_byte), (0, 12));
    assert_eq!(prepared[0].text, "fn demo() {}");
}

#[test]
fn rust_source_yields_one_chunk_per_symbol() {
    let handler = CodeHandler { chunk_bytes: 200, overlap_bytes: 50 };
    let prepared = handler.process("src/main.rs", b"fn foo() {}\nstruct Bar {}\n", &text_ctx());
    assert_eq!(prepared.len(), 2);
    let kinds: Vec<String> = prepared
        .iter()
        .map(|p| p.metadata.symbol.as_ref().expect("symbol").kind.clone())
        .collect();
    assert_eq!(kinds, vec!["function_item".to_string(), "struct_item".to_string()]);
    assert!(prepared.iter().all(|p| p.metadata.symbol.as_ref().unwrap().part_count == 1));
    assert_eq!(prepared[0].chunk_index, 0);
    assert_eq!(prepared[1].chunk_index, 1);
}

#[test]
fn code_without_symbols_falls_back_to_windows() {
    let handler = CodeHandler { chunk_bytes: 4, overlap_bytes: 1 };
    let prepared = handler.process("src/lib.rs", b"// a comment", &text_ctx());
    let texts: Vec<&str> = prepared.iter().map(|p| p.text.as_str()).collect();
    assert_eq!(texts, vec!["// a", "a co", "omme", "ent"]);
    assert!(prepared.iter().all(|p| p.chunk_id_hint.is_none()));
    assert!(prepared.iter().all(|p| p.metadata.language.as_deref() == Some("rust")));
    assert!(prepared.iter().all(|p| p.metadata.symbol.is_none()));
}

#[test]
fn code_handler_rejects_unknown_languages_and_invalid_utf8() {
    let handler = CodeHandler { chunk_bytes: 256, overlap_bytes: 32 };
    let ctx = text_ctx();
    assert!(!handler.supports("notes.txt", b"fn a() {}", &ctx));
    assert!(!handler.supports("src/lib.rs", b"fn a() {}\xff", &ctx));
    assert!(handler.process("notes.txt", b"fn a() {}", &ctx).is_empty());
}

#[test]
fn languages_follow_extensions_without_case() {
    assert_eq!(language_from_extension("a/b.RS"), Some(CodeLanguage::Rust));
    assert_eq!(language_from_extension("x.tsx"), Some(CodeLanguage::Tsx));
    assert_eq!(language_from_extension("x.jsx"), Some(CodeLanguage::JavaScript));
    assert_eq!(language_from_extension("x.py"), Some(CodeLanguage::Python));
    assert_eq!(language_from_extension(".rs"), None);
    assert_eq!(language_from_extension("Makefile"), None);
    assert_eq!(language_name(CodeLanguage::TypeScript), "typescript");
}

#[test]
fn symbol_names_are_sanitized() {
    assert_eq!(sanitize_symbol_name("impl Foo<T>"), "impl_Foo_T_");
    assert_eq!(sanitize_symbol_name("été2"), "été2");
}
