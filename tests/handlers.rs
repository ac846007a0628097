use vidkosha_cortex::binary::Threshold;
use vidkosha_cortex::chunk::{DataFormat, HandlerContext, IngestMode};
use vidkosha_cortex::handlers::{BinaryHandler, DataHandler, PlainTextHandler};
use vidkosha_cortex::markdown::{markdown_sections, MarkdownHandler};
use vidkosha_cortex::policy::{
    build_handlers, handler_enabled, resolve_handler, should_skip_extension, HandlerConfig,
    IngestConfig, PolicyError,
};

fn ctx(allow_binary: bool) -> HandlerContext {
    HandlerContext { allow_binary, binary_threshold: Threshold::per_million(330_000) }
}

#[test]
fn markdown_handler_attaches_headings() {
    let handler = MarkdownHandler { chunk_bytes: 64, overlap_bytes: 0, heading_depth: 6 };
    let ctx = ctx(false);

    let bytes = b"# Title\nBody line\n## Subhead\nMore text";
    assert!(handler.supports("docs/readme.md", bytes, &ctx));

    let prepared = handler.process("docs/readme.md", bytes, &ctx);

    assert!(prepared.len() >= 2);
    assert_eq!(prepared[0].metadata.markdown_heading.as_deref().unwrap_or(""), "Title");
    assert_eq!(prepared[1].metadata.markdown_heading.as_deref().unwrap_or(""), "Subhead");
}

#[test]
fn markdown_sections_follow_headings() {
    let sections = markdown_sections("# Title\nBody line\n## Sub\nMore text", 6);
    assert_eq!(
        sections,
        vec![
            ("Title".to_string(), "# Title\nBody line\n".to_string()),
            ("Sub".to_string(), "## Sub\nMore text\n".to_string()),
        ]
    );
}

#[test]
fn markdown_deeper_headings_stay_in_their_section() {
    let sections = markdown_sections("intro\n# A\ntext\n### deep\nmore", 2);
    assert_eq!(
        sections,
        vec![
            (String::new(), "intro\n".to_string()),
            ("A".to_string(), "# A\ntext\n### deep\nmore\n".to_string()),
        ]
    );
}

#[test]
fn markdown_text_before_first_heading_has_no_heading() {
    let handler = MarkdownHandler { chunk_bytes: 64, overlap_bytes: 0, heading_depth: 6 };
    let prepared = handler.process("a.md", b"preface\n#  Spaced Title  \nbody", &ctx(false));
    assert_eq!(prepared.len(), 2);
    assert_eq!(prepared[0].metadata.markdown_heading, None);
    assert_eq!(prepared[0].text, "preface\n");
    assert_eq!(prepared[1].metadata.markdown_heading.as_deref(), Some("Spaced Title"));
    assert_eq!(prepared[1].chunk_index, 1);
    assert_eq!(prepared[1].metadata.ingest_mode, IngestMode::Text);
}

#[test]
fn markdown_chunk_index_counts_across_sections() {
    let handler = MarkdownHandler { chunk_bytes: 4, overlap_bytes: 0, heading_depth: 6 };
    let prepared = handler.process("a.md", b"# A\nxy\n# B\n", &ctx(false));
    let texts: Vec<&str> = prepared.iter().map(|p| p.text.as_str()).collect();
    assert_eq!(texts, vec!["# A\n", "xy\n", "# B\n"]);
    let indexes: Vec<usize> = prepared.iter().map(|p| p.chunk_index).collect();
    assert_eq!(indexes, vec![0, 1, 2]);
}

#[test]
fn data_handler_chunks_rows_and_labels_format() {
    let handler = DataHandler { chunk_bytes: 128, overlap_bytes: 0, max_rows_per_chunk: 2 };
    let ctx = ctx(false);

    let bytes = b"a,b\n1,2\n3,4";
    assert!(handler.supports("data/sample.csv", bytes, &ctx));

    let prepared = handler.process("data/sample.csv", bytes, &ctx);

    assert_eq!(prepared.len(), 2);
    assert_eq!(prepared[0].metadata.data_format, Some(DataFormat::Csv));
    assert_eq!(prepared[0].metadata.row_range.unwrap(), (0, 2));
    assert_eq!(prepared[1].metadata.row_range.unwrap(), (2, 3));
}

#[test]
fn data_rows_are_joined_with_line_feeds() {
    let handler = DataHandler { chunk_bytes: 128, overlap_bytes: 0, max_rows_per_chunk: 2 };
    let prepared = handler.process("data/sample.csv", b"a,b\r\n1,2\n3,4\n", &ctx(false));
    let texts: Vec<&str> = prepared.iter().map(|p| p.text.as_str()).collect();
    assert_eq!(texts, vec!["a,b\n1,2", "3,4"]);
    assert!(prepared.iter().all(|p| p.metadata.ingest_mode == IngestMode::Data));
}

#[test]
fn empty_data_file_gives_one_fallback_chunk() {
    let handler = DataHandler { chunk_bytes: 128, overlap_bytes: 0, max_rows_per_chunk: 2 };
    let prepared = handler.process("x.jsonl", b"", &ctx(false));
    assert_eq!(prepared.len(), 1);
    assert_eq!(prepared[0].text, "");
    assert_eq!(prepared[0].metadata.row_range, None);
    assert_eq!(prepared[0].metadata.data_format, None);
    assert_eq!(prepared[0].metadata.ingest_mode, IngestMode::Data);
}

#[test]
fn data_format_follows_extension() {
    assert_eq!(DataHandler::data_format("a.JSONL"), DataFormat::Jsonl);
    assert_eq!(DataHandler::data_format("a.json"), DataFormat::Json);
    assert_eq!(DataHandler::data_format("a.CSV"), DataFormat::Csv);
    let handler = DataHandler { chunk_bytes: 128, overlap_bytes: 0, max_rows_per_chunk: 2 };
    assert!(!handler.supports("a.CSV", b"a,b", &ctx(false)));
}

#[test]
fn binary_handler_marks_binary_payload() {
    let handler = BinaryHandler {};
    let ctx = HandlerContext { allow_binary: true, binary_threshold: Threshold::per_million(100_000) };
    let bytes = b"\0\0BINARY";
    assert!(handler.supports("bin/file.bin", bytes, &ctx));

    let prepared = handler.process("bin/file.bin", bytes, &ctx);

    assert_eq!(prepared.len(), 1);
    let meta = &prepared[0].metadata;
    assert_eq!(meta.ingest_mode, IngestMode::Binary);
    assert_eq!(meta.binary_path.as_deref().unwrap_or(""), "bin/file.bin");
    assert!(prepared[0].text.contains("<binary file"));
}

#[test]
fn binary_placeholder_names_path_and_size() {
    let prepared = BinaryHandler {}.process("bin/file.bin", b"\0\0BINARY", &ctx(true));
    assert_eq!(prepared[0].text, "<binary file: bin/file.bin>");
    assert_eq!(prepared[0].metadata.binary_size, Some(8));
}

#[test]
fn text_handler_leaves_markdown_and_tables_alone() {
    let handler = PlainTextHandler { chunk_bytes: 16, overlap_bytes: 4 };
    let c = ctx(false);
    assert!(handler.supports("notes/todo.txt", b"just text", &c));
    assert!(handler.supports("LICENSE", b"just text", &c));
    assert!(!handler.supports("README.MD", b"just text", &c));
    assert!(!handler.supports("t.jsonl", b"{}", &c));
    assert!(!handler.supports("notes/todo.txt", b"\0\0\0\0", &c));
    let prepared = handler.process("notes/todo.txt", b"0123456789abcdefghij", &c);
    let texts: Vec<&str> = prepared.iter().map(|p| p.text.as_str()).collect();
    assert_eq!(texts, vec!["0123456789abcdef", "cdefghij"]);
}

#[test]
fn handler_selection_prefers_specialized_handlers() {
    let ingest_config = IngestConfig::builtin_default();
    let ctx = HandlerContext {
        allow_binary: ingest_config.allow_binary.unwrap_or(false),
        binary_threshold: ingest_config.binary_threshold.unwrap_or(Threshold::per_million(330_000)),
    };
    let handlers = build_handlers(&ingest_config, 512, 64, &ctx).expect("valid settings");

    let code_bytes = b"fn main() {}";
    let md_bytes = b"# Title\nbody";
    let data_bytes = b"a,b\n1,2";
    let text_bytes = b"just text";

    let code = resolve_handler(&handlers, &ingest_config, "src/lib.rs", code_bytes, &ctx)
        .expect("code handler");
    assert_eq!(code.name(), "code");

    let md = resolve_handler(&handlers, &ingest_config, "docs/readme.md", md_bytes, &ctx)
        .expect("markdown handler");
    assert_eq!(md.name(), "markdown");

    let data = resolve_handler(&handlers, &ingest_config, "data/sample.csv", data_bytes, &ctx)
        .expect("data handler");
    assert_eq!(data.name(), "data");

    let text = resolve_handler(&handlers, &ingest_config, "notes/todo.txt", text_bytes, &ctx)
        .expect("text handler");
    assert_eq!(text.name(), "text");
}

#[test]
fn detected_binary_needs_allow_binary() {
    let cfg = IngestConfig::builtin_default();
    let bytes = b"\xff\x00\xfeBIN";

    let closed = ctx(false);
    let handlers = build_handlers(&cfg, 512, 64, &closed).expect("valid settings");
    assert!(handlers.iter().all(|h| h.name() != "binary"));
    assert!(resolve_handler(&handlers, &cfg, "blob.dat", bytes, &closed).is_none());

    let open = ctx(true);
    let handlers = build_handlers(&cfg, 512, 64, &open).expect("valid settings");
    let chosen = resolve_handler(&handlers, &cfg, "blob.dat", bytes, &open).expect("binary handler");
    assert_eq!(chosen.name(), "binary");
}

#[test]
fn forced_handler_wins_when_it_accepts() {
    let mut cfg = IngestConfig::builtin_default();
    cfg.force_handlers = Some(vec![("rs".to_string(), "TEXT".to_string())]);
    let c = ctx(false);
    let handlers = build_handlers(&cfg, 512, 64, &c).expect("valid settings");
    let chosen = resolve_handler(&handlers, &cfg, "src/LIB.rs", b"fn main() {}", &c).expect("handler");
    assert_eq!(chosen.name(), "text");
    cfg.force_handlers = Some(vec![("rs".to_string(), "data".to_string())]);
    let chosen = resolve_handler(&handlers, &cfg, "src/lib.rs", b"fn main() {}", &c).expect("handler");
    assert_eq!(chosen.name(), "code");
}

#[test]
fn disabled_handlers_are_left_out() {
    let mut cfg = IngestConfig::builtin_default();
    cfg.handlers_disabled = Some(vec!["CODE".to_string()]);
    assert!(!handler_enabled("code", &cfg));
    assert!(handler_enabled("markdown", &cfg));
    let c = ctx(false);
    let handlers = build_handlers(&cfg, 512, 64, &c).expect("valid settings");
    let names: Vec<&str> = handlers.iter().map(|h| h.name()).collect();
    assert_eq!(names, vec!["markdown", "data", "text"]);
    let chosen = resolve_handler(&handlers, &cfg, "src/lib.rs", b"fn main() {}", &c).expect("handler");
    assert_eq!(chosen.name(), "text");
}

#[test]
fn stalled_windows_are_refused() {
    let mut cfg = IngestConfig::builtin_default();
    let stalled = HandlerConfig {
        chunk_bytes: Some(10),
        overlap_bytes: Some(10),
        max_file_bytes: None,
        heading_depth: None,
        max_rows_per_chunk: None,
    };
    cfg.handler_overrides = Some(vec![("code".to_string(), stalled)]);
    assert_eq!(build_handlers(&cfg, 512, 64, &ctx(false)).err(), Some(PolicyError::OverlapNotBelowChunk));

    let no_rows = HandlerConfig { max_rows_per_chunk: Some(0), ..stalled };
    cfg.handler_overrides = Some(vec![("data".to_string(), no_rows)]);
    assert_eq!(build_handlers(&cfg, 512, 64, &ctx(false)).err(), Some(PolicyError::ZeroRowsPerChunk));

    assert_eq!(build_handlers(&IngestConfig::builtin_default(), 64, 64, &ctx(false)).err(), Some(PolicyError::OverlapNotBelowChunk));
}

#[test]
fn extension_filters_lower_case_and_deny_wins() {
    let cfg = IngestConfig::builtin_default();
    assert!(should_skip_extension("Cargo.lock", &cfg));
    assert!(should_skip_extension("script.py", &cfg));
    assert!(should_skip_extension("Makefile", &cfg));
    assert!(!should_skip_extension("src/LIB.RS", &cfg));
    let mut both = IngestConfig::builtin_default();
    both.allow_extensions = Some(vec!["lock".to_string()]);
    assert!(should_skip_extension("Cargo.lock", &both));
}

#[test]
fn resolution_by_file_kind() {
    let cfg = IngestConfig::builtin_default();
    let c = ctx(false);
    let handlers = build_handlers(&cfg, 1200, 200, &c).expect("valid settings");
    let name = |path: &str, bytes: &[u8]| resolve_handler(&handlers, &cfg, path, bytes, &c).map(|h| h.name());
    assert_eq!(name("main.rs", b"fn main() {}\n"), Some("code"));
    assert_eq!(name("readme.md", b"# Readme\n"), Some("markdown"));
    assert_eq!(name("data.csv", b"a,b\n1,2\n"), Some("data"));
    assert_eq!(name("notes.txt", b"remember this\n"), Some("text"));
    assert_eq!(name("image.png", b"\x89PNG\r\n\x1a\n\0\0\0\rIHDR"), None);
}
