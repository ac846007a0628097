use vidkosha_cortex::binary::Threshold;
use vidkosha_cortex::chunk::{ChunkMetadata, HandlerContext, IngestMode, PreparedChunk};
use vidkosha_cortex::config::{parse_u64, HelixConfig, RagConfig};
use vidkosha_cortex::git::{parse_changed_paths, parse_ls_files};
use vidkosha_cortex::label::{
    derive_topic_from_path, fallback_summary, heuristic_summary, label_chunk_heuristic,
    truncate_to_bytes,
};
use vidkosha_cortex::manifest::{is_unchanged_in_manifest, IngestManifest, ManifestEntry};
use vidkosha_cortex::policy::{build_handlers, should_consider_file, IngestConfig};
use vidkosha_cortex::records::{AgentRequest, RouterIntent};
use vidkosha_cortex::run::{chunk_id, FileDecision, IngestRun, SkipReason};

fn hash_of(data: &[u8]) -> String {
    blake3::hash(data).to_hex().to_string()
}

#[test]
fn ingest_smoke_filters_changed_and_binary() {
    let text_path = "ncx-ingest/keep.rs";
    let bin_path = "ncx-ingest/skip.dat";
    let other_path = "ncx-ingest/other.rs";

    let data_text: &[u8] = b"fn ok() {}\n";
    let data_bin: &[u8] = b"\0\0\0BIN";
    let data_other: &[u8] = b"fn ignore() {}\n";

    let cfg = IngestConfig::builtin_default();
    let handler_ctx = HandlerContext { allow_binary: false, binary_threshold: Threshold::per_million(330_000) };
    let changed = vec![text_path.to_string(), bin_path.to_string()];

    let max_file_bytes = 200_000;

    assert!(should_consider_file(
        text_path,
        true,
        data_text.len() as u64,
        data_text,
        &cfg,
        max_file_bytes,
        Some(&changed),
        &handler_ctx,
    ));

    assert!(!should_consider_file(
        bin_path,
        true,
        data_bin.len() as u64,
        data_bin,
        &cfg,
        max_file_bytes,
        Some(&changed),
        &handler_ctx,
    ));

    assert!(!should_consider_file(
        other_path,
        true,
        data_other.len() as u64,
        data_other,
        &cfg,
        max_file_bytes,
        Some(&changed),
        &handler_ctx,
    ));
}

#[test]
fn filters_reject_directories_empty_and_oversized_files() {
    let cfg = IngestConfig::builtin_default();
    let c = HandlerContext { allow_binary: false, binary_threshold: Threshold::per_million(330_000) };
    let data: &[u8] = b"fn ok() {}\n";
    assert!(should_consider_file("a.rs", true, 11, data, &cfg, 200_000, None, &c));
    assert!(!should_consider_file("a.rs", false, 11, data, &cfg, 200_000, None, &c));
    assert!(!should_consider_file("a.rs", true, 0, data, &cfg, 200_000, None, &c));
    assert!(!should_consider_file("a.rs", true, 11, data, &cfg, 10, None, &c));
    assert!(!should_consider_file("a.rs", true, 11, b"", &cfg, 200_000, None, &c));
    let mut limited = IngestConfig::builtin_default();
    limited.max_file_bytes = Some(11);
    assert!(should_consider_file("a.rs", true, 11, data, &limited, 5, None, &c));
}

#[test]
fn manifest_skips_unchanged_files() {
    let file_path = "ncx-manifest/file.rs";
    let data: &[u8] = b"fn a() {}\n";
    let hash = hash_of(data);
    let mtime = 1_700_000_000;

    let mut manifest = IngestManifest::new();
    manifest.insert(
        file_path.to_string(),
        ManifestEntry { hash: hash.clone(), mtime, chunk_ids: vec!["old".into()] },
    );

    assert!(is_unchanged_in_manifest(file_path, &manifest, &hash, mtime));

    let new_data: &[u8] = b"fn a() {}\nfn b() {}\n";
    let new_hash = hash_of(new_data);

    assert!(!is_unchanged_in_manifest(file_path, &manifest, &new_hash, mtime));
}

#[test]
fn manifest_needs_same_hash_and_mtime() {
    let mut manifest = IngestManifest::new();
    assert!(!is_unchanged_in_manifest("a.rs", &manifest, "h1", 5));
    manifest.insert("a.rs".to_string(), ManifestEntry { hash: "h1".into(), mtime: 5, chunk_ids: vec![] });
    assert!(is_unchanged_in_manifest("a.rs", &manifest, "h1", 5));
    assert!(!is_unchanged_in_manifest("a.rs", &manifest, "h1", 6));
    assert!(!is_unchanged_in_manifest("a.rs", &manifest, "h2", 5));
    assert!(!is_unchanged_in_manifest("b.rs", &manifest, "h1", 5));
}

#[test]
fn manifest_insert_replaces_an_entry() {
    let mut manifest = IngestManifest::new();
    manifest.insert("a.rs".to_string(), ManifestEntry { hash: "h1".into(), mtime: 1, chunk_ids: vec![] });
    manifest.insert("b.rs".to_string(), ManifestEntry { hash: "h2".into(), mtime: 2, chunk_ids: vec![] });
    manifest.insert("a.rs".to_string(), ManifestEntry { hash: "h3".into(), mtime: 3, chunk_ids: vec!["x".into()] });
    assert_eq!(manifest.files.len(), 2);
    let a = manifest.get("a.rs").expect("entry");
    assert_eq!((a.hash.as_str(), a.mtime, a.chunk_ids.clone()), ("h3", 3, vec!["x".to_string()]));
    assert_eq!(manifest.get("b.rs").expect("entry").hash, "h2");
    assert!(manifest.get("c.rs").is_none());
}

fn run_file(run: &mut IngestRun, path: &str, data: &[u8], mtime: u64) -> (usize, usize) {
    let cfg = IngestConfig::builtin_default();
    let c = HandlerContext { allow_binary: false, binary_threshold: Threshold::per_million(330_000) };
    let handlers = build_handlers(&cfg, 1200, 200, &c).expect("valid settings");
    match run.prepare_file(path, true, data.len() as u64, mtime, data, &cfg, 200_000, None, &handlers, &c) {
        FileDecision::Skip(_) => (0, 0),
        FileDecision::Process(plan) => {
            let mut written = Vec::new();
            for (idx, chunk) in plan.chunks.iter().enumerate() {
                if run.admit_chunk(&chunk.text).is_some() {
                    written.push(chunk_id(path, chunk, idx, &plan.file_hash));
                }
            }
            let n = written.len();
            run.complete_file(path.to_string(), plan.file_hash.clone(), plan.mtime, written);
            (plan.chunks.len(), n)
        }
    }
}

#[test]
fn unchanged_file_is_skipped_on_the_next_run() {
    let data: &[u8] = b"fn foo() {}\nstruct Bar {}\n";
    let mut first = IngestRun::new(IngestManifest::new());
    assert_eq!(run_file(&mut first, "src/lib.rs", data, 42), (2, 2));
    let entry = first.manifest.get("src/lib.rs").expect("recorded");
    assert_eq!(entry.hash, hash_of(data));
    assert_eq!(entry.chunk_ids, vec!["src/lib.rs#sym-foo-0-p0of1".to_string(), "src/lib.rs#sym-Bar-12-p0of1".to_string()]);

    let second = IngestRun::new(first.manifest.clone());
    let cfg = IngestConfig::builtin_default();
    let c = HandlerContext { allow_binary: false, binary_threshold: Threshold::per_million(330_000) };
    let handlers = build_handlers(&cfg, 1200, 200, &c).expect("valid settings");
    let decision = second.prepare_file("src/lib.rs", true, data.len() as u64, 42, data, &cfg, 200_000, None, &handlers, &c);
    assert!(matches!(decision, FileDecision::Skip(SkipReason::Unchanged)));
    let touched = second.prepare_file("src/lib.rs", true, data.len() as u64, 43, data, &cfg, 200_000, None, &handlers, &c);
    assert!(matches!(touched, FileDecision::Process(_)));
}

#[test]
fn duplicate_chunks_are_written_once_per_run() {
    let mut run = IngestRun::new(IngestManifest::new());
    let data: &[u8] = b"fn same() {}\n";
    assert_eq!(run_file(&mut run, "a/one.rs", data, 1), (1, 1));
    assert_eq!(run_file(&mut run, "b/two.rs", data, 1), (1, 0));
    assert_eq!(run.manifest.get("b/two.rs").expect("recorded").chunk_ids.len(), 0);
    assert_eq!(run.admit_chunk("fresh"), Some(hash_of(b"fresh")));
    assert_eq!(run.admit_chunk("fresh"), None);
}

#[test]
fn files_without_handler_or_filtered_are_skipped() {
    let run = IngestRun::new(IngestManifest::new());
    let cfg = IngestConfig::builtin_default();
    let c = HandlerContext { allow_binary: false, binary_threshold: Threshold::per_million(330_000) };
    let handlers = build_handlers(&cfg, 1200, 200, &c).expect("valid settings");
    let d = run.prepare_file("a.exe", true, 3, 1, b"abc", &cfg, 200_000, None, &handlers, &c);
    assert!(matches!(d, FileDecision::Skip(SkipReason::Filtered)));
    let mut open = IngestConfig::builtin_default();
    open.allow_extensions = None;
    let d = run.prepare_file("a.weird", true, 3, 1, b"\xff\xfe\xfd", &open, 200_000, None, &handlers, &HandlerContext { allow_binary: true, ..c });
    assert!(matches!(d, FileDecision::Skip(SkipReason::NoHandler)));
}

#[test]
fn chunks_without_hint_get_positional_ids() {
    let chunk = PreparedChunk {
        text: "x".to_string(),
        chunk_index: 3,
        chunk_id_hint: None,
        metadata: ChunkMetadata::with_mode(IngestMode::Text),
    };
    assert_eq!(chunk_id("notes/a.txt", &chunk, 3, "0123456789abcdef"), "notes/a.txt#chunk-3-01234567");
    assert_eq!(chunk_id("a", &chunk, 10, "abc"), "a#chunk-10-abc");
    let hinted = PreparedChunk { chunk_id_hint: Some("h#1".to_string()), ..chunk };
    assert_eq!(chunk_id("a", &hinted, 0, "abc"), "h#1");
}

#[test]
fn heuristic_labels_come_from_path_and_first_lines() {
    let label = label_chunk_heuristic("src/rag/helix.rs", "  first line\nsecond\nthird\nfourth\nfifth\n");
    assert_eq!(label.topic, "rag");
    assert_eq!(label.project, "vidkosha_cortex");
    assert_eq!(label.summary, "first line second third fourth");
    assert!(label.open_questions.is_empty());
    assert_eq!(derive_topic_from_path("README.md"), "README");
    assert_eq!(derive_topic_from_path(".env"), ".env");
    assert_eq!(derive_topic_from_path(""), "chunk");
    assert_eq!(derive_topic_from_path("/top.rs"), "");
    assert_eq!(heuristic_summary("   \n\n"), "Code/document chunk");
    assert_eq!(heuristic_summary(&"a".repeat(300)), "a".repeat(240));
    assert_eq!(fallback_summary("one\ntwo\nthree\nfour"), "one two three");
    assert_eq!(fallback_summary(&"b".repeat(281)), "b".repeat(280));
}

#[test]
fn long_summaries_are_cut_at_a_character_boundary() {
    let text = format!("{}é", "a".repeat(239));
    assert_eq!(heuristic_summary(&text), "a".repeat(239));
}

#[test]
fn environment_settings_and_defaults() {
    let rag = RagConfig::from_env(&vec![]);
    assert_eq!(rag.embedding_api_key, "sk-local");
    assert_eq!(rag.embedding_model, "bge-m3");
    assert_eq!(rag.vector_dim, 1024);
    assert_eq!(rag.embedding_base_url.as_deref(), Some("http://127.0.0.1:9000/v1"));

    let vars = vec![
        ("OPENAI_API_KEY".to_string(), "k2".to_string()),
        ("AIE_RAG_EMBEDDING_API_KEY".to_string(), "k1".to_string()),
        ("RAG_VECTOR_DIM".to_string(), "768".to_string()),
    ];
    let rag = RagConfig::from_env(&vars);
    assert_eq!(rag.embedding_api_key, "k1");
    assert_eq!(rag.vector_dim, 768);

    let bad_dim = vec![("RAG_VECTOR_DIM".to_string(), "12px".to_string())];
    assert_eq!(RagConfig::from_env(&bad_dim).vector_dim, 1024);

    let helix = HelixConfig::from_env(&vec![]);
    assert_eq!(helix.base_url, "http://127.0.0.1:6969");
    assert_eq!(helix.namespace, "vidkosha_cortex");
    assert_eq!(helix.http_timeout_ms, 10_000);
    assert!(helix.api_token.is_none());

    let vars = vec![
        ("HELIX_NAMESPACE".to_string(), "ns".to_string()),
        ("HELIX_API_TOKEN".to_string(), "SECRET-REDACTED".to_string()),
        ("AIE_HELIX_HTTP_TIMEOUT_MS".to_string(), "+2500".to_string()),
    ];
    let helix = HelixConfig::from_env(&vars);
    assert_eq!(helix.namespace, "ns");
    assert_eq!(helix.api_token.as_deref(), Some("SECRET-REDACTED"));
    assert_eq!(helix.http_timeout_ms, 2500);
}

#[test]
fn numerals_parse_like_unsigned_integers() {
    assert_eq!(parse_u64("42"), Some(42));
    assert_eq!(parse_u64("+7"), Some(7));
    assert_eq!(parse_u64("18446744073709551615"), Some(u64::MAX));
    assert_eq!(parse_u64("18446744073709551616"), None);
    assert_eq!(parse_u64(""), None);
    assert_eq!(parse_u64("+"), None);
    assert_eq!(parse_u64("-1"), None);
    assert_eq!(parse_u64(" 1"), None);
}

#[test]
fn plain_records_keep_their_values() {
    assert_eq!(AgentRequest::new("hello".to_string()).input, "hello");
    assert_eq!(RouterIntent::GeneralSupport.label(), "general_support");
    assert_eq!(RouterIntent::Memory.label(), "memory");
}

#[test]
fn git_file_lists_are_parsed() {
    assert_eq!(parse_ls_files(b"a.rs\0dir/b.md\0\0bad\xff\0last"), vec!["a.rs", "dir/b.md", "last"]);
    assert!(parse_ls_files(b"").is_empty());
    assert_eq!(parse_changed_paths(b"  src/a.rs \n\n docs/b.md\r\n"), vec!["src/a.rs", "docs/b.md"]);
}

#[test]
fn truncation_keeps_whole_characters() {
    assert_eq!(truncate_to_bytes("abcdef", 4), "abcd");
    assert_eq!(truncate_to_bytes("abc", 10), "abc");
    assert_eq!(truncate_to_bytes("aé", 2), "a");
    assert_eq!(truncate_to_bytes("aé", 3), "aé");
}
