use vstd::prelude::*;

use crate::binary::{classify_binary, is_probably_binary_with_threshold, Threshold};
use crate::chunk::{HandlerContext, PreparedChunk};
use crate::code::CodeHandler;
use crate::handlers::{path_extension, BinaryHandler, DataHandler, PlainTextHandler};
use crate::markdown::MarkdownHandler;
use crate::text::{ascii_lowercase, chars_eq, chars_of, extension_of, to_ascii_lower};

verus! {

/// Per-handler settings that override the run's defaults.
#[derive(Clone, Copy, Debug, PartialEq, Eq, Structural)]
pub struct HandlerConfig {
    pub chunk_bytes: Option<usize>,
    pub overlap_bytes: Option<usize>,
    pub max_file_bytes: Option<u64>,
    pub heading_depth: Option<usize>,
    pub max_rows_per_chunk: Option<usize>,
}

/// The ingest policy of a run.  `handler_overrides` is keyed by handler
/// name and `force_handlers` maps an extension to a handler name; in both,
/// the first entry with a key counts.
#[derive(Clone, Debug)]
pub struct IngestConfig {
    pub allow_extensions: Option<Vec<String>>,
    pub deny_extensions: Option<Vec<String>>,
    pub max_file_bytes: Option<u64>,
    pub manifest_path: Option<String>,
    pub binary_threshold: Option<Threshold>,
    pub allow_binary: Option<bool>,
    pub handlers_disabled: Option<Vec<String>>,
    pub handler_overrides: Option<Vec<(String, HandlerConfig)>>,
    pub force_handlers: Option<Vec<(String, String)>>,
}

/// Why a handler registry could not be built.
#[derive(Clone, Copy, Debug, PartialEq, Eq, Structural)]
pub enum PolicyError {
    /// A chunking handler's overlap is not below its non-zero chunk size, so
    /// its window would never advance.
    OverlapNotBelowChunk,
    /// The data handler's row window is zero rows long.
    ZeroRowsPerChunk,
}

pub open spec fn string_views(v: Seq<String>) -> Seq<Seq<char>> {
    v.map_values(|s: String| s@)
}

/// Whether the handler called `name` is enabled: it is not listed, in any
/// ASCII case, among the disabled handlers.
pub open spec fn handler_on(cfg: IngestConfig, name: Seq<char>) -> bool {
    match cfg.handlers_disabled {
        Some(d) => !exists|i: int|
            0 <= i < d@.len() && #[trigger] ascii_lowercase(d@[i]@) == ascii_lowercase(name),
        None => true,
    }
}

/// Whether two texts are equal up to ASCII case.
fn eq_ignore_ascii_case(a: &[char], b: &[char]) -> (r: bool)
    ensures
        r == (ascii_lowercase(a@) == ascii_lowercase(b@)),
{
    let la = to_ascii_lower(a);
    let lb = to_ascii_lower(b);
    chars_eq(&la, &lb)
}

pub fn handler_enabled(name: &str, cfg: &IngestConfig) -> (r: bool)
    ensures
        r == handler_on(*cfg, name@),
{
    match &cfg.handlers_disabled {
        Some(d) => {
            let n = chars_of(name);
            let mut i: usize = 0;
            while i < d.len()
                invariant
                    i <= d@.len(),
                    n@ == name@,
                    cfg.handlers_disabled == Some(*d),
                    forall|j: int| 0 <= j < i ==> #[trigger] ascii_lowercase(d@[j]@) != ascii_lowercase(name@),
                decreases d@.len() - i,
            {
                let c = chars_of(d[i].as_str());
                if eq_ignore_ascii_case(&c, &n) {
                    assert(cfg.handlers_disabled == Some(*d));
                    assert(ascii_lowercase(d@[i as int]@) == ascii_lowercase(name@));
                    let ghost dd = cfg.handlers_disabled.unwrap();
                    assert(dd@ == d@);
                    assert(exists|j: int| 0 <= j < dd@.len() && #[trigger] ascii_lowercase(dd@[j]@) == ascii_lowercase(name@));
                    return false;
                }
                i = i + 1;
            }
            true
        },
        None => true,
    }
}

/// The position of the first override entry for `name`.
pub open spec fn override_index(entries: Seq<(String, HandlerConfig)>, name: Seq<char>) -> Option<int> {
    if exists|i: int| 0 <= i < entries.len() && (#[trigger] entries[i]).0@ == name {
        let i = choose|i: int|
            0 <= i < entries.len() && (#[trigger] entries[i]).0@ == name && forall|j: int|
                0 <= j < i ==> (#[trigger] entries[j]).0@ != name;
        Some(i)
    } else {
        None
    }
}

/// The override entry for `name`, if there is one.
pub open spec fn override_for(cfg: IngestConfig, name: Seq<char>) -> Option<HandlerConfig> {
    match cfg.handler_overrides {
        Some(m) => match override_index(m@, name) {
            Some(i) => Some(m@[i].1),
            None => None,
        },
        None => None,
    }
}

/// The settings of handler `name`: the run's chunk and overlap sizes and the
/// policy's file size limit, each replaced by the handler's override where
/// it has one.
pub open spec fn options_for(cfg: IngestConfig, name: Seq<char>, chunk: usize, overlap: usize) -> HandlerConfig {
    match override_for(cfg, name) {
        Some(o) => HandlerConfig {
            chunk_bytes: Some(if o.chunk_bytes.is_some() { o.chunk_bytes.unwrap() } else { chunk }),
            overlap_bytes: Some(if o.overlap_bytes.is_some() { o.overlap_bytes.unwrap() } else { overlap }),
            max_file_bytes: if o.max_file_bytes.is_some() { o.max_file_bytes } else { cfg.max_file_bytes },
            heading_depth: o.heading_depth,
            max_rows_per_chunk: o.max_rows_per_chunk,
        },
        None => HandlerConfig {
            chunk_bytes: Some(chunk),
            overlap_bytes: Some(overlap),
            max_file_bytes: cfg.max_file_bytes,
            heading_depth: None,
            max_rows_per_chunk: None,
        },
    }
}

fn find_override(entries: &Vec<(String, HandlerConfig)>, name: &str) -> (r: Option<usize>)
    ensures
        match r {
            Some(i) => i < entries@.len() && override_index(entries@, name@) == Some(i as int),
            None => override_index(entries@, name@).is_none(),
        },
{
    let n = chars_of(name);
    let mut i: usize = 0;
    while i < entries.len()
        invariant
            i <= entries@.len(),
            n@ == name@,
            forall|j: int| 0 <= j < i ==> (#[trigger] entries@[j]).0@ != name@,
        decreases entries@.len() - i,
    {
        let k = chars_of(entries[i].0.as_str());
        if chars_eq(&k, &n) {
            proof {
                let w = choose|w: int|
                    0 <= w < entries@.len() && (#[trigger] entries@[w]).0@ == name@ && forall|j: int|
                        0 <= j < w ==> (#[trigger] entries@[j]).0@ != name@;
                assert(entries@[i as int].0@ == name@);
                if w < i {
                    assert(entries@[w].0@ != name@);
                } else if w > i {
                    assert(entries@[i as int].0@ != name@);
                }
            }
            return Some(i);
        }
        i = i + 1;
    }
    None
}

/// The settings for handler `name`; see `options_for`.
pub fn handler_options_for(name: &str, cfg: &IngestConfig, default_chunk_bytes: usize, default_overlap: usize) -> (r: HandlerConfig)
    ensures
        r == options_for(*cfg, name@, default_chunk_bytes, default_overlap),
{
    let mut base = HandlerConfig {
        chunk_bytes: Some(default_chunk_bytes),
        overlap_bytes: Some(default_overlap),
        max_file_bytes: cfg.max_file_bytes,
        heading_depth: None,
        max_rows_per_chunk: None,
    };
    if let Some(map) = &cfg.handler_overrides {
        if let Some(i) = find_override(map, name) {
            let o = map[i].1;
            if let Some(cb) = o.chunk_bytes {
                base.chunk_bytes = Some(cb);
            }
            if let Some(ob) = o.overlap_bytes {
                base.overlap_bytes = Some(ob);
            }
            if let Some(mb) = o.max_file_bytes {
                base.max_file_bytes = Some(mb);
            }
            base.heading_depth = o.heading_depth;
            base.max_rows_per_chunk = o.max_rows_per_chunk;
        }
    }
    base
}

/// One of the content handlers; the registry tries them in a fixed order.
#[derive(Clone, Copy, Debug)]
pub enum Handler {
    Code(CodeHandler),
    Markdown(MarkdownHandler),
    Data(DataHandler),
    Text(PlainTextHandler),
    Binary(BinaryHandler),
}

impl Handler {
    pub open spec fn label(self) -> Seq<char> {
        match self {
            Handler::Code(_) => "code"@,
            Handler::Markdown(_) => "markdown"@,
            Handler::Data(_) => "data"@,
            Handler::Text(_) => "text"@,
            Handler::Binary(_) => "binary"@,
        }
    }

    pub open spec fn valid(self) -> bool {
        match self {
            Handler::Code(h) => h.valid(),
            Handler::Markdown(h) => h.valid(),
            Handler::Data(h) => h.valid(),
            Handler::Text(h) => h.valid(),
            Handler::Binary(_) => true,
        }
    }

    pub open spec fn accepts(self, path: Seq<char>, bytes: Seq<u8>, ctx: HandlerContext) -> bool {
        match self {
            Handler::Code(h) => h.accepts(path, bytes, ctx),
            Handler::Markdown(h) => h.accepts(path, bytes, ctx),
            Handler::Data(h) => h.accepts(path, bytes, ctx),
            Handler::Text(h) => h.accepts(path, bytes, ctx),
            Handler::Binary(h) => h.accepts(path, bytes, ctx),
        }
    }

    pub open spec fn output_ok(self, path: Seq<char>, bytes: Seq<u8>, r: Seq<PreparedChunk>) -> bool {
        match self {
            Handler::Code(h) => h.output_ok(path, bytes, r),
            Handler::Markdown(h) => h.output_ok(path, bytes, r),
            Handler::Data(h) => h.output_ok(path, bytes, r),
            Handler::Text(h) => h.output_ok(path, bytes, r),
            Handler::Binary(h) => h.output_ok(path, bytes, r),
        }
    }

    pub fn name(&self) -> (r: &'static str)
        ensures
            r@ == self.label(),
    {
        match self {
            Handler::Code(h) => h.name(),
            Handler::Markdown(h) => h.name(),
            Handler::Data(h) => h.name(),
            Handler::Text(h) => h.name(),
            Handler::Binary(h) => h.name(),
        }
    }

    pub fn supports(&self, path: &str, bytes: &[u8], ctx: &HandlerContext) -> (r: bool)
        ensures
            r == self.accepts(path@, bytes@, *ctx),
    {
        match self {
            Handler::Code(h) => h.supports(path, bytes, ctx),
            Handler::Markdown(h) => h.supports(path, bytes, ctx),
            Handler::Data(h) => h.supports(path, bytes, ctx),
            Handler::Text(h) => h.supports(path, bytes, ctx),
            Handler::Binary(h) => h.supports(path, bytes, ctx),
        }
    }

    pub fn process(&self, path: &str, bytes: &[u8], ctx: &HandlerContext) -> (r: Vec<PreparedChunk>)
        requires
            self.valid(),
        ensures
            self.output_ok(path@, bytes@, r@),
    {
        match self {
            Handler::Code(h) => h.process(path, bytes, ctx),
            Handler::Markdown(h) => h.process(path, bytes, ctx),
            Handler::Data(h) => h.process(path, bytes, ctx),
            Handler::Text(h) => h.process(path, bytes, ctx),
            Handler::Binary(h) => h.process(path, bytes, ctx),
        }
    }
}

pub open spec fn opt_seq(on: bool, h: Handler) -> Seq<Handler> {
    if on {
        seq![h]
    } else {
        seq![]
    }
}

pub open spec fn code_handler_of(cfg: IngestConfig, chunk: usize, overlap: usize) -> Handler {
    let o = options_for(cfg, "code"@, chunk, overlap);
    Handler::Code(CodeHandler { chunk_bytes: o.chunk_bytes.unwrap(), overlap_bytes: o.overlap_bytes.unwrap() })
}

pub open spec fn markdown_handler_of(cfg: IngestConfig, chunk: usize, overlap: usize) -> Handler {
    let o = options_for(cfg, "markdown"@, chunk, overlap);
    Handler::Markdown(
        MarkdownHandler {
            chunk_bytes: o.chunk_bytes.unwrap(),
            overlap_bytes: o.overlap_bytes.unwrap(),
            heading_depth: if o.heading_depth.is_some() {
                o.heading_depth.unwrap()
            } else {
                6
            },
        },
    )
}

pub open spec fn data_handler_of(cfg: IngestConfig, chunk: usize, overlap: usize) -> Handler {
    let o = options_for(cfg, "data"@, chunk, overlap);
    Handler::Data(
        DataHandler {
            chunk_bytes: o.chunk_bytes.unwrap(),
            overlap_bytes: o.overlap_bytes.unwrap(),
            max_rows_per_chunk: if o.max_rows_per_chunk.is_some() {
                o.max_rows_per_chunk.unwrap()
            } else {
                200
            },
        },
    )
}

pub open spec fn text_handler_of(cfg: IngestConfig, chunk: usize, overlap: usize) -> Handler {
    let o = options_for(cfg, "text"@, chunk, overlap);
    Handler::Text(PlainTextHandler { chunk_bytes: o.chunk_bytes.unwrap(), overlap_bytes: o.overlap_bytes.unwrap() })
}

/// The registry a policy yields, in priority order: code, markdown, data,
/// plain text, and binary only where the run allows binaries; each handler
/// only where the policy does not disable it.  Markdown sections default to
/// heading depth 6 and data windows to 200 rows.
pub open spec fn registry(cfg: IngestConfig, chunk: usize, overlap: usize, ctx: HandlerContext) -> Seq<Handler> {
    opt_seq(handler_on(cfg, "code"@), code_handler_of(cfg, chunk, overlap)) + opt_seq(
        handler_on(cfg, "markdown"@),
        markdown_handler_of(cfg, chunk, overlap),
    ) + opt_seq(handler_on(cfg, "data"@), data_handler_of(cfg, chunk, overlap)) + opt_seq(
        handler_on(cfg, "text"@),
        text_handler_of(cfg, chunk, overlap),
    ) + opt_seq(ctx.allow_binary && handler_on(cfg, "binary"@), Handler::Binary(BinaryHandler {  }))
}

pub open spec fn all_valid(hs: Seq<Handler>) -> bool {
    forall|i: int| 0 <= i < hs.len() ==> (#[trigger] hs[i]).valid()
}

fn code_entry(cfg: &IngestConfig, chunk: usize, overlap: usize) -> (r: Handler)
    ensures
        r == code_handler_of(*cfg, chunk, overlap),
{
    let o = handler_options_for("code", cfg, chunk, overlap);
    Handler::Code(CodeHandler { chunk_bytes: o.chunk_bytes.unwrap(), overlap_bytes: o.overlap_bytes.unwrap() })
}

fn markdown_entry(cfg: &IngestConfig, chunk: usize, overlap: usize) -> (r: Handler)
    ensures
        r == markdown_handler_of(*cfg, chunk, overlap),
{
    let o = handler_options_for("markdown", cfg, chunk, overlap);
    Handler::Markdown(
        MarkdownHandler {
            chunk_bytes: o.chunk_bytes.unwrap(),
            overlap_bytes: o.overlap_bytes.unwrap(),
            heading_depth: match o.heading_depth {
                Some(d) => d,
                None => 6,
            },
        },
    )
}

fn data_entry(cfg: &IngestConfig, chunk: usize, overlap: usize) -> (r: Handler)
    ensures
        r == data_handler_of(*cfg, chunk, overlap),
{
    let o = handler_options_for("data", cfg, chunk, overlap);
    Handler::Data(
        DataHandler {
            chunk_bytes: o.chunk_bytes.unwrap(),
            overlap_bytes: o.overlap_bytes.unwrap(),
            max_rows_per_chunk: match o.max_rows_per_chunk {
                Some(m) => m,
                None => 200,
            },
        },
    )
}

fn text_entry(cfg: &IngestConfig, chunk: usize, overlap: usize) -> (r: Handler)
    ensures
        r == text_handler_of(*cfg, chunk, overlap),
{
    let o = handler_options_for("text", cfg, chunk, overlap);
    Handler::Text(PlainTextHandler { chunk_bytes: o.chunk_bytes.unwrap(), overlap_bytes: o.overlap_bytes.unwrap() })
}

impl Handler {
    /// Whether the handler's settings let its chunker advance.
    pub fn is_valid(&self) -> (r: bool)
        ensures
            r == self.valid(),
    {
        match self {
            Handler::Code(h) => h.chunk_bytes == 0 || h.overlap_bytes < h.chunk_bytes,
            Handler::Markdown(h) => h.chunk_bytes == 0 || h.overlap_bytes < h.chunk_bytes,
            Handler::Data(h) => h.max_rows_per_chunk > 0,
            Handler::Text(h) => h.chunk_bytes == 0 || h.overlap_bytes < h.chunk_bytes,
            Handler::Binary(_) => true,
        }
    }
}

/// Builds the handler registry of a run; see `registry`.  Fails when a
/// handler's settings would keep it from advancing: a zero-row data window,
/// or an overlap not below a non-zero chunk size.
pub fn build_handlers(
    ingest_config: &IngestConfig,
    default_chunk_bytes: usize,
    default_overlap: usize,
    ctx: &HandlerContext,
) -> (r: Result<Vec<Handler>, PolicyError>)
    ensures
        match r {
            Ok(hs) => hs@ == registry(*ingest_config, default_chunk_bytes, default_overlap, *ctx)
                && all_valid(hs@),
            Err(_) => !all_valid(registry(*ingest_config, default_chunk_bytes, default_overlap, *ctx)),
        },
{
    let ghost reg = registry(*ingest_config, default_chunk_bytes, default_overlap, *ctx);
    let mut handlers: Vec<Handler> = Vec::new();
    if handler_enabled("code", ingest_config) {
        handlers.push(code_entry(ingest_config, default_chunk_bytes, default_overlap));
    }
    if handler_enabled("markdown", ingest_config) {
        handlers.push(markdown_entry(ingest_config, default_chunk_bytes, default_overlap));
    }
    if handler_enabled("data", ingest_config) {
        handlers.push(data_entry(ingest_config, default_chunk_bytes, default_overlap));
    }
    if handler_enabled("text", ingest_config) {
        handlers.push(text_entry(ingest_config, default_chunk_bytes, default_overlap));
    }
    if ctx.allow_binary && handler_enabled("binary", ingest_config) {
        handlers.push(Handler::Binary(BinaryHandler {  }));
    }
    assert(handlers@ =~= reg);
    let mut i: usize = 0;
    while i < handlers.len()
        invariant
            i <= handlers@.len(),
            handlers@ == reg,
            reg == registry(*ingest_config, default_chunk_bytes, default_overlap, *ctx),
            forall|k: int| 0 <= k < i ==> (#[trigger] handlers@[k]).valid(),
        decreases handlers@.len() - i,
    {
        if !handlers[i].is_valid() {
            assert(!reg[i as int].valid());
            assert(!all_valid(reg));
            let e = match handlers[i] {
                Handler::Data(_) => PolicyError::ZeroRowsPerChunk,
                _ => PolicyError::OverlapNotBelowChunk,
            };
            return Err(e);
        }
        i = i + 1;
    }
    Ok(handlers)
}

/// The extension of a path in ASCII lower case.
pub open spec fn lower_extension(path: Seq<char>) -> Option<Seq<char>> {
    match extension_of(path) {
        Some(e) => Some(ascii_lowercase(e)),
        None => None,
    }
}

/// Whether `v` holds the text `e`.
pub open spec fn list_has(v: Seq<String>, e: Seq<char>) -> bool {
    exists|i: int| 0 <= i < v.len() && #[trigger] v[i]@ == e
}

fn contains_text(v: &Vec<String>, e: &[char]) -> (r: bool)
    ensures
        r == list_has(v@, e@),
{
    let mut i: usize = 0;
    while i < v.len()
        invariant
            i <= v@.len(),
            forall|j: int| 0 <= j < i ==> #[trigger] v@[j]@ != e@,
        decreases v@.len() - i,
    {
        let c = chars_of(v[i].as_str());
        if chars_eq(&c, e) {
            assert(v@[i as int]@ == e@);
            return true;
        }
        i = i + 1;
    }
    false
}

/// Whether the policy filters out a path by its lower-cased extension: a
/// denied extension is skipped; with an allow list, anything not on it is
/// skipped too, files without an extension included.  Deny wins.
pub open spec fn skips_extension(path: Seq<char>, cfg: IngestConfig) -> bool {
    let ext = lower_extension(path);
    (cfg.deny_extensions.is_some() && ext.is_some() && list_has(cfg.deny_extensions.unwrap()@, ext.unwrap()))
        || (cfg.allow_extensions.is_some() && !(ext.is_some() && list_has(
        cfg.allow_extensions.unwrap()@,
        ext.unwrap(),
    )))
}

/// The extension of `path`, lower-cased.
fn lowered_extension(path: &str) -> (r: Option<Vec<char>>)
    ensures
        match r {
            Some(e) => lower_extension(path@) == Some(e@),
            None => lower_extension(path@).is_none(),
        },
{
    match path_extension(path) {
        Some(e) => Some(to_ascii_lower(&e)),
        None => None,
    }
}

pub fn should_skip_extension(path: &str, cfg: &IngestConfig) -> (r: bool)
    ensures
        r == skips_extension(path@, *cfg),
{
    let ext = lowered_extension(path);
    if let Some(deny) = &cfg.deny_extensions {
        if let Some(e) = &ext {
            if contains_text(deny, e) {
                return true;
            }
        }
    }
    if let Some(allow) = &cfg.allow_extensions {
        return match &ext {
            Some(e) => !contains_text(allow, e),
            None => true,
        };
    }
    false
}

/// The size limit of a run: the policy's, else the command line's.
pub open spec fn size_limit(cfg: IngestConfig, flag: u64) -> u64 {
    if cfg.max_file_bytes.is_some() {
        cfg.max_file_bytes.unwrap()
    } else {
        flag
    }
}

/// Whether a file passes the filters of a run: it is in the changed set when
/// there is one, a regular non-empty file within the size limit, not
/// filtered out by extension, and not a binary the run refuses.
pub open spec fn considered(
    path: Seq<char>,
    is_file: bool,
    file_len: u64,
    data: Seq<u8>,
    cfg: IngestConfig,
    max_file_bytes_flag: u64,
    changed_only: Option<Seq<String>>,
    ctx: HandlerContext,
) -> bool {
    &&& (changed_only.is_none() || list_has(changed_only.unwrap(), path))
    &&& is_file
    &&& file_len > 0
    &&& file_len <= size_limit(cfg, max_file_bytes_flag)
    &&& !skips_extension(path, cfg)
    &&& data.len() > 0
    &&& ctx.admits_content(data)
}

pub fn should_consider_file(
    path: &str,
    is_file: bool,
    file_len: u64,
    data: &[u8],
    ingest_config: &IngestConfig,
    max_file_bytes_flag: u64,
    changed_only: Option<&Vec<String>>,
    handler_ctx: &HandlerContext,
) -> (r: bool)
    ensures
        r == considered(
            path@,
            is_file,
            file_len,
            data@,
            *ingest_config,
            max_file_bytes_flag,
            match changed_only {
                Some(c) => Some(c@),
                None => None,
            },
            *handler_ctx,
        ),
{
    if let Some(changed) = changed_only {
        let p = chars_of(path);
        if !contains_text(changed, &p) {
            return false;
        }
    }
    if !is_file {
        return false;
    }
    if file_len == 0 {
        return false;
    }
    let max_bytes = match ingest_config.max_file_bytes {
        Some(m) => m,
        None => max_file_bytes_flag,
    };
    if file_len > max_bytes {
        return false;
    }
    if should_skip_extension(path, ingest_config) {
        return false;
    }
    if data.len() == 0 {
        return false;
    }
    if !handler_ctx.allow_binary && is_probably_binary_with_threshold(data, handler_ctx.binary_threshold) {
        return false;
    }
    true
}

/// The position of the first entry with key `key`, from `from` on.
pub open spec fn key_position(entries: Seq<(String, String)>, key: Seq<char>, from: int) -> Option<int>
    decreases entries.len() - from,
{
    if from < 0 || from >= entries.len() {
        None
    } else if entries[from].0@ == key {
        Some(from)
    } else {
        key_position(entries, key, from + 1)
    }
}

/// The handler name that the policy forces for a path's extension.
pub open spec fn forced_target(cfg: IngestConfig, path: Seq<char>) -> Option<Seq<char>> {
    match (cfg.force_handlers, lower_extension(path)) {
        (Some(m), Some(e)) => match key_position(m@, e, 0) {
            Some(i) => Some(m@[i].1@),
            None => None,
        },
        _ => None,
    }
}

/// The first handler from `from` on whose name equals `target` up to ASCII
/// case.
pub open spec fn label_position(hs: Seq<Handler>, target: Seq<char>, from: int) -> Option<int>
    decreases hs.len() - from,
{
    if from < 0 || from >= hs.len() {
        None
    } else if ascii_lowercase(hs[from].label()) == ascii_lowercase(target) {
        Some(from)
    } else {
        label_position(hs, target, from + 1)
    }
}

/// The first handler from `from` on that accepts the file.
pub open spec fn first_accepting(hs: Seq<Handler>, path: Seq<char>, bytes: Seq<u8>, ctx: HandlerContext, from: int) -> Option<int>
    decreases hs.len() - from,
{
    if from < 0 || from >= hs.len() {
        None
    } else if hs[from].accepts(path, bytes, ctx) {
        Some(from)
    } else {
        first_accepting(hs, path, bytes, ctx, from + 1)
    }
}

/// The forced handler of a file, when it is registered and accepts the file.
pub open spec fn forced_choice(hs: Seq<Handler>, cfg: IngestConfig, path: Seq<char>, bytes: Seq<u8>, ctx: HandlerContext) -> Option<int> {
    match forced_target(cfg, path) {
        Some(t) => match label_position(hs, t, 0) {
            Some(i) => if hs[i].accepts(path, bytes, ctx) {
                Some(i)
            } else {
                None
            },
            None => None,
        },
        None => None,
    }
}

/// The handler that a file resolves to: the one the policy forces for its
/// extension, if that handler is registered and accepts the file; else the
/// first handler in registry order that accepts it; else none.
pub open spec fn resolved(hs: Seq<Handler>, cfg: IngestConfig, path: Seq<char>, bytes: Seq<u8>, ctx: HandlerContext) -> Option<int> {
    let forced = forced_choice(hs, cfg, path, bytes, ctx);
    if forced.is_some() {
        forced
    } else {
        first_accepting(hs, path, bytes, ctx, 0)
    }
}

fn find_key(entries: &Vec<(String, String)>, key: &[char]) -> (r: Option<usize>)
    ensures
        match r {
            Some(i) => i < entries@.len() && key_position(entries@, key@, 0) == Some(i as int),
            None => key_position(entries@, key@, 0).is_none(),
        },
{
    let mut i: usize = 0;
    while i < entries.len()
        invariant
            i <= entries@.len(),
            key_position(entries@, key@, 0) == key_position(entries@, key@, i as int),
        decreases entries@.len() - i,
    {
        let k = chars_of(entries[i].0.as_str());
        if chars_eq(&k, key) {
            return Some(i);
        }
        i = i + 1;
    }
    None
}

fn find_label(hs: &Vec<Handler>, target: &str) -> (r: Option<usize>)
    ensures
        match r {
            Some(i) => i < hs@.len() && label_position(hs@, target@, 0) == Some(i as int),
            None => label_position(hs@, target@, 0).is_none(),
        },
{
    let t = chars_of(target);
    let mut i: usize = 0;
    while i < hs.len()
        invariant
            i <= hs@.len(),
            t@ == target@,
            label_position(hs@, target@, 0) == label_position(hs@, target@, i as int),
        decreases hs@.len() - i,
    {
        let n = chars_of(hs[i].name());
        if eq_ignore_ascii_case(&n, &t) {
            return Some(i);
        }
        i = i + 1;
    }
    None
}

fn forced_handler(handlers: &Vec<Handler>, cfg: &IngestConfig, path: &str, data: &[u8], ctx: &HandlerContext) -> (r: Option<usize>)
    ensures
        match r {
            Some(i) => i < handlers@.len() && forced_choice(handlers@, *cfg, path@, data@, *ctx) == Some(i as int),
            None => forced_choice(handlers@, *cfg, path@, data@, *ctx).is_none(),
        },
{
    let ext = lowered_extension(path);
    let force = match &cfg.force_handlers {
        Some(f) => f,
        None => {
            return None;
        },
    };
    let e = match &ext {
        Some(e) => e,
        None => {
            return None;
        },
    };
    let k = match find_key(force, e) {
        Some(k) => k,
        None => {
            return None;
        },
    };
    let target = force[k].1.as_str();
    let i = match find_label(handlers, target) {
        Some(i) => i,
        None => {
            return None;
        },
    };
    if handlers[i].supports(path, data, ctx) {
        Some(i)
    } else {
        None
    }
}

/// The handler for a file; see `resolved`.
pub fn resolve_handler<'a>(
    handlers: &'a Vec<Handler>,
    cfg: &IngestConfig,
    path: &str,
    data: &[u8],
    ctx: &HandlerContext,
) -> (r: Option<&'a Handler>)
    ensures
        r.is_some() == resolved(handlers@, *cfg, path@, data@, *ctx).is_some(),
        r.is_some() ==> *r.unwrap() == handlers@[resolved(handlers@, *cfg, path@, data@, *ctx).unwrap()],
{
    if let Some(i) = forced_handler(handlers, cfg, path, data, ctx) {
        return Some(&handlers[i]);
    }
    let mut i: usize = 0;
    while i < handlers.len()
        invariant
            i <= handlers@.len(),
            forced_choice(handlers@, *cfg, path@, data@, *ctx).is_none(),
            first_accepting(handlers@, path@, data@, *ctx, 0) == first_accepting(handlers@, path@, data@, *ctx, i as int),
        decreases handlers@.len() - i,
    {
        if handlers[i].supports(path, data, ctx) {
            return Some(&handlers[i]);
        }
        i = i + 1;
    }
    None
}

proof fn lemma_first_accepting_none(hs: Seq<Handler>, path: Seq<char>, bytes: Seq<u8>, ctx: HandlerContext, from: int)
    requires
        forall|i: int| 0 <= i < hs.len() ==> !(#[trigger] hs[i]).accepts(path, bytes, ctx),
    ensures
        first_accepting(hs, path, bytes, ctx, from).is_none(),
    decreases hs.len() - from,
{
    if 0 <= from < hs.len() {
        lemma_first_accepting_none(hs, path, bytes, ctx, from + 1);
    }
}

proof fn lemma_first_accepting_some(hs: Seq<Handler>, path: Seq<char>, bytes: Seq<u8>, ctx: HandlerContext, from: int)
    ensures
        first_accepting(hs, path, bytes, ctx, from).is_some() ==> {
            let i = first_accepting(hs, path, bytes, ctx, from).unwrap();
            0 <= i < hs.len() && hs[i].accepts(path, bytes, ctx)
        },
    decreases hs.len() - from,
{
    if 0 <= from < hs.len() && !hs[from].accepts(path, bytes, ctx) {
        lemma_first_accepting_some(hs, path, bytes, ctx, from + 1);
    }
}

proof fn lemma_label_position_bounds(hs: Seq<Handler>, target: Seq<char>, from: int)
    ensures
        label_position(hs, target, from).is_some() ==> 0 <= label_position(hs, target, from).unwrap() < hs.len(),
    decreases hs.len() - from,
{
    if 0 <= from < hs.len() && ascii_lowercase(hs[from].label()) != ascii_lowercase(target) {
        lemma_label_position_bounds(hs, target, from + 1);
    }
}

/// A resolved handler is a registered handler that accepts the file.
pub proof fn lemma_resolved_accepts(hs: Seq<Handler>, cfg: IngestConfig, path: Seq<char>, bytes: Seq<u8>, ctx: HandlerContext)
    ensures
        resolved(hs, cfg, path, bytes, ctx).is_some() ==> {
            let i = resolved(hs, cfg, path, bytes, ctx).unwrap();
            0 <= i < hs.len() && hs[i].accepts(path, bytes, ctx)
        },
{
    lemma_first_accepting_some(hs, path, bytes, ctx, 0);
    if let Some(t) = forced_target(cfg, path) {
        lemma_label_position_bounds(hs, t, 0);
    }
}

/// With binaries disallowed, a file that the classifier calls binary
/// resolves to no handler of the run's registry.
pub proof fn lemma_binary_file_skipped_without_allow(
    cfg: IngestConfig,
    chunk: usize,
    overlap: usize,
    ctx: HandlerContext,
    path: Seq<char>,
    bytes: Seq<u8>,
)
    requires
        !ctx.allow_binary,
        classify_binary(bytes, ctx.binary_threshold),
    ensures
        resolved(registry(cfg, chunk, overlap, ctx), cfg, path, bytes, ctx).is_none(),
{
    let hs = registry(cfg, chunk, overlap, ctx);
    assert forall|i: int| 0 <= i < hs.len() implies !(#[trigger] hs[i]).accepts(path, bytes, ctx) by {
        assert(!(hs[i] is Binary));
    }
    lemma_first_accepting_none(hs, path, bytes, ctx, 0);
    lemma_resolved_accepts(hs, cfg, path, bytes, ctx);
}

/// The binary handler is chosen for a file only when the run allows binaries
/// and the classifier calls the file binary.
pub proof fn lemma_binary_handler_needs_allow(
    cfg: IngestConfig,
    chunk: usize,
    overlap: usize,
    ctx: HandlerContext,
    path: Seq<char>,
    bytes: Seq<u8>,
)
    ensures
        ({
            let hs = registry(cfg, chunk, overlap, ctx);
            let r = resolved(hs, cfg, path, bytes, ctx);
            r.is_some() && hs[r.unwrap()] is Binary ==> ctx.allow_binary && classify_binary(
                bytes,
                ctx.binary_threshold,
            )
        }),
{
    let hs = registry(cfg, chunk, overlap, ctx);
    lemma_resolved_accepts(hs, cfg, path, bytes, ctx);
    let r = resolved(hs, cfg, path, bytes, ctx);
    if r.is_some() && hs[r.unwrap()] is Binary {
        let i = r.unwrap();
        if !ctx.allow_binary {
            assert(!(hs[i] is Binary));
        }
    }
}

pub open spec fn default_allowed() -> Seq<Seq<char>> {
    seq!["rs"@, "md"@, "toml"@, "json"@, "yml"@, "yaml"@, "ts"@, "tsx"@, "js"@, "jsx"@]
}

pub open spec fn default_denied() -> Seq<Seq<char>> {
    seq!["lock"@, "bin"@, "exe"@, "dll"@]
}

fn owned_all(v: &Vec<&'static str>) -> (r: Vec<String>)
    ensures
        string_views(r@) == v@.map_values(|x: &str| x@),
{
    let mut out: Vec<String> = Vec::new();
    let mut i: usize = 0;
    while i < v.len()
        invariant
            i <= v@.len(),
            string_views(out@) == v@.map_values(|x: &str| x@).take(i as int),
        decreases v@.len() - i,
    {
        let ghost before = out@;
        let item = v[i].to_owned();
        assert(item@ == v@[i as int]@);
        out.push(item);
        assert(out@ == before.push(item));
        assert(string_views(out@) =~= string_views(before).push(item@));
        assert(v@.map_values(|x: &str| x@).take(i as int + 1) =~= v@.map_values(|x: &str| x@).take(
            i as int,
        ).push(v@[i as int]@));
        i = i + 1;
    }
    assert(v@.map_values(|x: &str| x@).take(v@.len() as int) =~= v@.map_values(|x: &str| x@));
    out
}

impl IngestConfig {
    /// The policy that holds when no policy file can be read: common code
    /// and document extensions allowed, lock files and binaries denied, a
    /// binary threshold of 0.33 and binaries disallowed.
    pub fn builtin_default() -> (r: IngestConfig)
        ensures
            r.allow_extensions.is_some(),
            string_views(r.allow_extensions.unwrap()@) == default_allowed(),
            r.deny_extensions.is_some(),
            string_views(r.deny_extensions.unwrap()@) == default_denied(),
            r.max_file_bytes.is_none(),
            r.manifest_path.is_none(),
            r.binary_threshold == Some(Threshold { per_million: 330_000 }),
            r.allow_binary == Some(false),
            r.handlers_disabled.is_none(),
            r.handler_overrides.is_none(),
            r.force_handlers.is_none(),
    {
        let allow = vec!["rs", "md", "toml", "json", "yml", "yaml", "ts", "tsx", "js", "jsx"];
        let deny = vec!["lock", "bin", "exe", "dll"];
        assert(allow@.map_values(|x: &str| x@) =~= default_allowed());
        assert(deny@.map_values(|x: &str| x@) =~= default_denied());
        IngestConfig {
            allow_extensions: Some(owned_all(&allow)),
            deny_extensions: Some(owned_all(&deny)),
            max_file_bytes: None,
            manifest_path: None,
            binary_threshold: Some(Threshold { per_million: 330_000 }),
            allow_binary: Some(false),
            handlers_disabled: None,
            handler_overrides: None,
            force_handlers: None,
        }
    }
}

} // verus!
