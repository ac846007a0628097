use vstd::prelude::*;
use vstd::string::StringSliceAdditionalSpecFns;
use vstd::utf8::*;

use crate::binary::{classify_binary, is_probably_binary_with_threshold};
use crate::chunk::{ChunkMetadata, DataFormat, HandlerContext, IngestMode, PreparedChunk};
use crate::chunking::{chunk_texts, chunk_with_overlap, chunking_terminates};
use crate::text::{
    ascii_lowercase, chars_of, decode_lossy, extension_of, file_extension, is_utf8, lines_of,
    utf8_text, split_lines, string_of, to_ascii_lower, chars_eq,
};

verus! {

/// The binary filter that every handler but the binary one applies first.
pub(crate) fn admits_content(bytes: &[u8], ctx: &HandlerContext) -> (r: bool)
    ensures
        r == ctx.admits_content(bytes@),
{
    ctx.allow_binary || !is_probably_binary_with_threshold(bytes, ctx.binary_threshold)
}

/// The extension of `path`, if any, as characters.
pub(crate) fn path_extension(path: &str) -> (r: Option<Vec<char>>)
    ensures
        match r {
            Some(e) => extension_of(path@) == Some(e@),
            None => extension_of(path@).is_none(),
        },
{
    let p = chars_of(path);
    file_extension(&p)
}

/// The content of a file as the handlers read it: decoded as UTF-8 where it
/// is valid UTF-8, lossily elsewhere.
pub open spec fn decoded(bytes: Seq<u8>) -> Seq<char> {
    utf8_text(bytes)
}

// ---------------------------------------------------------------- plain text

/// Chunks any UTF-8 file that no more specific extension claims.
#[derive(Clone, Copy, Debug)]
pub struct PlainTextHandler {
    pub chunk_bytes: usize,
    pub overlap_bytes: usize,
}

pub open spec fn text_excluded_extension(e: Seq<char>) -> bool {
    let l = ascii_lowercase(e);
    l == seq!['m', 'd'] || l == seq!['m', 'a', 'r', 'k', 'd', 'o', 'w', 'n'] || l == seq![
        'c',
        's',
        'v',
    ] || l == seq!['j', 's', 'o', 'n', 'l']
}

/// Byte-window chunks of `text`, each tagged with `mode` and numbered in
/// order.
pub open spec fn windowed_chunks_match(
    r: Seq<PreparedChunk>,
    text: Seq<char>,
    chunk: nat,
    overlap: nat,
    mode: IngestMode,
) -> bool {
    let texts = chunk_texts(encode_utf8(text), chunk, overlap);
    &&& r.len() == texts.len()
    &&& forall|i: int|
        0 <= i < r.len() ==> (#[trigger] r[i]).text@ == texts[i] && r[i].chunk_index == i
            && r[i].chunk_id_hint.is_none() && r[i].metadata.only_mode(mode)
}

impl PlainTextHandler {
    pub fn name(&self) -> (r: &'static str)
        ensures
            r@ == "text"@,
    {
        "text"
    }

    pub open spec fn accepts(self, path: Seq<char>, bytes: Seq<u8>, ctx: HandlerContext) -> bool {
        &&& ctx.admits_content(bytes)
        &&& valid_utf8(bytes)
        &&& match extension_of(path) {
            Some(e) => !text_excluded_extension(e),
            None => true,
        }
    }

    pub open spec fn valid(self) -> bool {
        self.chunk_bytes == 0 || self.overlap_bytes < self.chunk_bytes
    }

    /// What `process` returns for a file.
    pub open spec fn output_ok(self, path: Seq<char>, bytes: Seq<u8>, r: Seq<PreparedChunk>) -> bool {
        windowed_chunks_match(
            r,
            decoded(bytes),
            self.chunk_bytes as nat,
            self.overlap_bytes as nat,
            IngestMode::Text,
        )
    }

    pub fn supports(&self, path: &str, bytes: &[u8], ctx: &HandlerContext) -> (r: bool)
        ensures
            r == self.accepts(path@, bytes@, *ctx),
    {
        if !admits_content(bytes, ctx) {
            return false;
        }
        if !is_utf8(bytes) {
            return false;
        }
        match path_extension(path) {
            Some(e) => {
                let l = to_ascii_lower(&e);
                let md = vec!['m', 'd'];
                let markdown = vec!['m', 'a', 'r', 'k', 'd', 'o', 'w', 'n'];
                let csv = vec!['c', 's', 'v'];
                let jsonl = vec!['j', 's', 'o', 'n', 'l'];
                assert(md@ == seq!['m', 'd']);
                assert(markdown@ == seq!['m', 'a', 'r', 'k', 'd', 'o', 'w', 'n']);
                assert(csv@ == seq!['c', 's', 'v']);
                assert(jsonl@ == seq!['j', 's', 'o', 'n', 'l']);
                !(chars_eq(&l, &md) || chars_eq(&l, &markdown) || chars_eq(&l, &csv) || chars_eq(
                    &l,
                    &jsonl,
                ))
            },
            None => true,
        }
    }

    /// Chunks the whole file with the sliding window, tagging each chunk as
    /// text.
    pub fn process(&self, path: &str, bytes: &[u8], ctx: &HandlerContext) -> (r: Vec<PreparedChunk>)
        requires
            self.valid(),
        ensures
            self.output_ok(path@, bytes@, r@),
    {
        let content = decode_lossy(bytes);
        windowed_chunks(content.as_str(), self.chunk_bytes, self.overlap_bytes, IngestMode::Text)
    }
}

/// The sliding-window chunks of `content`, each tagged with `mode`.
pub(crate) fn windowed_chunks(content: &str, chunk_bytes: usize, overlap_bytes: usize, mode: IngestMode) -> (r: Vec<PreparedChunk>)
    requires
        chunk_bytes == 0 || overlap_bytes < chunk_bytes,
    ensures
        windowed_chunks_match(r@, content@, chunk_bytes as nat, overlap_bytes as nat, mode),
{
    let texts = chunk_with_overlap(content, chunk_bytes, overlap_bytes);
    let ghost expected = chunk_texts(encode_utf8(content@), chunk_bytes as nat, overlap_bytes as nat);
    let mut out: Vec<PreparedChunk> = Vec::new();
    let mut i: usize = 0;
    while i < texts.len()
        invariant
            expected == chunk_texts(encode_utf8(content@), chunk_bytes as nat, overlap_bytes as nat),
            texts@.len() == expected.len(),
            forall|k: int| 0 <= k < texts@.len() ==> (#[trigger] texts@[k])@ == expected[k],
            i <= texts@.len(),
            out@.len() == i,
            forall|k: int|
                0 <= k < i ==> (#[trigger] out@[k]).text@ == expected[k] && out@[k].chunk_index == k
                    && out@[k].chunk_id_hint.is_none() && out@[k].metadata.only_mode(mode),
        decreases texts@.len() - i,
    {
        let text = texts[i].clone();
        out.push(
            PreparedChunk {
                text,
                chunk_index: i,
                chunk_id_hint: None,
                metadata: ChunkMetadata::with_mode(mode),
            },
        );
        i = i + 1;
    }
    out
}

// ---------------------------------------------------------------- binary

/// References a binary file by a placeholder chunk; never chunks its content.
#[derive(Clone, Copy, Debug)]
pub struct BinaryHandler {}

/// The placeholder text that stands for a binary file.
pub open spec fn binary_placeholder(path: Seq<char>) -> Seq<char> {
    "<binary file: "@ + path + seq!['>']
}

impl BinaryHandler {
    pub fn name(&self) -> (r: &'static str)
        ensures
            r@ == "binary"@,
    {
        "binary"
    }

    pub open spec fn accepts(self, path: Seq<char>, bytes: Seq<u8>, ctx: HandlerContext) -> bool {
        classify_binary(bytes, ctx.binary_threshold)
    }

    /// What `process` returns for a file.
    pub open spec fn output_ok(self, path: Seq<char>, bytes: Seq<u8>, r: Seq<PreparedChunk>) -> bool {
        &&& r.len() == 1
        &&& r[0].text@ == binary_placeholder(path)
        &&& r[0].chunk_index == 0
        &&& r[0].chunk_id_hint.is_none()
        &&& r[0].metadata.ingest_mode == IngestMode::Binary
        &&& r[0].metadata.binary_size == Some(bytes.len() as usize)
        &&& r[0].metadata.binary_path.is_some()
        &&& r[0].metadata.binary_path.unwrap()@ == path
        &&& r[0].metadata.language.is_none()
        &&& r[0].metadata.symbol.is_none()
        &&& r[0].metadata.markdown_heading.is_none()
        &&& r[0].metadata.data_format.is_none()
        &&& r[0].metadata.row_range.is_none()
    }

    /// Accepts whatever the classifier calls binary, whatever its extension.
    pub fn supports(&self, path: &str, bytes: &[u8], ctx: &HandlerContext) -> (r: bool)
        ensures
            r == self.accepts(path@, bytes@, *ctx),
    {
        is_probably_binary_with_threshold(bytes, ctx.binary_threshold)
    }

    /// One placeholder chunk `<binary file: path>` that records the file's
    /// size and path.
    pub fn process(&self, path: &str, bytes: &[u8], ctx: &HandlerContext) -> (r: Vec<PreparedChunk>)
        ensures
            self.output_ok(path@, bytes@, r@),
    {
        let mut text = chars_of("<binary file: ");
        let p = chars_of(path);
        let mut i: usize = 0;
        let ghost head = text@;
        while i < p.len()
            invariant
                i <= p@.len(),
                text@ == head + p@.subrange(0, i as int),
            decreases p@.len() - i,
        {
            text.push(p[i]);
            i = i + 1;
            assert(text@ =~= head + p@.subrange(0, i as int));
        }
        text.push('>');
        assert(p@.subrange(0, p@.len() as int) =~= p@);
        assert(text@ =~= binary_placeholder(path@));
        let mut metadata = ChunkMetadata::with_mode(IngestMode::Binary);
        metadata.binary_size = Some(bytes.len());
        metadata.binary_path = Some(path.to_owned());
        let mut out: Vec<PreparedChunk> = Vec::new();
        out.push(PreparedChunk { text: string_of(&text), chunk_index: 0, chunk_id_hint: None, metadata });
        out
    }
}

// ---------------------------------------------------------------- data

/// Groups the lines of CSV, JSON and JSON-lines files into fixed-size row
/// windows.
#[derive(Clone, Copy, Debug)]
pub struct DataHandler {
    pub chunk_bytes: usize,
    pub overlap_bytes: usize,
    pub max_rows_per_chunk: usize,
}

pub open spec fn is_data_extension(e: Seq<char>) -> bool {
    e == seq!['c', 's', 'v'] || e == seq!['j', 's', 'o', 'n'] || e == seq!['j', 's', 'o', 'n', 'l']
}

/// The data format that a path's extension names: csv and jsonl by name,
/// json otherwise.
pub open spec fn data_format_of(path: Seq<char>) -> DataFormat {
    match extension_of(path) {
        Some(e) => if ascii_lowercase(e) == seq!['c', 's', 'v'] {
            DataFormat::Csv
        } else if ascii_lowercase(e) == seq!['j', 's', 'o', 'n', 'l'] {
            DataFormat::Jsonl
        } else {
            DataFormat::Json
        },
        None => DataFormat::Json,
    }
}

/// Lines joined with line feeds.
pub open spec fn join_lines(ls: Seq<Seq<char>>) -> Seq<char>
    decreases ls.len(),
{
    if ls.len() == 0 {
        seq![]
    } else if ls.len() == 1 {
        ls[0]
    } else {
        join_lines(ls.drop_last()) + seq!['\n'] + ls.last()
    }
}

/// Consecutive windows of `rows` rows from `start` up to `total`; the last
/// may be shorter.
pub open spec fn row_windows_from(start: nat, total: nat, rows: nat) -> Seq<(nat, nat)>
    decreases total - start,
{
    if rows == 0 || start >= total {
        seq![]
    } else {
        let end = if start + rows <= total {
            start + rows
        } else {
            total
        };
        seq![(start, end)] + row_windows_from(end, total, rows)
    }
}

/// The chunks the data handler makes of `content` read from `path`.
pub open spec fn data_chunks_match(
    r: Seq<PreparedChunk>,
    path: Seq<char>,
    content: Seq<char>,
    rows: nat,
) -> bool {
    let lines = lines_of(content);
    let w = row_windows_from(0, lines.len(), rows);
    if lines.len() == 0 {
        &&& r.len() == 1
        &&& r[0].text@ == content
        &&& r[0].chunk_index == 0
        &&& r[0].chunk_id_hint.is_none()
        &&& r[0].metadata.only_mode(IngestMode::Data)
    } else {
        &&& r.len() == w.len()
        &&& forall|i: int|
            0 <= i < r.len() ==> {
                &&& (#[trigger] r[i]).text@ == join_lines(lines.subrange(w[i].0 as int, w[i].1 as int))
                &&& r[i].chunk_index == i
                &&& r[i].chunk_id_hint.is_none()
                &&& r[i].metadata.ingest_mode == IngestMode::Data
                &&& r[i].metadata.data_format == Some(data_format_of(path))
                &&& r[i].metadata.row_range == Some((w[i].0 as usize, w[i].1 as usize))
                &&& r[i].metadata.language.is_none()
                &&& r[i].metadata.symbol.is_none()
                &&& r[i].metadata.markdown_heading.is_none()
                &&& r[i].metadata.binary_size.is_none()
                &&& r[i].metadata.binary_path.is_none()
            }
    }
}

proof fn lemma_row_windows_shape(start: nat, total: nat, rows: nat)
    requires
        rows > 0,
        start <= total,
    ensures
        ({
            let w = row_windows_from(start, total, rows);
            forall|i: int| 0 <= i < w.len() ==> start <= (#[trigger] w[i]).0 < w[i].1 <= total
        }),
    decreases total - start,
{
    if start < total {
        let end = if start + rows <= total {
            start + rows
        } else {
            total
        };
        lemma_row_windows_shape(end, total, rows);
        let w = row_windows_from(start, total, rows);
        let t = row_windows_from(end, total, rows);
        assert forall|i: int| 0 <= i < w.len() implies start <= (#[trigger] w[i]).0 < w[i].1 <= total by {
            if i > 0 {
                assert(w[i] == t[i - 1]);
            }
        }
    }
}

/// `lines[lo..hi]` joined with line feeds.
fn join_range(lines: &Vec<Vec<char>>, lo: usize, hi: usize) -> (r: Vec<char>)
    requires
        lo < hi <= lines@.len(),
    ensures
        r@ == join_lines(lines@.subrange(lo as int, hi as int).map_values(|l: Vec<char>| l@)),
{
    let mut out: Vec<char> = Vec::new();
    let mut i = lo;
    while i < hi
        invariant
            lo <= i <= hi <= lines@.len(),
            out@ == join_lines(lines@.subrange(lo as int, i as int).map_values(|l: Vec<char>| l@)),
        decreases hi - i,
    {
        let ghost before = lines@.subrange(lo as int, i as int).map_values(|l: Vec<char>| l@);
        let ghost after = lines@.subrange(lo as int, i as int + 1).map_values(|l: Vec<char>| l@);
        assert(after.drop_last() =~= before);
        if i > lo {
            out.push('\n');
        }
        let line = &lines[i];
        let mut k: usize = 0;
        let ghost base = out@;
        while k < line.len()
            invariant
                k <= line@.len(),
                out@ == base + line@.subrange(0, k as int),
            decreases line@.len() - k,
        {
            out.push(line[k]);
            k = k + 1;
            assert(out@ =~= base + line@.subrange(0, k as int));
        }
        assert(line@.subrange(0, line@.len() as int) =~= line@);
        proof {
            if i == lo {
                assert(after.len() == 1);
                assert(out@ =~= after[0]);
            } else {
                assert(after.last() == line@);
                assert(out@ =~= join_lines(before) + seq!['\n'] + after.last());
            }
        }
        i = i + 1;
    }
    out
}

impl DataHandler {
    pub fn name(&self) -> (r: &'static str)
        ensures
            r@ == "data"@,
    {
        "data"
    }

    pub open spec fn accepts(self, path: Seq<char>, bytes: Seq<u8>, ctx: HandlerContext) -> bool {
        &&& ctx.admits_content(bytes)
        &&& match extension_of(path) {
            Some(e) => is_data_extension(e),
            None => false,
        }
        &&& valid_utf8(bytes)
    }

    pub open spec fn valid(self) -> bool {
        self.max_rows_per_chunk > 0
    }

    /// What `process` returns for a file.
    pub open spec fn output_ok(self, path: Seq<char>, bytes: Seq<u8>, r: Seq<PreparedChunk>) -> bool {
        data_chunks_match(r, path, decoded(bytes), self.max_rows_per_chunk as nat)
    }

    pub fn supports(&self, path: &str, bytes: &[u8], ctx: &HandlerContext) -> (r: bool)
        ensures
            r == self.accepts(path@, bytes@, *ctx),
    {
        if !admits_content(bytes, ctx) {
            return false;
        }
        let ext_ok = match path_extension(path) {
            Some(e) => {
                let csv = vec!['c', 's', 'v'];
                let json = vec!['j', 's', 'o', 'n'];
                let jsonl = vec!['j', 's', 'o', 'n', 'l'];
                assert(csv@ == seq!['c', 's', 'v']);
                assert(json@ == seq!['j', 's', 'o', 'n']);
                assert(jsonl@ == seq!['j', 's', 'o', 'n', 'l']);
                chars_eq(&e, &csv) || chars_eq(&e, &json) || chars_eq(&e, &jsonl)
            },
            None => false,
        };
        ext_ok && is_utf8(bytes)
    }

    /// The data format that `path` names.
    pub fn data_format(path: &str) -> (r: DataFormat)
        ensures
            r == data_format_of(path@),
    {
        match path_extension(path) {
            Some(e) => {
                let l = to_ascii_lower(&e);
                let csv = vec!['c', 's', 'v'];
                let jsonl = vec!['j', 's', 'o', 'n', 'l'];
                assert(csv@ == seq!['c', 's', 'v']);
                assert(jsonl@ == seq!['j', 's', 'o', 'n', 'l']);
                if chars_eq(&l, &csv) {
                    DataFormat::Csv
                } else if chars_eq(&l, &jsonl) {
                    DataFormat::Jsonl
                } else {
                    DataFormat::Json
                }
            },
            None => DataFormat::Json,
        }
    }

    /// Groups the file's lines into windows of `max_rows_per_chunk` lines,
    /// one chunk each with its row range; a file with no lines gives one
    /// chunk that holds all of its content.
    pub fn process(&self, path: &str, bytes: &[u8], ctx: &HandlerContext) -> (r: Vec<PreparedChunk>)
        requires
            self.valid(),
        ensures
            self.output_ok(path@, bytes@, r@),
    {
        let content = decode_lossy(bytes);
        let format = DataHandler::data_format(path);
        let chars = chars_of(content.as_str());
        let lines = split_lines(&chars);
        let ghost lv = lines@.map_values(|l: Vec<char>| l@);
        assert(lv =~= lines_of(content@));
        let total = lines.len();
        let rows = self.max_rows_per_chunk;
        let ghost w = row_windows_from(0, total as nat, rows as nat);
        let mut out: Vec<PreparedChunk> = Vec::new();
        let mut start: usize = 0;
        proof {
            lemma_row_windows_shape(0, total as nat, rows as nat);
        }
        while start < total
            invariant
                rows > 0,
                lines@.len() == total,
                lv == lines@.map_values(|l: Vec<char>| l@),
                w == row_windows_from(0, total as nat, rows as nat),
                start <= total,
                out@.len() + row_windows_from(start as nat, total as nat, rows as nat).len() == w.len(),
                forall|k: int|
                    0 <= k < row_windows_from(start as nat, total as nat, rows as nat).len()
                        ==> #[trigger] row_windows_from(start as nat, total as nat, rows as nat)[k]
                        == w[out@.len() + k],
                forall|i: int|
                    0 <= i < out@.len() ==> {
                        &&& (#[trigger] out@[i]).text@ == join_lines(lv.subrange(w[i].0 as int, w[i].1 as int))
                        &&& out@[i].chunk_index == i
                        &&& out@[i].chunk_id_hint.is_none()
                        &&& out@[i].metadata.ingest_mode == IngestMode::Data
                        &&& out@[i].metadata.data_format == Some(format)
                        &&& out@[i].metadata.row_range == Some((w[i].0 as usize, w[i].1 as usize))
                        &&& out@[i].metadata.language.is_none()
                        &&& out@[i].metadata.symbol.is_none()
                        &&& out@[i].metadata.markdown_heading.is_none()
                        &&& out@[i].metadata.binary_size.is_none()
                        &&& out@[i].metadata.binary_path.is_none()
                    },
            decreases total - start,
        {
            let ghost rest = row_windows_from(start as nat, total as nat, rows as nat);
            let end: usize = if total - start >= rows {
                start + rows
            } else {
                total
            };
            let joined = join_range(&lines, start, end);
            assert(lines@.subrange(start as int, end as int).map_values(|l: Vec<char>| l@) =~= lv.subrange(
                start as int,
                end as int,
            ));
            let mut metadata = ChunkMetadata::with_mode(IngestMode::Data);
            metadata.data_format = Some(format);
            metadata.row_range = Some((start, end));
            let ghost idx = out@.len();
            assert(rest[0] == w[idx as int]);
            out.push(
                PreparedChunk {
                    text: string_of(&joined),
                    chunk_index: out.len(),
                    chunk_id_hint: None,
                    metadata,
                },
            );
            proof {
                let tail = row_windows_from(end as nat, total as nat, rows as nat);
                assert(rest == seq![(start as nat, end as nat)] + tail);
                assert forall|k: int| 0 <= k < tail.len() implies #[trigger] tail[k] == w[out@.len()
                    + k] by {
                    assert(tail[k] == rest[k + 1]);
                }
            }
            start = end;
        }
        if out.len() == 0 {
            assert(w.len() == 0);
            out.push(
                PreparedChunk {
                    text: content,
                    chunk_index: 0,
                    chunk_id_hint: None,
                    metadata: ChunkMetadata::with_mode(IngestMode::Data),
                },
            );
            return out;
        }
        assert(lines_of(content@).len() > 0);
        out
    }
}

} // verus!
