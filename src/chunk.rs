use vstd::prelude::*;

use crate::binary::{classify_binary, Threshold};

verus! {

/// How a chunk was produced.
#[derive(Clone, Copy, Debug, PartialEq, Eq)]
pub enum IngestMode {
    Code,
    Text,
    Data,
    Binary,
}

/// The format of a tabular or structured data file.
#[derive(Clone, Copy, Debug, PartialEq, Eq)]
pub enum DataFormat {
    Csv,
    Json,
    Jsonl,
}

/// The symbol a code chunk was cut from, and which part of it the chunk is.
#[derive(Clone, Debug)]
pub struct SymbolMeta {
    pub name: String,
    pub kind: String,
    pub start_byte: usize,
    pub end_byte: usize,
    pub part_index: usize,
    pub part_count: usize,
}

/// What a handler records about a chunk besides its text.
#[derive(Clone, Debug)]
pub struct ChunkMetadata {
    pub ingest_mode: IngestMode,
    pub language: Option<String>,
    pub symbol: Option<SymbolMeta>,
    pub markdown_heading: Option<String>,
    pub data_format: Option<DataFormat>,
    pub row_range: Option<(usize, usize)>,
    pub binary_size: Option<usize>,
    pub binary_path: Option<String>,
}

impl ChunkMetadata {
    /// Metadata that holds only the ingest mode.
    pub fn with_mode(mode: IngestMode) -> (r: ChunkMetadata)
        ensures
            r.ingest_mode == mode,
            r.language.is_none(),
            r.symbol.is_none(),
            r.markdown_heading.is_none(),
            r.data_format.is_none(),
            r.row_range.is_none(),
            r.binary_size.is_none(),
            r.binary_path.is_none(),
    {
        ChunkMetadata {
            ingest_mode: mode,
            language: None,
            symbol: None,
            markdown_heading: None,
            data_format: None,
            row_range: None,
            binary_size: None,
            binary_path: None,
        }
    }

    pub open spec fn only_mode(self, mode: IngestMode) -> bool {
        &&& self.ingest_mode == mode
        &&& self.language.is_none()
        &&& self.symbol.is_none()
        &&& self.markdown_heading.is_none()
        &&& self.data_format.is_none()
        &&& self.row_range.is_none()
        &&& self.binary_size.is_none()
        &&& self.binary_path.is_none()
    }
}

/// The unit a handler emits.
#[derive(Clone, Debug)]
pub struct PreparedChunk {
    pub text: String,
    pub chunk_index: usize,
    pub chunk_id_hint: Option<String>,
    pub metadata: ChunkMetadata,
}

/// Run-wide settings that every handler sees.
#[derive(Clone, Copy, Debug)]
pub struct HandlerContext {
    pub allow_binary: bool,
    pub binary_threshold: Threshold,
}

impl HandlerContext {
    /// Whether the run takes `bytes` as content: binaries are allowed, or
    /// the classifier does not call them binary.
    pub open spec fn admits_content(self, bytes: Seq<u8>) -> bool {
        self.allow_binary || !classify_binary(bytes, self.binary_threshold)
    }
}

} // verus!
