//! The decisions of an indexing run.  The caller reads files, labels chunks
//! and writes them to the memory store; this module decides, for each file
//! in turn, whether it is skipped or which chunks it yields, which chunks are
//! new to the run, and what the manifest records once a file is done.

use vstd::prelude::*;
use vstd::string::StringSliceAdditionalSpecFns;

use crate::chunk::{HandlerContext, PreparedChunk};
use crate::manifest::{is_unchanged_in_manifest, unchanged, IngestManifest, ManifestEntry};
use crate::policy::{all_valid, considered, resolve_handler, resolved, should_consider_file, Handler, IngestConfig};
use crate::text::{chars_eq, chars_of, decimal, decimal_chars, push_chars, string_of};

verus! {

/// The BLAKE3 digest of a byte sequence in hexadecimal.
pub uninterp spec fn blake3_hex(b: Seq<u8>) -> Seq<char>;

pub open spec fn is_hex_digit(c: char) -> bool {
    ('0' <= c && c <= '9') || ('a' <= c && c <= 'f')
}

/// Relies on `blake3::hash` and `Hash::to_hex`: the 32-byte digest written
/// as 64 lower-case hexadecimal digits.
#[verifier::external_body]
pub(crate) fn content_hash(data: &[u8]) -> (r: String)
    ensures
        r@ == blake3_hex(data@),
        r@.len() == 64,
        forall|i: int| 0 <= i < r@.len() ==> is_hex_digit(#[trigger] r@[i]),
{
    blake3::hash(data).to_hex().to_string()
}

/// Why a file yields nothing to index.
#[derive(Clone, Copy, Debug, PartialEq, Eq, Structural)]
pub enum SkipReason {
    /// The run's filters reject it.
    Filtered,
    /// The manifest records the same hash and modification time.
    Unchanged,
    /// No handler accepts it.
    NoHandler,
    /// Its handler produced no chunks.
    NoChunks,
}

/// A file to index: its hash, modification time, handler and chunks.
#[derive(Clone, Debug)]
pub struct FilePlan {
    pub file_hash: String,
    pub mtime: u64,
    pub handler: Handler,
    pub chunks: Vec<PreparedChunk>,
}

/// What becomes of a file.
#[derive(Clone, Debug)]
pub enum FileDecision {
    Skip(SkipReason),
    Process(FilePlan),
}

/// What a run carries from file to file: the manifest and the hashes of the
/// chunks already seen in this run.
#[derive(Clone, Debug)]
pub struct IngestRun {
    pub manifest: IngestManifest,
    pub seen_hashes: Vec<String>,
}

pub open spec fn hash_views(v: Seq<String>) -> Seq<Seq<char>> {
    v.map_values(|s: String| s@)
}

/// Whether a file reaches its handler: it passes the filters, the manifest
/// does not record it as unchanged, and some handler accepts it.
pub open spec fn would_process(
    m: IngestManifest,
    path: Seq<char>,
    is_file: bool,
    file_len: u64,
    mtime: u64,
    data: Seq<u8>,
    cfg: IngestConfig,
    max_file_bytes_flag: u64,
    changed_only: Option<Seq<String>>,
    handlers: Seq<Handler>,
    ctx: HandlerContext,
) -> bool {
    &&& considered(path, is_file, file_len, data, cfg, max_file_bytes_flag, changed_only, ctx)
    &&& !unchanged(m, path, blake3_hex(data), mtime)
    &&& resolved(handlers, cfg, path, data, ctx).is_some()
}

/// The chunk id of a chunk without a hint: `path#chunk-INDEX-PREFIX`, where
/// PREFIX is the first eight characters of the file hash.
pub open spec fn fallback_chunk_id(path: Seq<char>, index: nat, file_hash: Seq<char>) -> Seq<char> {
    path + "#chunk-"@ + decimal(index) + seq!['-'] + file_hash.take(
        if file_hash.len() < 8 {
            file_hash.len() as int
        } else {
            8
        },
    )
}

/// The id under which a chunk is stored: its hint, else the fallback id.
pub fn chunk_id(path: &str, chunk: &PreparedChunk, index: usize, file_hash: &str) -> (r: String)
    ensures
        match chunk.chunk_id_hint {
            Some(h) => r@ == h@,
            None => r@ == fallback_chunk_id(path@, index as nat, file_hash@),
        },
{
    match &chunk.chunk_id_hint {
        Some(h) => h.clone(),
        None => {
            let mut out = chars_of(path);
            push_chars(&mut out, &chars_of("#chunk-"));
            push_chars(&mut out, &decimal_chars(index));
            out.push('-');
            let fh = chars_of(file_hash);
            let n: usize = if fh.len() < 8 {
                fh.len()
            } else {
                8
            };
            let ghost before = out@;
            let mut k: usize = 0;
            while k < n
                invariant
                    n <= fh@.len(),
                    k <= n,
                    out@ == before + fh@.take(k as int),
                decreases n - k,
            {
                out.push(fh[k]);
                k = k + 1;
                assert(out@ =~= before + fh@.take(k as int));
            }
            string_of(&out)
        },
    }
}

impl IngestRun {
    pub open spec fn wf(self) -> bool {
        self.manifest.wf()
    }

    pub open spec fn seen(self) -> Seq<Seq<char>> {
        hash_views(self.seen_hashes@)
    }

    /// A run that starts from `manifest` and has seen no chunk.
    pub fn new(manifest: IngestManifest) -> (r: IngestRun)
        ensures
            r.manifest == manifest,
            r.seen().len() == 0,
    {
        IngestRun { manifest, seen_hashes: Vec::new() }
    }

    /// Decides what becomes of a file: filtered out, unchanged since the
    /// manifest recorded it, without a handler, without chunks, or to be
    /// processed with the chunks its handler produced.
    pub fn prepare_file(
        &self,
        path: &str,
        is_file: bool,
        file_len: u64,
        mtime: u64,
        data: &[u8],
        cfg: &IngestConfig,
        max_file_bytes_flag: u64,
        changed_only: Option<&Vec<String>>,
        handlers: &Vec<Handler>,
        ctx: &HandlerContext,
    ) -> (r: FileDecision)
        requires
            all_valid(handlers@),
        ensures
            ({
                let changed = match changed_only {
                    Some(c) => Some(c@),
                    None => None,
                };
                let passes = considered(path@, is_file, file_len, data@, *cfg, max_file_bytes_flag, changed, *ctx);
                let same = unchanged(self.manifest, path@, blake3_hex(data@), mtime);
                let chosen = resolved(handlers@, *cfg, path@, data@, *ctx);
                match r {
                    FileDecision::Skip(SkipReason::Filtered) => !passes,
                    FileDecision::Skip(SkipReason::Unchanged) => passes && same,
                    FileDecision::Skip(SkipReason::NoHandler) => passes && !same && chosen.is_none(),
                    FileDecision::Skip(SkipReason::NoChunks) => passes && !same && chosen.is_some()
                        && handlers@[chosen.unwrap()].output_ok(path@, data@, seq![]),
                    FileDecision::Process(plan) => {
                        &&& would_process(
                            self.manifest,
                            path@,
                            is_file,
                            file_len,
                            mtime,
                            data@,
                            *cfg,
                            max_file_bytes_flag,
                            changed,
                            handlers@,
                            *ctx,
                        )
                        &&& plan.handler == handlers@[chosen.unwrap()]
                        &&& plan.chunks@.len() > 0
                        &&& plan.handler.output_ok(path@, data@, plan.chunks@)
                        &&& plan.file_hash@ == blake3_hex(data@)
                        &&& plan.mtime == mtime
                    },
                }
            }),
    {
        if !should_consider_file(path, is_file, file_len, data, cfg, max_file_bytes_flag, changed_only, ctx) {
            return FileDecision::Skip(SkipReason::Filtered);
        }
        let file_hash = content_hash(data);
        if is_unchanged_in_manifest(path, &self.manifest, file_hash.as_str(), mtime) {
            return FileDecision::Skip(SkipReason::Unchanged);
        }
        let handler = match resolve_handler(handlers, cfg, path, data, ctx) {
            Some(h) => h,
            None => {
                return FileDecision::Skip(SkipReason::NoHandler);
            },
        };
        proof {
            crate::policy::lemma_resolved_accepts(handlers@, *cfg, path@, data@, *ctx);
        }
        let chunks = handler.process(path, data, ctx);
        if chunks.len() == 0 {
            assert(chunks@ =~= seq![]);
            return FileDecision::Skip(SkipReason::NoChunks);
        }
        FileDecision::Process(FilePlan { file_hash, mtime, handler: *handler, chunks })
    }

    /// Registers a chunk's text with the run.  Returns its content hash when
    /// no chunk with that hash was seen before in this run, and `None` for a
    /// duplicate, which is then neither labeled nor written.
    pub fn admit_chunk(&mut self, text: &str) -> (r: Option<String>)
        ensures
            final(self).manifest == old(self).manifest,
            r.is_some() == !old(self).seen().contains(blake3_hex(text.spec_bytes())),
            r.is_some() ==> r.unwrap()@ == blake3_hex(text.spec_bytes()) && final(self).seen() == old(
                self,
            ).seen().push(blake3_hex(text.spec_bytes())),
            r.is_none() ==> final(self).seen() == old(self).seen(),
    {
        let hash = content_hash(text.as_bytes());
        let h = chars_of(hash.as_str());
        let mut i: usize = 0;
        while i < self.seen_hashes.len()
            invariant
                i <= self.seen_hashes@.len(),
                h@ == hash@,
                hash@ == blake3_hex(text.spec_bytes()),
                *self == *old(self),
                forall|j: int| 0 <= j < i ==> #[trigger] self.seen_hashes@[j]@ != hash@,
            decreases self.seen_hashes@.len() - i,
        {
            let s = chars_of(self.seen_hashes[i].as_str());
            if chars_eq(&s, &h) {
                assert(self.seen()[i as int] == hash@);
                assert(self.seen().contains(hash@));
                return None;
            }
            i = i + 1;
        }
        assert(!self.seen().contains(hash@)) by {
            if self.seen().contains(hash@) {
                let j = choose|j: int| 0 <= j < self.seen().len() && self.seen()[j] == hash@;
                assert(self.seen_hashes@[j]@ != hash@);
            }
        }
        let ghost before = self.seen_hashes@;
        self.seen_hashes.push(hash.clone());
        assert(hash_views(self.seen_hashes@) =~= hash_views(before).push(hash@));
        Some(hash)
    }

    /// Records a finished file in the manifest: its hash, modification time
    /// and the ids of the chunks written for it in this run.
    pub fn complete_file(&mut self, path: String, file_hash: String, mtime: u64, chunk_ids: Vec<String>)
        requires
            old(self).wf(),
        ensures
            final(self).wf(),
            final(self).seen_hashes == old(self).seen_hashes,
            final(self).manifest.entry_of(path@) == Some(ManifestEntry { hash: file_hash, mtime, chunk_ids }),
            forall|p: Seq<char>|
                p != path@ ==> #[trigger] final(self).manifest.entry_of(p) == old(self).manifest.entry_of(p),
    {
        self.manifest.insert(path, ManifestEntry { hash: file_hash, mtime, chunk_ids });
    }
}

/// A file recorded with the hash of its bytes and its modification time is
/// not processed again while both stay the same: it yields no chunk to label
/// or write.
pub proof fn lemma_recorded_file_not_reprocessed(
    m: IngestManifest,
    path: Seq<char>,
    is_file: bool,
    file_len: u64,
    mtime: u64,
    data: Seq<u8>,
    cfg: IngestConfig,
    max_file_bytes_flag: u64,
    changed_only: Option<Seq<String>>,
    handlers: Seq<Handler>,
    ctx: HandlerContext,
)
    requires
        m.entry_of(path).is_some(),
        m.entry_of(path).unwrap().hash@ == blake3_hex(data),
        m.entry_of(path).unwrap().mtime == mtime,
    ensures
        !would_process(m, path, is_file, file_len, mtime, data, cfg, max_file_bytes_flag, changed_only, handlers, ctx),
{
}

} // verus!
