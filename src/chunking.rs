use vstd::prelude::*;

use vstd::string::StringSliceAdditionalSpecFns;

use crate::text::{decode_lossy, utf8_text};

verus! {

pub open spec fn min_nat(a: nat, b: nat) -> nat {
    if a <= b {
        a
    } else {
        b
    }
}

/// The windows of the sliding chunker over a buffer of `len` bytes, from
/// `start` on: each window is `chunk` bytes (the last may be shorter), and the
/// next one starts `min(overlap, chunk, window length)` bytes before the end
/// of the previous one.  The walk stops at the window that reaches `len`.
/// (The branch that stops when no progress is made is never taken on the
/// inputs that `chunk_spans` admits.)
pub open spec fn spans_from(start: nat, len: nat, chunk: nat, overlap: nat) -> Seq<(nat, nat)>
    decreases len - start,
{
    if chunk == 0 || start >= len {
        seq![]
    } else {
        let end = min_nat(start + chunk, len);
        if end == len {
            seq![(start, end)]
        } else {
            let next = (end - min_nat(overlap, min_nat(chunk, (end - start) as nat))) as nat;
            if next <= start {
                seq![(start, end)]
            } else {
                seq![(start, end)] + spans_from(next, len, chunk, overlap)
            }
        }
    }
}

/// The byte windows that `chunk_with_overlap` cuts from a buffer of `len` bytes.
pub open spec fn spans(len: nat, chunk: nat, overlap: nat) -> Seq<(nat, nat)> {
    spans_from(0, len, chunk, overlap)
}

/// The inputs on which the sliding window makes progress and stops: a zero
/// chunk size, an overlap below the chunk size, or a buffer that fits in one
/// chunk.
pub open spec fn chunking_terminates(len: nat, chunk: nat, overlap: nat) -> bool {
    chunk == 0 || overlap < chunk || len <= chunk
}

/// The text of each window: decoded as UTF-8 where the window is valid
/// UTF-8, lossily elsewhere.
pub open spec fn chunk_texts(bytes: Seq<u8>, chunk: nat, overlap: nat) -> Seq<Seq<char>> {
    spans(bytes.len(), chunk, overlap).map_values(
        |w: (nat, nat)| utf8_text(bytes.subrange(w.0 as int, w.1 as int)),
    )
}

proof fn lemma_spans_from_shape(start: nat, len: nat, chunk: nat, overlap: nat)
    requires
        chunking_terminates(len, chunk, overlap),
        chunk > 0,
        start < len,
    ensures
        ({
            let s = spans_from(start, len, chunk, overlap);
            &&& s.len() > 0
            &&& s[0].0 == start
            &&& s.last().1 == len
            &&& forall|i: int|
                0 <= i < s.len() ==> start <= #[trigger] s[i].0 < s[i].1 <= len && s[i].1 - s[i].0
                    <= chunk
            &&& forall|i: int|
                0 <= i < s.len() - 1 ==> #[trigger] s[i + 1].0 == s[i].1 - min_nat(
                    overlap,
                    min_nat(chunk, (s[i].1 - s[i].0) as nat),
                ) && s[i].0 < s[i + 1].0
        }),
    decreases len - start,
{
    let s = spans_from(start, len, chunk, overlap);
    let end = min_nat(start + chunk, len);
    if end != len {
        let next = (end - min_nat(overlap, min_nat(chunk, (end - start) as nat))) as nat;
        assert(next > start);
        lemma_spans_from_shape(next, len, chunk, overlap);
        let t = spans_from(next, len, chunk, overlap);
        assert(s == seq![(start, end)] + t);
        assert forall|i: int| 0 <= i < s.len() implies start <= #[trigger] s[i].0 < s[i].1 <= len
            && s[i].1 - s[i].0 <= chunk by {
            if i > 0 {
                assert(s[i] == t[i - 1]);
            }
        }
        assert forall|i: int| 0 <= i < s.len() - 1 implies #[trigger] s[i + 1].0 == s[i].1
            - min_nat(overlap, min_nat(chunk, (s[i].1 - s[i].0) as nat)) && s[i].0 < s[i + 1].0 by {
            if i > 0 {
                let j = i - 1;
                assert(s[i] == t[j]);
                assert(s[i + 1] == t[j + 1]);
                assert(t[j + 1].0 == t[j].1 - min_nat(overlap, min_nat(chunk, (t[j].1 - t[j].0) as nat))
                    && t[j].0 < t[j + 1].0);
            } else {
                assert(s[0] == (start, end));
                assert(s[1] == t[0]);
                assert(t[0].0 == next);
            }
        }
    }
}

/// For a buffer longer than the chunk size and an overlap strictly between
/// zero and the chunk size, the windows start at 0, end at the buffer's end,
/// start at strictly increasing offsets, and each overlaps the previous one by
/// exactly `min(overlap, chunk, previous window length)` bytes.
pub proof fn lemma_chunk_windows_cover(len: nat, chunk: nat, overlap: nat)
    requires
        0 < overlap < chunk < len,
    ensures
        ({
            let s = spans(len, chunk, overlap);
            &&& s.len() > 0
            &&& s[0].0 == 0
            &&& s.last().1 == len
            &&& forall|i: int| 0 <= i < s.len() - 1 ==> #[trigger] s[i].0 < s[i + 1].0
            &&& forall|i: int|
                0 <= i < s.len() - 1 ==> #[trigger] s[i].1 - s[i + 1].0 == min_nat(
                    overlap,
                    min_nat(chunk, (s[i].1 - s[i].0) as nat),
                )
        }),
{
    lemma_spans_from_shape(0, len, chunk, overlap);
    let s = spans(len, chunk, overlap);
    assert forall|i: int| 0 <= i < s.len() - 1 implies #[trigger] s[i].0 < s[i + 1].0 by {
        assert(s[i + 1].0 == s[i].1 - min_nat(overlap, min_nat(chunk, (s[i].1 - s[i].0) as nat)));
    }
    assert forall|i: int| 0 <= i < s.len() - 1 implies #[trigger] s[i].1 - s[i + 1].0 == min_nat(
        overlap,
        min_nat(chunk, (s[i].1 - s[i].0) as nat),
    ) by {
        assert(s[i + 1].0 == s[i].1 - min_nat(overlap, min_nat(chunk, (s[i].1 - s[i].0) as nat)));
    }
}

/// A chunk size of zero yields no chunks, whatever the buffer.
pub proof fn lemma_zero_chunk_size_is_empty(bytes: Seq<u8>, overlap: nat)
    ensures
        chunk_texts(bytes, 0, overlap).len() == 0,
{
}

/// The byte windows of the sliding chunker over a buffer of `len` bytes.
pub fn chunk_spans(len: usize, chunk_bytes: usize, overlap_bytes: usize) -> (r: Vec<(usize, usize)>)
    requires
        chunking_terminates(len as nat, chunk_bytes as nat, overlap_bytes as nat),
    ensures
        r@.len() == spans(len as nat, chunk_bytes as nat, overlap_bytes as nat).len(),
        forall|i: int|
            0 <= i < r@.len() ==> (#[trigger] r@[i]).0 == spans(
                len as nat,
                chunk_bytes as nat,
                overlap_bytes as nat,
            )[i].0 && r@[i].1 == spans(len as nat, chunk_bytes as nat, overlap_bytes as nat)[i].1,
{
    let ghost total = spans(len as nat, chunk_bytes as nat, overlap_bytes as nat);
    let mut out: Vec<(usize, usize)> = Vec::new();
    if chunk_bytes == 0 {
        return out;
    }
    let mut start: usize = 0;
    while start < len
        invariant
            chunk_bytes > 0,
            chunking_terminates(len as nat, chunk_bytes as nat, overlap_bytes as nat),
            total == spans(len as nat, chunk_bytes as nat, overlap_bytes as nat),
            start <= len,
            out@.len() + spans_from(start as nat, len as nat, chunk_bytes as nat, overlap_bytes as nat).len()
                == total.len(),
            forall|i: int|
                0 <= i < out@.len() ==> (#[trigger] out@[i]).0 == total[i].0 && out@[i].1
                    == total[i].1,
            forall|i: int|
                0 <= i < spans_from(
                    start as nat,
                    len as nat,
                    chunk_bytes as nat,
                    overlap_bytes as nat,
                ).len() ==> #[trigger] spans_from(
                    start as nat,
                    len as nat,
                    chunk_bytes as nat,
                    overlap_bytes as nat,
                )[i] == total[out@.len() + i],
        decreases len - start,
    {
        let ghost rest = spans_from(start as nat, len as nat, chunk_bytes as nat, overlap_bytes as nat);
        let end: usize = if len - start <= chunk_bytes {
            len
        } else {
            start + chunk_bytes
        };
        assert(rest[0] == total[out@.len() as int]);
        out.push((start, end));
        if end == len {
            assert(rest.len() == 1);
            start = len;
        } else {
            let window = end - start;
            let mut overlap: usize = if overlap_bytes < chunk_bytes {
                overlap_bytes
            } else {
                chunk_bytes
            };
            if window < overlap {
                overlap = window;
            }
            let next = end - overlap;
            proof {
                let tail = spans_from(next as nat, len as nat, chunk_bytes as nat, overlap_bytes as nat);
                assert(rest == seq![(start as nat, end as nat)] + tail);
                assert forall|i: int| 0 <= i < tail.len() implies #[trigger] tail[i] == total[out@.len()
                    + i] by {
                    assert(tail[i] == rest[i + 1]);
                }
            }
            start = next;
        }
    }
    proof {
        if start >= len {
            assert(spans_from(start as nat, len as nat, chunk_bytes as nat, overlap_bytes as nat).len()
                == 0);
        }
    }
    out
}

/// Slides a window of `chunk_bytes` over the bytes of `content`; each window
/// after the first starts `min(overlap_bytes, chunk_bytes, window length)`
/// bytes before the end of the previous one.  Each window is decoded lossily,
/// so a window that cuts a multi-byte character yields replacement
/// characters.  A chunk size of zero yields no chunks.
pub fn chunk_with_overlap(content: &str, chunk_bytes: usize, overlap_bytes: usize) -> (r: Vec<String>)
    requires
        chunking_terminates(content.spec_bytes().len(), chunk_bytes as nat, overlap_bytes as nat),
    ensures
        r@.len() == chunk_texts(content.spec_bytes(), chunk_bytes as nat, overlap_bytes as nat).len(),
        forall|i: int|
            0 <= i < r@.len() ==> (#[trigger] r@[i])@ == chunk_texts(
                content.spec_bytes(),
                chunk_bytes as nat,
                overlap_bytes as nat,
            )[i],
        chunk_bytes == 0 ==> r@.len() == 0,
{
    let bytes = content.as_bytes();
    chunk_bytes_with_overlap(bytes, chunk_bytes, overlap_bytes)
}

/// `chunk_with_overlap` on a byte buffer.
pub fn chunk_bytes_with_overlap(bytes: &[u8], chunk_bytes: usize, overlap_bytes: usize) -> (r: Vec<
    String,
>)
    requires
        chunking_terminates(bytes@.len(), chunk_bytes as nat, overlap_bytes as nat),
    ensures
        r@.len() == chunk_texts(bytes@, chunk_bytes as nat, overlap_bytes as nat).len(),
        forall|i: int|
            0 <= i < r@.len() ==> (#[trigger] r@[i])@ == chunk_texts(
                bytes@,
                chunk_bytes as nat,
                overlap_bytes as nat,
            )[i],
        chunk_bytes == 0 ==> r@.len() == 0,
{
    let ghost texts = chunk_texts(bytes@, chunk_bytes as nat, overlap_bytes as nat);
    let ghost sp = spans(bytes@.len(), chunk_bytes as nat, overlap_bytes as nat);
    let windows = chunk_spans(bytes.len(), chunk_bytes, overlap_bytes);
    proof {
        if sp.len() > 0 {
            lemma_spans_from_shape(0, bytes@.len(), chunk_bytes as nat, overlap_bytes as nat);
        }
    }
    let mut out: Vec<String> = Vec::new();
    let mut k: usize = 0;
    while k < windows.len()
        invariant
            texts == chunk_texts(bytes@, chunk_bytes as nat, overlap_bytes as nat),
            sp == spans(bytes@.len(), chunk_bytes as nat, overlap_bytes as nat),
            windows@.len() == sp.len(),
            forall|i: int|
                0 <= i < windows@.len() ==> (#[trigger] windows@[i]).0 == sp[i].0 && windows@[i].1
                    == sp[i].1,
            forall|i: int| 0 <= i < sp.len() ==> #[trigger] sp[i].0 < sp[i].1 <= bytes@.len(),
            k <= windows@.len(),
            out@.len() == k,
            forall|i: int| 0 <= i < k ==> (#[trigger] out@[i])@ == texts[i],
        decreases windows@.len() - k,
    {
        let (s, e) = windows[k];
        assert(sp[k as int].0 < sp[k as int].1 <= bytes@.len());
        let piece = slice_range(bytes, s, e);
        let text = decode_lossy(piece);
        out.push(text);
        k = k + 1;
    }
    out
}

/// The bytes `b[start..end]`.
pub(crate) fn slice_range(b: &[u8], start: usize, end: usize) -> (r: &[u8])
    requires
        start <= end <= b@.len(),
    ensures
        r@ == b@.subrange(start as int, end as int),
{
    vstd::slice::slice_subrange(b, start, end)
}

} // verus!
