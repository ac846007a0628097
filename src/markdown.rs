use vstd::prelude::*;
use vstd::utf8::*;

use crate::chunk::{ChunkMetadata, HandlerContext, IngestMode, PreparedChunk};
use crate::chunking::{chunk_texts, chunk_with_overlap};
use crate::handlers::{decoded, admits_content, path_extension};
use crate::text::{
    chars_eq, chars_of, decode_lossy, extension_of, is_utf8, lines_of, split_lines, string_of,
    sub_chars, trim, trim_chars, trim_range, trim_start,
};

verus! {

/// Splits markdown at headings and chunks each section.
#[derive(Clone, Copy, Debug)]
pub struct MarkdownHandler {
    pub chunk_bytes: usize,
    pub overlap_bytes: usize,
    pub heading_depth: usize,
}

/// Number of `#` characters that open `t`.
pub open spec fn hash_run(t: Seq<char>) -> nat
    decreases t.len(),
{
    if t.len() > 0 && t[0] == '#' {
        1 + hash_run(t.drop_first())
    } else {
        0
    }
}

/// A line that, after leading white space, opens with at most `depth` `#`s.
pub open spec fn is_heading_line(line: Seq<char>, depth: nat) -> bool {
    let t = trim_start(line);
    t.len() > 0 && t[0] == '#' && hash_run(t) <= depth
}

/// The title of a heading line: its text after the `#`s, trimmed.
pub open spec fn heading_text(line: Seq<char>) -> Seq<char> {
    let t = trim_start(line);
    trim(t.subrange(hash_run(t) as int, t.len() as int))
}

/// Closed sections (heading, body), the current heading and the current
/// body, after reading some lines.
pub type MdScan = (Seq<(Seq<char>, Seq<char>)>, Seq<char>, Seq<char>);

pub open spec fn md_step(st: MdScan, line: Seq<char>, depth: nat) -> MdScan {
    if is_heading_line(line, depth) {
        let closed = if st.2.len() > 0 {
            st.0.push((st.1, st.2))
        } else {
            st.0
        };
        (closed, heading_text(line), line + seq!['\n'])
    } else {
        (st.0, st.1, st.2 + line + seq!['\n'])
    }
}

pub open spec fn md_scan(lines: Seq<Seq<char>>, depth: nat) -> MdScan
    decreases lines.len(),
{
    if lines.len() == 0 {
        (seq![], seq![], seq![])
    } else {
        md_step(md_scan(lines.drop_last(), depth), lines.last(), depth)
    }
}

/// The (heading, body) sections of a markdown text: a heading line of depth
/// at most `depth` closes the section before it and opens a new one; every
/// line, heading lines too, goes into the body of the open section, followed
/// by a line feed.  Text before the first heading has an empty heading.
pub open spec fn markdown_sections_of(content: Seq<char>, depth: nat) -> Seq<(Seq<char>, Seq<char>)> {
    let st = md_scan(lines_of(content), depth);
    if st.2.len() > 0 {
        st.0.push((st.1, st.2))
    } else {
        st.0
    }
}

/// Each section's chunks in order, with the section's heading: (text, heading).
pub open spec fn md_pieces(sections: Seq<(Seq<char>, Seq<char>)>, chunk: nat, overlap: nat) -> Seq<
    (Seq<char>, Seq<char>),
>
    decreases sections.len(),
{
    if sections.len() == 0 {
        seq![]
    } else {
        let last = sections.last();
        md_pieces(sections.drop_last(), chunk, overlap) + chunk_texts(
            encode_utf8(last.1),
            chunk,
            overlap,
        ).map_values(|t: Seq<char>| (t, last.0))
    }
}

pub open spec fn markdown_chunks_match(r: Seq<PreparedChunk>, pieces: Seq<(Seq<char>, Seq<char>)>) -> bool {
    &&& r.len() == pieces.len()
    &&& forall|i: int|
        0 <= i < r.len() ==> {
            &&& (#[trigger] r[i]).text@ == pieces[i].0
            &&& r[i].chunk_index == i
            &&& r[i].chunk_id_hint.is_none()
            &&& r[i].metadata.ingest_mode == IngestMode::Text
            &&& (pieces[i].1.len() == 0 ==> r[i].metadata.markdown_heading.is_none())
            &&& (pieces[i].1.len() > 0 ==> r[i].metadata.markdown_heading.is_some()
                && r[i].metadata.markdown_heading.unwrap()@ == pieces[i].1)
            &&& r[i].metadata.language.is_none()
            &&& r[i].metadata.symbol.is_none()
            &&& r[i].metadata.data_format.is_none()
            &&& r[i].metadata.row_range.is_none()
            &&& r[i].metadata.binary_size.is_none()
            &&& r[i].metadata.binary_path.is_none()
        }
}

fn hash_count(t: &[char]) -> (r: usize)
    ensures
        r == hash_run(t@),
        r <= t@.len(),
{
    let mut k: usize = 0;
    assert(t@.subrange(0, t@.len() as int) =~= t@);
    while k < t.len() && t[k] == '#'
        invariant
            k <= t@.len(),
            hash_run(t@) == k + hash_run(t@.subrange(k as int, t@.len() as int)),
        decreases t@.len() - k,
    {
        assert(t@.subrange(k as int, t@.len() as int).drop_first() =~= t@.subrange(
            k as int + 1,
            t@.len() as int,
        ));
        k = k + 1;
    }
    k
}

/// Whether `line` is a heading of depth at most `depth`; if so, its title.
fn heading_of(line: &[char], depth: usize) -> (r: Option<Vec<char>>)
    ensures
        r.is_some() == is_heading_line(line@, depth as nat),
        r.is_some() ==> r.unwrap()@ == heading_text(line@),
{
    let (lo, _hi) = trim_range(line);
    let t = sub_chars(line, lo, line.len());
    assert(t@ == trim_start(line@));
    if t.len() == 0 || t[0] != '#' {
        return None;
    }
    let run = hash_count(&t);
    if run > depth {
        return None;
    }
    let rest = sub_chars(&t, run, t.len());
    Some(trim_chars(&rest))
}

fn append_line(body: &mut Vec<char>, line: &[char])
    ensures
        final(body)@ == old(body)@ + line@ + seq!['\n'],
{
    let ghost start = body@;
    let mut k: usize = 0;
    while k < line.len()
        invariant
            k <= line@.len(),
            body@ == start + line@.subrange(0, k as int),
        decreases line@.len() - k,
    {
        body.push(line[k]);
        k = k + 1;
        assert(body@ =~= start + line@.subrange(0, k as int));
    }
    assert(line@.subrange(0, line@.len() as int) =~= line@);
    body.push('\n');
}

pub open spec fn sections_view(s: Seq<(String, String)>) -> Seq<(Seq<char>, Seq<char>)> {
    s.map_values(|p: (String, String)| (p.0@, p.1@))
}

/// The (heading, body) sections of `content`; see `markdown_sections_of`.
pub fn markdown_sections(content: &str, heading_depth: usize) -> (r: Vec<(String, String)>)
    ensures
        sections_view(r@) == markdown_sections_of(content@, heading_depth as nat),
{
    let chars = chars_of(content);
    let lines = split_lines(&chars);
    let ghost lv = lines@.map_values(|l: Vec<char>| l@);
    assert(lv =~= lines_of(content@));
    let mut sections: Vec<(String, String)> = Vec::new();
    let mut heading: Vec<char> = Vec::new();
    let mut body: Vec<char> = Vec::new();
    let mut i: usize = 0;
    while i < lines.len()
        invariant
            i <= lines@.len(),
            lv == lines@.map_values(|l: Vec<char>| l@),
            (sections_view(sections@), heading@, body@) == md_scan(
                lv.subrange(0, i as int),
                heading_depth as nat,
            ),
        decreases lines@.len() - i,
    {
        let ghost prev = md_scan(lv.subrange(0, i as int), heading_depth as nat);
        assert(lv.subrange(0, i as int + 1).drop_last() =~= lv.subrange(0, i as int));
        assert(lv.subrange(0, i as int + 1).last() == lines@[i as int]@);
        let line = &lines[i];
        match heading_of(line, heading_depth) {
            Some(h) => {
                if body.len() > 0 {
                    let ghost before = sections@;
                    sections.push((string_of(&heading), string_of(&body)));
                    assert(sections_view(sections@) =~= sections_view(before).push((heading@, body@)));
                }
                heading = h;
                body = Vec::new();
                append_line(&mut body, line);
                assert(body@ =~= line@ + seq!['\n']);
            },
            None => {
                append_line(&mut body, line);
            },
        }
        i = i + 1;
    }
    assert(lv.subrange(0, lines@.len() as int) =~= lv);
    if body.len() > 0 {
        let ghost before = sections@;
        sections.push((string_of(&heading), string_of(&body)));
        assert(sections_view(sections@) =~= sections_view(before).push((heading@, body@)));
    }
    sections
}

impl MarkdownHandler {
    pub fn name(&self) -> (r: &'static str)
        ensures
            r@ == "markdown"@,
    {
        "markdown"
    }

    pub open spec fn accepts(self, path: Seq<char>, bytes: Seq<u8>, ctx: HandlerContext) -> bool {
        &&& ctx.admits_content(bytes)
        &&& match extension_of(path) {
            Some(e) => e == seq!['m', 'd'] || e == seq!['m', 'a', 'r', 'k', 'd', 'o', 'w', 'n'],
            None => false,
        }
        &&& valid_utf8(bytes)
    }

    pub open spec fn valid(self) -> bool {
        self.chunk_bytes == 0 || self.overlap_bytes < self.chunk_bytes
    }

    /// What `process` returns for a file.
    pub open spec fn output_ok(self, path: Seq<char>, bytes: Seq<u8>, r: Seq<PreparedChunk>) -> bool {
        markdown_chunks_match(
            r,
            md_pieces(
                markdown_sections_of(decoded(bytes), self.heading_depth as nat),
                self.chunk_bytes as nat,
                self.overlap_bytes as nat,
            ),
        )
    }

    pub fn supports(&self, path: &str, bytes: &[u8], ctx: &HandlerContext) -> (r: bool)
        ensures
            r == self.accepts(path@, bytes@, *ctx),
    {
        if !admits_content(bytes, ctx) {
            return false;
        }
        let ext_ok = match path_extension(path) {
            Some(e) => {
                let md = vec!['m', 'd'];
                let markdown = vec!['m', 'a', 'r', 'k', 'd', 'o', 'w', 'n'];
                assert(md@ == seq!['m', 'd']);
                assert(markdown@ == seq!['m', 'a', 'r', 'k', 'd', 'o', 'w', 'n']);
                chars_eq(&e, &md) || chars_eq(&e, &markdown)
            },
            None => false,
        };
        ext_ok && is_utf8(bytes)
    }

    /// Chunks each section with the sliding window; each chunk carries its
    /// section's heading (none before the first heading) and a chunk index
    /// that counts up across the whole file.
    pub fn process(&self, path: &str, bytes: &[u8], ctx: &HandlerContext) -> (r: Vec<PreparedChunk>)
        requires
            self.valid(),
        ensures
            self.output_ok(path@, bytes@, r@),
    {
        let content = decode_lossy(bytes);
        let sections = markdown_sections(content.as_str(), self.heading_depth);
        let ghost sv = sections_view(sections@);
        let c = self.chunk_bytes;
        let o = self.overlap_bytes;
        let mut out: Vec<PreparedChunk> = Vec::new();
        let mut s: usize = 0;
        while s < sections.len()
            invariant
                c == 0 || o < c,
                s <= sections@.len(),
                sv == sections_view(sections@),
                markdown_chunks_match(out@, md_pieces(sv.subrange(0, s as int), c as nat, o as nat)),
            decreases sections@.len() - s,
        {
            let ghost done = md_pieces(sv.subrange(0, s as int), c as nat, o as nat);
            let ghost sec = sv[s as int];
            assert(sv.subrange(0, s as int + 1).drop_last() =~= sv.subrange(0, s as int));
            assert(sv.subrange(0, s as int + 1).last() == sec);
            let heading = &sections[s].0;
            let body = &sections[s].1;
            let texts = chunk_with_overlap(body.as_str(), c, o);
            let ghost expected = chunk_texts(encode_utf8(sec.1), c as nat, o as nat);
            let has_heading = !heading.as_str().is_empty();
            let mut k: usize = 0;
            while k < texts.len()
                invariant
                    s < sections@.len(),
                    sec == sv[s as int],
                    sv == sections_view(sections@),
                    *heading == sections@[s as int].0,
                    has_heading == (sec.0.len() > 0),
                    texts@.len() == expected.len(),
                    forall|j: int| 0 <= j < texts@.len() ==> (#[trigger] texts@[j])@ == expected[j],
                    k <= texts@.len(),
                    markdown_chunks_match(
                        out@,
                        done + expected.subrange(0, k as int).map_values(|t: Seq<char>| (t, sec.0)),
                    ),
                decreases texts@.len() - k,
            {
                let ghost before = done + expected.subrange(0, k as int).map_values(
                    |t: Seq<char>| (t, sec.0),
                );
                let ghost after = done + expected.subrange(0, k as int + 1).map_values(
                    |t: Seq<char>| (t, sec.0),
                );
                assert(after =~= before.push((expected[k as int], sec.0)));
                let mut metadata = ChunkMetadata::with_mode(IngestMode::Text);
                if has_heading {
                    metadata.markdown_heading = Some(heading.clone());
                }
                out.push(
                    PreparedChunk {
                        text: texts[k].clone(),
                        chunk_index: out.len(),
                        chunk_id_hint: None,
                        metadata,
                    },
                );
                k = k + 1;
            }
            assert(expected.subrange(0, texts@.len() as int) =~= expected);
            assert(md_pieces(sv.subrange(0, s as int + 1), c as nat, o as nat) =~= done
                + expected.map_values(|t: Seq<char>| (t, sec.0)));
            s = s + 1;
        }
        assert(sv.subrange(0, sections@.len() as int) =~= sv);
        out
    }
}

} // verus!
