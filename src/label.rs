//! The heuristic labeler: a label built from the chunk's path and its first
//! lines, used when no language model labels the chunk.

use vstd::prelude::*;
use vstd::string::StringSliceAdditionalSpecFns;
use vstd::utf8::*;

use crate::text::{
    chars_of, last_index_of, lines_of, split_lines, string_of, sub_chars, trim, trim_chars,
};

verus! {

/// Topic, project, summary and open questions of a chunk.
#[derive(Clone, Debug)]
pub struct LabeledChunk {
    pub topic: String,
    pub project: String,
    pub summary: String,
    pub open_questions: Vec<String>,
}

/// The first `n` lines of `s` (or all of them), joined with single spaces.
pub open spec fn head_lines(s: Seq<char>, n: nat) -> Seq<char> {
    let ls = lines_of(s);
    space_joined(ls.take(if ls.len() < n { ls.len() as int } else { n as int }))
}

/// Lines joined with single spaces.
pub open spec fn space_joined(ls: Seq<Seq<char>>) -> Seq<char>
    decreases ls.len(),
{
    if ls.len() == 0 {
        seq![]
    } else if ls.len() == 1 {
        ls[0]
    } else {
        space_joined(ls.drop_last()) + seq![' '] + ls.last()
    }
}

/// The largest character boundary of `b` at or below `limit`.
pub open spec fn boundary_at_most(b: Seq<u8>, limit: int) -> int
    decreases limit,
{
    if limit <= 0 {
        0
    } else if is_char_boundary(b, limit) {
        limit
    } else {
        boundary_at_most(b, limit - 1)
    }
}

proof fn lemma_boundary_at_most(b: Seq<u8>, limit: int)
    requires
        valid_utf8(b),
        0 <= limit <= b.len(),
    ensures
        0 <= boundary_at_most(b, limit) <= limit,
        is_char_boundary(b, boundary_at_most(b, limit)),
    decreases limit,
{
    vstd::utf8::is_char_boundary_start_end_of_seq(b);
    if limit > 0 && !is_char_boundary(b, limit) {
        lemma_boundary_at_most(b, limit - 1);
    }
}

/// The text of `s` cut to at most `limit` bytes, at a character boundary.
pub open spec fn cut_to_bytes(s: Seq<char>, limit: nat) -> Seq<char> {
    let b = encode_utf8(s);
    if b.len() <= limit {
        s
    } else {
        decode_utf8(b.subrange(0, boundary_at_most(b, limit as int)))
    }
}

/// `s` cut to at most `limit` bytes, at the last character boundary that
/// fits.
pub fn truncate_to_bytes(s: &str, limit: usize) -> (r: String)
    ensures
        r@ == cut_to_bytes(s@, limit as nat),
{
    let b = s.as_bytes();
    if b.len() <= limit {
        return s.to_owned();
    }
    let mut k = limit;
    proof {
        vstd::utf8::encode_utf8_valid_utf8(s@);
        lemma_boundary_at_most(b@, limit as int);
    }
    while k > 0 && !s.is_char_boundary(k)
        invariant
            k <= limit < b@.len(),
            b@ == s.spec_bytes(),
            boundary_at_most(b@, k as int) == boundary_at_most(b@, limit as int),
        decreases k,
    {
        k = k - 1;
    }
    proof {
        vstd::utf8::encode_utf8_valid_utf8(s@);
        vstd::utf8::is_char_boundary_start_end_of_seq(b@);
        lemma_boundary_at_most(b@, limit as int);
    }
    let (head, _tail) = s.split_at(k);
    proof {
        vstd::utf8::encode_utf8_decode_utf8(head@);
    }
    head.to_owned()
}

/// Lines `[0, n)` of `lines` joined with single spaces.
fn join_spaces(lines: &Vec<Vec<char>>, n: usize) -> (r: Vec<char>)
    requires
        n <= lines@.len(),
    ensures
        r@ == space_joined(lines@.map_values(|l: Vec<char>| l@).take(n as int)),
{
    let ghost lv = lines@.map_values(|l: Vec<char>| l@);
    let mut out: Vec<char> = Vec::new();
    let mut i: usize = 0;
    while i < n
        invariant
            n <= lines@.len(),
            i <= n,
            lv == lines@.map_values(|l: Vec<char>| l@),
            out@ == space_joined(lv.take(i as int)),
        decreases n - i,
    {
        assert(lv.take(i as int + 1).drop_last() =~= lv.take(i as int));
        if i > 0 {
            out.push(' ');
        }
        let line = &lines[i];
        let ghost before = out@;
        let mut k: usize = 0;
        while k < line.len()
            invariant
                k <= line@.len(),
                out@ == before + line@.subrange(0, k as int),
            decreases line@.len() - k,
        {
            out.push(line[k]);
            k = k + 1;
            assert(out@ =~= before + line@.subrange(0, k as int));
        }
        assert(line@.subrange(0, line@.len() as int) =~= line@);
        proof {
            let t = lv.take(i as int + 1);
            assert(t.last() == line@);
            if i == 0 {
                assert(t.len() == 1);
                assert(out@ =~= t[0]);
            } else {
                assert(out@ =~= space_joined(t.drop_last()) + seq![' '] + t.last());
            }
        }
        i = i + 1;
    }
    out
}

/// The first `n` lines of `content`, joined with single spaces.
fn head_of(content: &str, n: usize) -> (r: Vec<char>)
    ensures
        r@ == head_lines(content@, n as nat),
{
    let chars = chars_of(content);
    let lines = split_lines(&chars);
    assert(lines@.map_values(|l: Vec<char>| l@) =~= lines_of(content@));
    let k = if lines.len() < n {
        lines.len()
    } else {
        n
    };
    join_spaces(&lines, k)
}

/// The first three lines joined with spaces, cut to 280 bytes.
pub fn fallback_summary(content: &str) -> (r: String)
    ensures
        r@ == cut_to_bytes(head_lines(content@, 3), 280),
{
    let head = head_of(content, 3);
    let s = string_of(&head);
    truncate_to_bytes(s.as_str(), 280)
}

/// The heuristic summary of a chunk: its first four lines joined with
/// spaces and trimmed, cut to 240 bytes; a fixed text when that is empty.
pub open spec fn summary_of(content: Seq<char>) -> Seq<char> {
    let t = trim(head_lines(content, 4));
    if t.len() == 0 {
        "Code/document chunk"@
    } else {
        cut_to_bytes(t, 240)
    }
}

pub fn heuristic_summary(content: &str) -> (r: String)
    ensures
        r@ == summary_of(content@),
{
    let head = head_of(content, 4);
    let trimmed = trim_chars(&head);
    if trimmed.len() == 0 {
        return "Code/document chunk".to_owned();
    }
    let s = string_of(&trimmed);
    truncate_to_bytes(s.as_str(), 240)
}

/// The stem of a file name: up to its last dot, unless the name opens with
/// that dot; `.` and `..` have none.
pub open spec fn stem_of(name: Seq<char>) -> Option<Seq<char>> {
    let dot = last_index_of(name, '.');
    if name.len() == 0 || name == seq!['.'] || name == seq!['.', '.'] {
        None
    } else if dot <= 0 {
        Some(name)
    } else {
        Some(name.subrange(0, dot))
    }
}

/// The topic of a path: its parent directory's name when it has one, else
/// the stem of its name, else `chunk`.
pub open spec fn topic_of(path: Seq<char>) -> Seq<char> {
    let last = last_index_of(path, '/');
    if last >= 0 {
        let parent = path.subrange(0, last);
        parent.subrange(last_index_of(parent, '/') + 1, parent.len() as int)
    } else {
        match stem_of(path) {
            Some(s) => s,
            None => "chunk"@,
        }
    }
}

proof fn lemma_last_index_bounds(s: Seq<char>, c: char)
    ensures
        -1 <= last_index_of(s, c) < s.len(),
    decreases s.len(),
{
    if s.len() > 0 && s.last() != c {
        lemma_last_index_bounds(s.drop_last(), c);
    }
}

pub fn derive_topic_from_path(path: &str) -> (r: String)
    ensures
        r@ == topic_of(path@),
{
    let p = chars_of(path);
    proof {
        lemma_last_index_bounds(p@, '/');
    }
    match crate::text::find_last(&p, '/') {
        Some(last) => {
            let parent = sub_chars(&p, 0, last);
            proof {
                lemma_last_index_bounds(parent@, '/');
            }
            let start = match crate::text::find_last(&parent, '/') {
                Some(i) => i + 1,
                None => 0,
            };
            string_of(&sub_chars(&parent, start, parent.len()))
        },
        None => {
            let is_dot = p.len() == 1 && p[0] == '.';
            let is_dotdot = p.len() == 2 && p[0] == '.' && p[1] == '.';
            if p.len() == 0 || is_dot || is_dotdot {
                proof {
                    if is_dot {
                        assert(p@ =~= seq!['.']);
                    }
                    if is_dotdot {
                        assert(p@ =~= seq!['.', '.']);
                    }
                }
                return "chunk".to_owned();
            }
            assert(p@ != seq!['.']) by {
                if p@ == seq!['.'] {
                    assert(p@[0] == '.');
                }
            }
            assert(p@ != seq!['.', '.']) by {
                if p@ == seq!['.', '.'] {
                    assert(p@[0] == '.' && p@[1] == '.');
                }
            }
            proof {
                lemma_last_index_bounds(p@, '.');
            }
            match crate::text::find_last(&p, '.') {
                Some(d) => {
                    if d == 0 {
                        string_of(&p)
                    } else {
                        string_of(&sub_chars(&p, 0, d))
                    }
                },
                None => string_of(&p),
            }
        },
    }
}

/// The project name that heuristic labels carry.
pub open spec fn default_project() -> Seq<char> {
    "vidkosha_cortex"@
}

/// A label from the path and the first lines alone: the parent directory as
/// topic, the fixed project, the heuristic summary and no open questions.
pub fn label_chunk_heuristic(path: &str, content: &str) -> (r: LabeledChunk)
    ensures
        r.topic@ == topic_of(path@),
        r.project@ == default_project(),
        r.summary@ == summary_of(content@),
        r.open_questions@.len() == 0,
{
    LabeledChunk {
        topic: derive_topic_from_path(path),
        project: "vidkosha_cortex".to_owned(),
        summary: heuristic_summary(content),
        open_questions: Vec::new(),
    }
}

} // verus!
