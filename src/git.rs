//! Reading the output of the git commands that list the repository's files.

use vstd::prelude::*;
use vstd::utf8::*;

use crate::chunking::slice_range;
use crate::text::{
    chars_of, decode_lossy, is_utf8, lines_of, utf8_text, split_lines, string_of, trim,
    trim_chars,
};

verus! {

/// The index of the first NUL byte at or after `i`, or the length.
pub open spec fn field_end(b: Seq<u8>, i: int) -> int
    decreases b.len() - i,
{
    if i >= b.len() || b[i] == 0 {
        i
    } else {
        field_end(b, i + 1)
    }
}

proof fn lemma_field_end(b: Seq<u8>, i: int)
    requires
        0 <= i <= b.len(),
    ensures
        i <= field_end(b, i) <= b.len(),
    decreases b.len() - i,
{
    if i < b.len() && b[i] != 0 {
        lemma_field_end(b, i + 1);
    }
}

proof fn lemma_field_end_skip(b: Seq<u8>, i: int, j: int)
    requires
        0 <= i <= j <= b.len(),
        forall|k: int| i <= k < j ==> b[k] != 0,
    ensures
        field_end(b, i) == field_end(b, j),
    decreases j - i,
{
    if i < j {
        lemma_field_end_skip(b, i + 1, j);
    }
}

/// The NUL-separated fields of `b[i..]` that are non-empty UTF-8, decoded.
pub open spec fn path_fields_from(b: Seq<u8>, i: int) -> Seq<Seq<char>>
    decreases b.len() - i,
    via path_fields_decreases
{
    if i < 0 || i >= b.len() {
        seq![]
    } else {
        let e = field_end(b, i);
        let piece = b.subrange(i, e);
        let rest = if e < b.len() {
            path_fields_from(b, e + 1)
        } else {
            seq![]
        };
        if piece.len() > 0 && valid_utf8(piece) {
            seq![decode_utf8(piece)] + rest
        } else {
            rest
        }
    }
}

#[via_fn]
proof fn path_fields_decreases(b: Seq<u8>, i: int) {
    if 0 <= i < b.len() {
        lemma_field_end(b, i);
    }
}

/// The paths that `git ls-files -z` printed: its NUL-separated fields,
/// leaving out empty ones and those that are not UTF-8.
pub fn parse_ls_files(out: &[u8]) -> (r: Vec<String>)
    ensures
        r@.map_values(|s: String| s@) == path_fields_from(out@, 0),
{
    let n = out.len();
    let mut files: Vec<String> = Vec::new();
    let mut i: usize = 0;
    while i < n
        invariant
            n == out@.len(),
            i <= n,
            files@.map_values(|s: String| s@) + path_fields_from(out@, i as int) == path_fields_from(out@, 0),
        decreases n - i,
    {
        let mut j = i;
        while j < n && out[j] != 0
            invariant
                i <= j <= n,
                n == out@.len(),
                forall|k: int| i <= k < j ==> out@[k] != 0,
            decreases n - j,
        {
            j = j + 1;
        }
        proof {
            lemma_field_end_skip(out@, i as int, j as int);
        }
        let ghost rest = if j < n {
            path_fields_from(out@, j + 1)
        } else {
            seq![]
        };
        let piece = slice_range(out, i, j);
        let ghost before = files@.map_values(|s: String| s@);
        if piece.len() > 0 && is_utf8(piece) {
            let text = decode_lossy(piece);
            files.push(text);
            assert(files@.map_values(|s: String| s@) =~= before.push(decode_utf8(piece@)));
            assert(path_fields_from(out@, i as int) == seq![decode_utf8(piece@)] + rest);
            assert(files@.map_values(|s: String| s@) + rest =~= before + path_fields_from(out@, i as int));
        } else {
            assert(path_fields_from(out@, i as int) == rest);
        }
        if j < n {
            i = j + 1;
        } else {
            assert(path_fields_from(out@, n as int) == Seq::<Seq<char>>::empty());
            assert(files@.map_values(|s: String| s@) + path_fields_from(out@, n as int) =~= files@.map_values(|s: String| s@) + rest);
            i = n;
        }
    }
    assert(path_fields_from(out@, i as int) == Seq::<Seq<char>>::empty());
    assert(files@.map_values(|s: String| s@) =~= files@.map_values(|s: String| s@) + path_fields_from(out@, i as int));
    files
}

/// The lines of `ls`, trimmed, that are not empty once trimmed.
pub open spec fn nonblank_trimmed(ls: Seq<Seq<char>>) -> Seq<Seq<char>>
    decreases ls.len(),
{
    if ls.len() == 0 {
        seq![]
    } else {
        let prev = nonblank_trimmed(ls.drop_last());
        let t = trim(ls.last());
        if t.len() > 0 {
            prev.push(t)
        } else {
            prev
        }
    }
}

/// The paths that `git diff --name-only` printed: its lines, decoded
/// lossily and trimmed, leaving out blank ones.
pub fn parse_changed_paths(out: &[u8]) -> (r: Vec<String>)
    ensures
        r@.map_values(|s: String| s@) == nonblank_trimmed(lines_of(utf8_text(out@))),
{
    let text = decode_lossy(out);
    let chars = chars_of(text.as_str());
    let lines = split_lines(&chars);
    let ghost lv = lines@.map_values(|l: Vec<char>| l@);
    assert(lv =~= lines_of(utf8_text(out@)));
    let mut paths: Vec<String> = Vec::new();
    let mut i: usize = 0;
    while i < lines.len()
        invariant
            i <= lines@.len(),
            lv == lines@.map_values(|l: Vec<char>| l@),
            paths@.map_values(|s: String| s@) == nonblank_trimmed(lv.take(i as int)),
        decreases lines@.len() - i,
    {
        assert(lv.take(i as int + 1).drop_last() =~= lv.take(i as int));
        assert(lv.take(i as int + 1).last() == lines@[i as int]@);
        let trimmed = trim_chars(&lines[i]);
        if trimmed.len() > 0 {
            let ghost before = paths@.map_values(|s: String| s@);
            paths.push(string_of(&trimmed));
            assert(paths@.map_values(|s: String| s@) =~= before.push(trimmed@));
        }
        i = i + 1;
    }
    assert(lv.take(lines@.len() as int) =~= lv);
    paths
}

} // verus!
