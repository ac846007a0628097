use vstd::prelude::*;
use vstd::string::StringSliceAdditionalSpecFns;
use vstd::utf8::*;

use crate::chunk::{ChunkMetadata, HandlerContext, IngestMode, PreparedChunk, SymbolMeta};
use crate::chunking::{chunk_texts, chunk_with_overlap, slice_range};
use crate::handlers::{decoded, admits_content, windowed_chunks, windowed_chunks_match};
use crate::syntax::{
    descendant_count, field_span, javascript_grammar, named_child, named_child_count, new_parser,
    node_end, node_kind, node_start, parse_text, python_grammar, root_node, rust_grammar,
    set_parser_language, ts_descendants, ts_end, ts_field_span, ts_grammar_loads, ts_kind,
    ts_named_count, ts_parsed, ts_start, tsx_grammar, typescript_grammar, Grammar, SyntaxNode,
};
use crate::text::{
    alphanumeric, ascii_lowercase, blank, chars_eq, chars_of, decimal, decimal_chars, decode_lossy,
    extension_of, is_alphanumeric, is_utf8, utf8_text, push_chars, string_of, to_ascii_lower, trim,
    trim_chars,
};

verus! {

broadcast use vstd::seq_lib::group_to_multiset_ensures;

/// The languages whose symbols can be extracted.
#[derive(Clone, Copy, Debug, PartialEq, Eq, Structural)]
pub enum CodeLanguage {
    Rust,
    TypeScript,
    Tsx,
    JavaScript,
    Python,
}

/// A located syntactic unit: a function, class, struct and the like.
#[derive(Clone, Debug)]
pub struct SymbolInfo {
    pub name: String,
    pub kind: String,
    pub start_byte: usize,
    pub end_byte: usize,
}

/// A symbol as values: (name, kind, start byte, end byte).
pub type SymbolView = (Seq<char>, Seq<char>, usize, usize);

impl View for SymbolInfo {
    type V = SymbolView;

    open spec fn view(&self) -> SymbolView {
        (self.name@, self.kind@, self.start_byte, self.end_byte)
    }
}

pub open spec fn symbol_views(v: Seq<SymbolInfo>) -> Seq<SymbolView> {
    v.map_values(|s: SymbolInfo| s@)
}

/// One slice of a symbol's source; `part_count` is 1 unless the symbol was
/// longer than the chunk size.
#[derive(Clone, Debug)]
pub struct SymbolChunk {
    pub text: String,
    pub symbol: SymbolInfo,
    pub part_index: usize,
    pub part_count: usize,
}

/// Why symbols could not be extracted.
#[derive(Clone, Copy, Debug, PartialEq, Eq, Structural)]
pub enum CodeError {
    /// The grammar was built for a parser version this one cannot load.
    IncompatibleGrammar,
}

/// The language a path's extension names, compared without ASCII case.
pub open spec fn language_of(path: Seq<char>) -> Option<CodeLanguage> {
    match extension_of(path) {
        Some(e) => {
            let l = ascii_lowercase(e);
            if l == seq!['r', 's'] {
                Some(CodeLanguage::Rust)
            } else if l == seq!['t', 's'] {
                Some(CodeLanguage::TypeScript)
            } else if l == seq!['t', 's', 'x'] {
                Some(CodeLanguage::Tsx)
            } else if l == seq!['j', 's'] || l == seq!['j', 's', 'x'] {
                Some(CodeLanguage::JavaScript)
            } else if l == seq!['p', 'y'] {
                Some(CodeLanguage::Python)
            } else {
                None
            }
        },
        None => None,
    }
}

pub fn language_from_extension(path: &str) -> (r: Option<CodeLanguage>)
    ensures
        r == language_of(path@),
{
    let p = chars_of(path);
    let e = match crate::text::file_extension(&p) {
        Some(e) => e,
        None => return None,
    };
    let l = to_ascii_lower(&e);
    let rs = vec!['r', 's'];
    let ts = vec!['t', 's'];
    let tsx = vec!['t', 's', 'x'];
    let js = vec!['j', 's'];
    let jsx = vec!['j', 's', 'x'];
    let py = vec!['p', 'y'];
    assert(rs@ == seq!['r', 's']);
    assert(ts@ == seq!['t', 's']);
    assert(tsx@ == seq!['t', 's', 'x']);
    assert(js@ == seq!['j', 's']);
    assert(jsx@ == seq!['j', 's', 'x']);
    assert(py@ == seq!['p', 'y']);
    if chars_eq(&l, &rs) {
        Some(CodeLanguage::Rust)
    } else if chars_eq(&l, &ts) {
        Some(CodeLanguage::TypeScript)
    } else if chars_eq(&l, &tsx) {
        Some(CodeLanguage::Tsx)
    } else if chars_eq(&l, &js) || chars_eq(&l, &jsx) {
        Some(CodeLanguage::JavaScript)
    } else if chars_eq(&l, &py) {
        Some(CodeLanguage::Python)
    } else {
        None
    }
}

pub open spec fn language_label(lang: CodeLanguage) -> Seq<char> {
    match lang {
        CodeLanguage::Rust => "rust"@,
        CodeLanguage::TypeScript => "typescript"@,
        CodeLanguage::Tsx => "tsx"@,
        CodeLanguage::JavaScript => "javascript"@,
        CodeLanguage::Python => "python"@,
    }
}

pub fn language_name(lang: CodeLanguage) -> (r: &'static str)
    ensures
        r@ == language_label(lang),
{
    match lang {
        CodeLanguage::Rust => "rust",
        CodeLanguage::TypeScript => "typescript",
        CodeLanguage::Tsx => "tsx",
        CodeLanguage::JavaScript => "javascript",
        CodeLanguage::Python => "python",
    }
}

/// The views of a sequence of string slices.
pub open spec fn str_views(s: Seq<&str>) -> Seq<Seq<char>> {
    s.map_values(|x: &str| x@)
}

/// The grammar node kinds that count as symbols in each language.
pub open spec fn symbol_kinds(lang: CodeLanguage) -> Seq<Seq<char>> {
    match lang {
        CodeLanguage::Rust => seq![
            "function_item"@,
            "impl_item"@,
            "struct_item"@,
            "enum_item"@,
            "trait_item"@,
            "mod_item"@,
        ],
        CodeLanguage::TypeScript | CodeLanguage::Tsx | CodeLanguage::JavaScript => seq![
            "function_declaration"@,
            "method_definition"@,
            "class_declaration"@,
            "arrow_function"@,
        ],
        CodeLanguage::Python => seq!["function_definition"@, "class_definition"@],
    }
}

pub fn symbol_node_kinds(lang: CodeLanguage) -> (r: Vec<&'static str>)
    ensures
        str_views(r@) == symbol_kinds(lang),
{
    let r = match lang {
        CodeLanguage::Rust => vec![
            "function_item",
            "impl_item",
            "struct_item",
            "enum_item",
            "trait_item",
            "mod_item",
        ],
        CodeLanguage::TypeScript | CodeLanguage::Tsx | CodeLanguage::JavaScript => vec![
            "function_declaration",
            "method_definition",
            "class_declaration",
            "arrow_function",
        ],
        CodeLanguage::Python => vec!["function_definition", "class_definition"],
    };
    assert(str_views(r@) =~= symbol_kinds(lang));
    r
}

/// Whether `kind` is one of `kinds`.
fn kind_listed(kinds: &Vec<&'static str>, kind: &str) -> (r: bool)
    ensures
        r == str_views(kinds@).contains(kind@),
{
    let k = chars_of(kind);
    let mut i: usize = 0;
    while i < kinds.len()
        invariant
            i <= kinds@.len(),
            k@ == kind@,
            forall|j: int| 0 <= j < i ==> kinds@[j]@ != kind@,
        decreases kinds@.len() - i,
    {
        let c = chars_of(kinds[i]);
        if chars_eq(&c, &k) {
            assert(str_views(kinds@)[i as int] == kind@);
            return true;
        }
        i = i + 1;
    }
    assert forall|j: int| 0 <= j < kinds@.len() implies #[trigger] str_views(kinds@)[j] != kind@ by {
        assert(kinds@[j]@ != kind@);
    }
    false
}

/// `s` with every character that is not alphanumeric replaced by `_`.
pub open spec fn sanitized(s: Seq<char>) -> Seq<char> {
    s.map_values(|c: char| if alphanumeric(c) { c } else { '_' })
}

/// Makes a symbol name safe inside an identifier: each character that is not
/// alphanumeric becomes `_`.
pub fn sanitize_symbol_name(name: &str) -> (r: String)
    ensures
        r@ == sanitized(name@),
{
    let c = chars_of(name);
    let mut out: Vec<char> = Vec::new();
    let mut i: usize = 0;
    while i < c.len()
        invariant
            i <= c@.len(),
            c@ == name@,
            out@ == sanitized(c@.subrange(0, i as int)),
        decreases c@.len() - i,
    {
        let ch = c[i];
        if is_alphanumeric(ch) {
            out.push(ch);
        } else {
            out.push('_');
        }
        i = i + 1;
        assert(out@ =~= sanitized(c@.subrange(0, i as int)));
    }
    assert(c@.subrange(0, c@.len() as int) =~= c@);
    string_of(&out)
}

/// The text of the byte range `[start, end)` of `bytes`, decoded lossily;
/// empty when the range is empty or out of bounds.
pub open spec fn span_text(bytes: Seq<u8>, start: nat, end: nat) -> Seq<char> {
    if start >= bytes.len() || end > bytes.len() || start >= end {
        seq![]
    } else {
        utf8_text(bytes.subrange(start as int, end as int))
    }
}

/// The text of `content`'s bytes `[start, end)`; see `span_text`.
pub fn node_text(content: &str, start: usize, end: usize) -> (r: String)
    ensures
        r@ == span_text(content.spec_bytes(), start as nat, end as nat),
{
    let bytes = content.as_bytes();
    if start >= bytes.len() || end > bytes.len() || start >= end {
        return String::new();
    }
    decode_lossy(slice_range(bytes, start, end))
}

/// The first candidate span whose text is not blank, trimmed; `kind` when
/// there is none.
pub open spec fn first_named(bytes: Seq<u8>, candidates: Seq<Option<(usize, usize)>>, kind: Seq<char>) -> Seq<
    char,
>
    decreases candidates.len(),
{
    if candidates.len() == 0 {
        kind
    } else {
        match candidates[0] {
            Some(sp) if trim(span_text(bytes, sp.0 as nat, sp.1 as nat)).len() > 0 => trim(
                span_text(bytes, sp.0 as nat, sp.1 as nat),
            ),
            _ => first_named(bytes, candidates.drop_first(), kind),
        }
    }
}

/// Resolves a symbol's display name from the byte spans of its candidate
/// name nodes, in order of preference, falling back to the node kind.
pub fn resolve_symbol_name(content: &str, candidates: &Vec<Option<(usize, usize)>>, kind: &str) -> (r: String)
    ensures
        r@ == first_named(content.spec_bytes(), candidates@, kind@),
{
    let ghost bytes = content.spec_bytes();
    let mut i: usize = 0;
    assert(candidates@.subrange(0, candidates@.len() as int) =~= candidates@);
    while i < candidates.len()
        invariant
            i <= candidates@.len(),
            bytes == content.spec_bytes(),
            first_named(bytes, candidates@, kind@) == first_named(
                bytes,
                candidates@.subrange(i as int, candidates@.len() as int),
                kind@,
            ),
        decreases candidates@.len() - i,
    {
        let ghost rest = candidates@.subrange(i as int, candidates@.len() as int);
        assert(rest.drop_first() =~= candidates@.subrange(i as int + 1, candidates@.len() as int));
        assert(rest[0] == candidates@[i as int]);
        if let Some((s, e)) = candidates[i] {
            let text = node_text(content, s, e);
            let chars = chars_of(text.as_str());
            let trimmed = trim_chars(&chars);
            if trimmed.len() > 0 {
                return string_of(&trimmed);
            }
        }
        i = i + 1;
    }
    kind.to_owned()
}

pub open spec fn sorted_by_start(v: Seq<SymbolInfo>) -> bool {
    forall|i: int, j: int| 0 <= i < j < v.len() ==> v[i].start_byte <= v[j].start_byte
}

/// `x` put into `s` after every symbol that starts no later than it.
pub open spec fn insert_by_start(s: Seq<SymbolView>, x: SymbolView) -> Seq<SymbolView>
    decreases s.len(),
{
    if s.len() == 0 || s.last().2 <= x.2 {
        s.push(x)
    } else {
        insert_by_start(s.drop_last(), x).push(s.last())
    }
}

/// `s` ordered by start offset, stably: symbols that start together keep
/// their order.
pub open spec fn sort_by_start(s: Seq<SymbolView>) -> Seq<SymbolView>
    decreases s.len(),
{
    if s.len() == 0 {
        s
    } else {
        insert_by_start(sort_by_start(s.drop_last()), s.last())
    }
}

proof fn lemma_insert_by_start_multiset(s: Seq<SymbolView>, x: SymbolView)
    ensures
        insert_by_start(s, x).to_multiset() == s.to_multiset().insert(x),
    decreases s.len(),
{
    if s.len() == 0 || s.last().2 <= x.2 {
    } else {
        lemma_insert_by_start_multiset(s.drop_last(), x);
        assert(s =~= s.drop_last().push(s.last()));
        assert(s.drop_last().push(s.last()).to_multiset() == s.drop_last().to_multiset().insert(s.last()));
    }
}

/// Ordering symbols by start offset keeps exactly the same symbols.
pub proof fn lemma_sort_by_start_multiset(s: Seq<SymbolView>)
    ensures
        sort_by_start(s).to_multiset() == s.to_multiset(),
        sort_by_start(s).len() == s.len(),
    decreases s.len(),
{
    if s.len() > 0 {
        lemma_sort_by_start_multiset(s.drop_last());
        lemma_insert_by_start_multiset(sort_by_start(s.drop_last()), s.last());
        assert(s =~= s.drop_last().push(s.last()));
        assert(s.drop_last().push(s.last()).to_multiset() == s.drop_last().to_multiset().insert(s.last()));
        assert(sort_by_start(s).to_multiset().len() == s.to_multiset().len());
    }
}

proof fn lemma_insert_at(s: Seq<SymbolView>, x: SymbolView, pos: int)
    requires
        0 <= pos <= s.len(),
        forall|k: int| pos <= k < s.len() ==> s[k].2 > x.2,
        pos == 0 || s[pos - 1].2 <= x.2,
    ensures
        insert_by_start(s, x) == s.insert(pos, x),
    decreases s.len(),
{
    if pos < s.len() {
        assert(s.last().2 > x.2);
        lemma_insert_at(s.drop_last(), x, pos);
        assert(s.insert(pos, x) =~= s.drop_last().insert(pos, x).push(s.last()));
    } else {
        assert(s.insert(pos, x) =~= s.push(x));
    }
}

/// Orders symbols by start offset; symbols that start together keep their
/// order.
pub fn sort_symbols(v: Vec<SymbolInfo>) -> (r: Vec<SymbolInfo>)
    ensures
        sorted_by_start(r@),
        symbol_views(r@) == sort_by_start(symbol_views(v@)),
        r@.to_multiset() == v@.to_multiset(),
{
    let mut rest = v;
    let mut out: Vec<SymbolInfo> = Vec::new();
    let ghost orig = rest@;
    proof {
        assert(orig.subrange(0, 0) =~= Seq::<SymbolInfo>::empty());
        assert(orig.subrange(0, orig.len() as int) =~= orig);
        assert(symbol_views(out@) =~= sort_by_start(symbol_views(orig.subrange(0, 0))));
    }
    while rest.len() > 0
        invariant
            sorted_by_start(out@),
            out@.len() + rest@.len() == orig.len(),
            rest@ == orig.subrange(out@.len() as int, orig.len() as int),
            out@.to_multiset() == orig.subrange(0, out@.len() as int).to_multiset(),
            symbol_views(out@) == sort_by_start(symbol_views(orig.subrange(0, out@.len() as int))),
        decreases rest@.len(),
    {
        let ghost n = out@.len();
        let x = rest.remove(0);
        assert(x == orig[n as int]);
        assert(rest@ =~= orig.subrange(n as int + 1, orig.len() as int));
        let mut pos = out.len();
        while pos > 0 && out[pos - 1].start_byte > x.start_byte
            invariant
                pos <= out@.len(),
                forall|k: int| pos <= k < out@.len() ==> out@[k].start_byte > x.start_byte,
            decreases pos,
        {
            pos = pos - 1;
        }
        let ghost before = out@;
        out.insert(pos, x);
        proof {
            assert(out@ == before.insert(pos as int, x));
            vstd::seq_lib::to_multiset_insert(before, pos as int, x);
            assert(orig.subrange(0, n as int + 1) =~= orig.subrange(0, n as int).push(x));
            let bv = symbol_views(before);
            lemma_insert_at(bv, x@, pos as int);
            assert(symbol_views(out@) =~= bv.insert(pos as int, x@));
            let pv = symbol_views(orig.subrange(0, n as int + 1));
            assert(pv.drop_last() =~= symbol_views(orig.subrange(0, n as int)));
            assert(pv.last() == x@);
            assert forall|i: int, j: int| 0 <= i < j < out@.len() implies out@[i].start_byte
                <= out@[j].start_byte by {
                if j < pos {
                    assert(out@[i] == before[i] && out@[j] == before[j]);
                } else if j == pos {
                    assert(out@[i] == before[i]);
                    assert(before[pos - 1].start_byte <= x.start_byte);
                    assert(before[i].start_byte <= before[pos - 1].start_byte);
                } else if i < pos {
                    assert(out@[i] == before[i] && out@[j] == before[j - 1]);
                } else if i == pos {
                    assert(out@[j] == before[j - 1]);
                } else {
                    assert(out@[i] == before[i - 1] && out@[j] == before[j - 1]);
                }
            }
        }
    }
    out
}

/// A copy of a symbol record.
fn copy_symbol(s: &SymbolInfo) -> (r: SymbolInfo)
    ensures
        r == *s,
{
    SymbolInfo { name: s.name.clone(), kind: s.kind.clone(), start_byte: s.start_byte, end_byte: s.end_byte }
}

/// The text of a symbol, when its span lies in the buffer, is not empty and
/// does not decode to white space alone.
pub open spec fn symbol_text(bytes: Seq<u8>, s: SymbolView) -> Option<Seq<char>> {
    if s.3 > bytes.len() || s.2 >= s.3 {
        None
    } else {
        let t = utf8_text(bytes.subrange(s.2 as int, s.3 as int));
        if trim(t).len() == 0 {
            None
        } else {
            Some(t)
        }
    }
}

/// A symbol's text split by the sliding window when it is longer than the
/// chunk size, else whole.
pub open spec fn symbol_parts(text: Seq<char>, chunk: nat, overlap: nat) -> Seq<Seq<char>> {
    if chunk > 0 && encode_utf8(text).len() > chunk {
        chunk_texts(encode_utf8(text), chunk, overlap)
    } else {
        seq![text]
    }
}

/// The chunks of all symbols in order: (text, symbol position, part index,
/// part count).
pub open spec fn symbol_pieces(bytes: Seq<u8>, syms: Seq<SymbolView>, chunk: nat, overlap: nat) -> Seq<
    (Seq<char>, int, nat, nat),
>
    decreases syms.len(),
{
    if syms.len() == 0 {
        seq![]
    } else {
        let prev = symbol_pieces(bytes, syms.drop_last(), chunk, overlap);
        match symbol_text(bytes, syms.last()) {
            None => prev,
            Some(t) => {
                let parts = symbol_parts(t, chunk, overlap);
                prev + parts.map(
                    |i: int, p: Seq<char>| (p, syms.len() - 1, i as nat, parts.len()),
                )
            },
        }
    }
}

pub open spec fn symbol_chunks_match(
    r: Seq<SymbolChunk>,
    syms: Seq<SymbolView>,
    pieces: Seq<(Seq<char>, int, nat, nat)>,
) -> bool {
    &&& r.len() == pieces.len()
    &&& forall|i: int|
        0 <= i < r.len() ==> {
            &&& (#[trigger] r[i]).text@ == pieces[i].0
            &&& 0 <= pieces[i].1 < syms.len()
            &&& r[i].symbol@ == syms[pieces[i].1]
            &&& r[i].part_index == pieces[i].2
            &&& r[i].part_count == pieces[i].3
        }
}

proof fn lemma_match_push(
    r: Seq<SymbolChunk>,
    syms: Seq<SymbolView>,
    pieces: Seq<(Seq<char>, int, nat, nat)>,
    c: SymbolChunk,
    piece: (Seq<char>, int, nat, nat),
)
    requires
        symbol_chunks_match(r, syms, pieces),
        c.text@ == piece.0,
        0 <= piece.1 < syms.len(),
        c.symbol@ == syms[piece.1],
        c.part_index == piece.2,
        c.part_count == piece.3,
    ensures
        symbol_chunks_match(r.push(c), syms, pieces.push(piece)),
{
    let r2 = r.push(c);
    let p2 = pieces.push(piece);
    assert forall|i: int| 0 <= i < r2.len() implies {
        &&& (#[trigger] r2[i]).text@ == p2[i].0
        &&& 0 <= p2[i].1 < syms.len()
        &&& r2[i].symbol@ == syms[p2[i].1]
        &&& r2[i].part_index == p2[i].2
        &&& r2[i].part_count == p2[i].3
    } by {
        if i < r.len() {
            assert(r2[i] == r[i]);
            assert(p2[i] == pieces[i]);
        }
    }
}

/// Cuts each symbol's source into chunks: a symbol longer than `chunk_bytes`
/// is split with the sliding window into parts that share its identity;
/// symbols whose span is out of bounds, empty or blank are left out.
pub fn split_symbol_chunks(
    content: &str,
    symbols: &Vec<SymbolInfo>,
    chunk_bytes: usize,
    overlap_bytes: usize,
) -> (r: Vec<SymbolChunk>)
    requires
        chunk_bytes == 0 || overlap_bytes < chunk_bytes,
    ensures
        symbol_chunks_match(
            r@,
            symbol_views(symbols@),
            symbol_pieces(content.spec_bytes(), symbol_views(symbols@), chunk_bytes as nat, overlap_bytes as nat),
        ),
{
    let bytes = content.as_bytes();
    let ghost c = chunk_bytes as nat;
    let ghost o = overlap_bytes as nat;
    let ghost sv = symbol_views(symbols@);
    let mut out: Vec<SymbolChunk> = Vec::new();
    let mut s: usize = 0;
    while s < symbols.len()
        invariant
            chunk_bytes == 0 || overlap_bytes < chunk_bytes,
            bytes@ == content.spec_bytes(),
            c == chunk_bytes as nat,
            o == overlap_bytes as nat,
            sv == symbol_views(symbols@),
            s <= symbols@.len(),
            symbol_chunks_match(out@, sv, symbol_pieces(bytes@, sv.subrange(0, s as int), c, o)),
        decreases symbols@.len() - s,
    {
        let ghost done = symbol_pieces(bytes@, sv.subrange(0, s as int), c, o);
        let ghost prefix = sv.subrange(0, s as int + 1);
        assert(prefix.drop_last() =~= sv.subrange(0, s as int));
        assert(prefix.last() == symbols@[s as int]@);
        let sym = &symbols[s];
        if sym.end_byte > bytes.len() || sym.start_byte >= sym.end_byte {
            assert(symbol_text(bytes@, symbols@[s as int]@).is_none());
            assert(symbol_pieces(bytes@, prefix, c, o) == done);
            s = s + 1;
            continue;
        }
        let text = decode_lossy(slice_range(bytes, sym.start_byte, sym.end_byte));
        let ts = text.as_str();
        let tc = chars_of(ts);
        if blank(&tc) {
            assert(symbol_text(bytes@, symbols@[s as int]@).is_none());
            assert(symbol_pieces(bytes@, prefix, c, o) == done);
            s = s + 1;
            continue;
        }
        assert(symbol_text(bytes@, symbols@[s as int]@) == Some(text@));
        assert(ts.spec_bytes() == encode_utf8(text@));
        let tb = ts.as_bytes();
        if chunk_bytes > 0 && tb.len() > chunk_bytes {
            let parts = chunk_with_overlap(ts, chunk_bytes, overlap_bytes);
            let ghost expected = symbol_parts(text@, c, o);
            let total = parts.len();
            let mut k: usize = 0;
            while k < total
                invariant
                    total == parts@.len(),
                    expected == symbol_parts(text@, c, o),
                    expected.len() == total,
                    forall|j: int| 0 <= j < total ==> (#[trigger] parts@[j])@ == expected[j],
                    s < symbols@.len(),
                    sv == symbol_views(symbols@),
                    *sym == symbols@[s as int],
                    k <= total,
                    symbol_chunks_match(
                        out@,
                        sv,
                        done + expected.subrange(0, k as int).map(
                            |i: int, p: Seq<char>| (p, s as int, i as nat, expected.len()),
                        ),
                    ),
                decreases total - k,
            {
                let ghost before = done + expected.subrange(0, k as int).map(
                    |i: int, p: Seq<char>| (p, s as int, i as nat, expected.len()),
                );
                let ghost after = done + expected.subrange(0, k as int + 1).map(
                    |i: int, p: Seq<char>| (p, s as int, i as nat, expected.len()),
                );
                assert(after =~= before.push((expected[k as int], s as int, k as nat, expected.len())));
                out.push(
                    SymbolChunk {
                        text: parts[k].clone(),
                        symbol: copy_symbol(sym),
                        part_index: k,
                        part_count: total,
                    },
                );
                k = k + 1;
            }
            assert(expected.subrange(0, total as int) =~= expected);
            assert(prefix.len() - 1 == s);
            assert(symbol_pieces(bytes@, prefix, c, o) == done + expected.map(
                |i: int, p: Seq<char>| (p, s as int, i as nat, expected.len()),
            ));
        } else {
            assert(symbol_parts(text@, c, o) == seq![text@]);
            let ghost before_out = out@;
            let chunk = SymbolChunk { text, symbol: copy_symbol(sym), part_index: 0, part_count: 1 };
            proof {
                lemma_match_push(before_out, sv, done, chunk, (chunk.text@, s as int, 0nat, 1nat));
            }
            out.push(chunk);
            assert(seq![text@].map(|i: int, p: Seq<char>| (p, s as int, i as nat, 1nat)) =~= seq![
                (text@, s as int, 0nat, 1nat),
            ]);
            assert(prefix.len() - 1 == s);
            assert(symbol_pieces(bytes@, prefix, c, o) =~= done.push((out@.last().text@, s as int, 0nat, 1nat)));
        }
        s = s + 1;
    }
    assert(sv.subrange(0, symbols@.len() as int) =~= sv);
    out
}

/// The tree-sitter grammar for a language.
pub(crate) fn tree_sitter_language(lang: CodeLanguage) -> (r: Grammar)
    ensures
        r.lang@ == lang,
{
    match lang {
        CodeLanguage::Rust => rust_grammar(),
        CodeLanguage::TypeScript => typescript_grammar(),
        CodeLanguage::Tsx => tsx_grammar(),
        CodeLanguage::JavaScript => javascript_grammar(),
        CodeLanguage::Python => python_grammar(),
    }
}

/// The spans of the nodes that may hold the name of the node at `path`, in
/// order of preference: its fields `name`, `identifier`, `declarator` and
/// `property_identifier`, then its first named child.
pub open spec fn name_candidates(lang: CodeLanguage, text: Seq<char>, path: Seq<usize>) -> Seq<Option<(usize, usize)>> {
    seq![
        ts_field_span(lang, text, path, "name"@),
        ts_field_span(lang, text, path, "identifier"@),
        ts_field_span(lang, text, path, "declarator"@),
        ts_field_span(lang, text, path, "property_identifier"@),
        if ts_named_count(lang, text, path) > 0 {
            Some((ts_start(lang, text, path.push(0)), ts_end(lang, text, path.push(0))))
        } else {
            None
        },
    ]
}

/// The symbol record of the node at `path`: its display name (the first
/// candidate whose text is not blank, trimmed, else its kind), kind and span.
pub open spec fn symbol_at(lang: CodeLanguage, text: Seq<char>, path: Seq<usize>) -> SymbolView {
    let kind = ts_kind(lang, text, path);
    (first_named(encode_utf8(text), name_candidates(lang, text, path), kind), kind, ts_start(lang, text, path), ts_end(lang, text, path))
}

/// A node's display name; see `symbol_at`.
pub(crate) fn symbol_name(node: &SyntaxNode, content: &str) -> (r: String)
    ensures
        r@ == first_named(
            content.spec_bytes(),
            name_candidates(node.lang@, node.text@, node.path@),
            ts_kind(node.lang@, node.text@, node.path@),
        ),
{
    let mut candidates: Vec<Option<(usize, usize)>> = Vec::new();
    candidates.push(field_span(node, "name"));
    candidates.push(field_span(node, "identifier"));
    candidates.push(field_span(node, "declarator"));
    candidates.push(field_span(node, "property_identifier"));
    let first = match named_child(node, 0) {
        Some(c) => Some((node_start(&c), node_end(&c))),
        None => None,
    };
    candidates.push(first);
    assert(candidates@ =~= name_candidates(node.lang@, node.text@, node.path@));
    resolve_symbol_name(content, &candidates, node_kind(node))
}

/// The paths of the named children of the node at `path`, in order.
pub open spec fn child_paths(lang: CodeLanguage, text: Seq<char>, path: Seq<usize>) -> Seq<Seq<usize>> {
    Seq::new(ts_named_count(lang, text, path) as nat, |i: int| path.push(i as usize))
}

/// A depth-first walk that pops the last path of `stack`, keeps it when its
/// kind is a symbol kind, and pushes its named children in order; it stops
/// when the stack is empty or after `fuel` nodes.
pub open spec fn walk(lang: CodeLanguage, text: Seq<char>, stack: Seq<Seq<usize>>, fuel: nat) -> Seq<Seq<usize>>
    decreases fuel,
{
    if fuel == 0 || stack.len() == 0 {
        seq![]
    } else {
        let p = stack.last();
        let here = if symbol_kinds(lang).contains(ts_kind(lang, text, p)) {
            seq![p]
        } else {
            seq![]
        };
        here + walk(lang, text, stack.drop_last() + child_paths(lang, text, p), (fuel - 1) as nat)
    }
}

/// The paths of the symbol nodes of the tree, in the order of a depth-first
/// walk from the root over at most as many nodes as the tree has.
pub open spec fn symbol_paths(lang: CodeLanguage, text: Seq<char>) -> Seq<Seq<usize>> {
    walk(lang, text, seq![Seq::<usize>::empty()], ts_descendants(lang, text, Seq::<usize>::empty()) as nat)
}

/// The symbols of `text`, ordered by start offset; none when the parse
/// yields no tree.
pub open spec fn extracted(lang: CodeLanguage, text: Seq<char>) -> Seq<SymbolView> {
    if ts_parsed(lang, text) {
        sort_by_start(symbol_paths(lang, text).map_values(|p: Seq<usize>| symbol_at(lang, text, p)))
    } else {
        seq![]
    }
}

spec fn node_paths<'t>(s: Seq<SyntaxNode<'t>>) -> Seq<Seq<usize>> {
    s.map_values(|n: SyntaxNode<'t>| n.path@)
}

/// Parses `content` and collects, depth first, the nodes whose kind is one
/// of the language's symbol kinds, ordered by start offset.  Fails exactly
/// when the grammar cannot be loaded; a parse that yields no tree gives no
/// symbols.
pub fn extract_symbols(content: &str, lang: CodeLanguage) -> (r: Result<Vec<SymbolInfo>, CodeError>)
    ensures
        match r {
            Ok(v) => ts_grammar_loads(lang) && symbol_views(v@) == extracted(lang, content@)
                && sorted_by_start(v@),
            Err(_) => !ts_grammar_loads(lang),
        },
{
    let mut parser = new_parser();
    let grammar = tree_sitter_language(lang);
    match set_parser_language(&mut parser, &grammar) {
        Ok(()) => {},
        Err(_) => {
            return Err(CodeError::IncompatibleGrammar);
        },
    }
    let tree = match parse_text(&mut parser, content) {
        Some(t) => t,
        None => {
            return Ok(Vec::new());
        },
    };
    let ghost text = content@;
    let ghost at = |p: Seq<usize>| symbol_at(lang, text, p);
    let root = root_node(&tree);
    let kinds = symbol_node_kinds(lang);
    // A depth-first walk pops each named node of the tree once, and the tree
    // has `descendant_count` nodes in all, so the bound never cuts it short.
    let budget = descendant_count(&root);
    let mut visited: usize = 0;
    let mut stack: Vec<SyntaxNode> = Vec::new();
    stack.push(root);
    let mut symbols: Vec<SymbolInfo> = Vec::new();
    let ghost all = symbol_paths(lang, text).map_values(at);
    proof {
        assert(node_paths(stack@) =~= seq![Seq::<usize>::empty()]);
        assert(symbol_views(symbols@) =~= Seq::<SymbolView>::empty());
        assert(Seq::<SymbolView>::empty() + all =~= all);
    }
    while visited < budget && stack.len() > 0
        invariant
            visited <= budget,
            budget == ts_descendants(lang, text, Seq::<usize>::empty()),
            text == content@,
            at == (|p: Seq<usize>| symbol_at(lang, text, p)),
            all == symbol_paths(lang, text).map_values(at),
            str_views(kinds@) == symbol_kinds(lang),
            forall|k: int| 0 <= k < stack@.len() ==> (#[trigger] stack@[k]).lang@ == lang && stack@[k].text@ == text,
            symbol_views(symbols@) + walk(lang, text, node_paths(stack@), (budget - visited) as nat).map_values(at) == all,
        decreases budget - visited,
    {
        let ghost fuel = (budget - visited) as nat;
        let ghost old_paths = node_paths(stack@);
        let ghost old_views = symbol_views(symbols@);
        visited = visited + 1;
        let node = stack.pop().unwrap();
        let ghost p = node.path@;
        assert(old_paths.last() == p);
        assert(old_paths.drop_last() =~= node_paths(stack@));
        let ghost here = if symbol_kinds(lang).contains(ts_kind(lang, text, p)) {
            seq![p]
        } else {
            seq![]
        };
        let ghost next = old_paths.drop_last() + child_paths(lang, text, p);
        assert(walk(lang, text, old_paths, fuel) == here + walk(lang, text, next, (fuel - 1) as nat));
        let kind = node_kind(&node);
        if kind_listed(&kinds, kind) {
            let info = SymbolInfo {
                name: symbol_name(&node, content),
                kind: kind.to_owned(),
                start_byte: node_start(&node),
                end_byte: node_end(&node),
            };
            assert(info@ == at(p));
            symbols.push(info);
            assert(symbol_views(symbols@) =~= old_views.push(at(p)));
        } else {
            assert(symbol_views(symbols@) =~= old_views);
        }
        assert(symbol_views(symbols@) =~= old_views + here.map_values(at));
        assert((here + walk(lang, text, next, (fuel - 1) as nat)).map_values(at) =~= here.map_values(at)
            + walk(lang, text, next, (fuel - 1) as nat).map_values(at));
        let count = named_child_count(&node);
        let mut idx: usize = 0;
        let ghost base = node_paths(stack@);
        assert(base + child_paths(lang, text, p).take(0) =~= base);
        while idx < count
            invariant
                idx <= count,
                count <= u32::MAX as usize,
                count == ts_named_count(lang, text, p),
                node.lang@ == lang,
                node.text@ == text,
                node.path@ == p,
                forall|k: int| 0 <= k < stack@.len() ==> (#[trigger] stack@[k]).lang@ == lang && stack@[k].text@ == text,
                node_paths(stack@) == base + child_paths(lang, text, p).take(idx as int),
            decreases count - idx,
        {
            let child = named_child(&node, idx).unwrap();
            let ghost before = stack@;
            stack.push(child);
            assert(node_paths(stack@) =~= node_paths(before).push(p.push(idx)));
            assert(child_paths(lang, text, p).take(idx as int + 1) =~= child_paths(lang, text, p).take(idx as int).push(p.push(idx)));
            idx = idx + 1;
        }
        assert(child_paths(lang, text, p).take(count as int) =~= child_paths(lang, text, p));
        assert(node_paths(stack@) == next);
        assert((budget - visited) as nat == (fuel - 1) as nat);
        assert(old_views + (here.map_values(at) + walk(lang, text, next, (fuel - 1) as nat).map_values(at))
            =~= symbol_views(symbols@) + walk(lang, text, next, (fuel - 1) as nat).map_values(at));
    }
    assert(walk(lang, text, node_paths(stack@), (budget - visited) as nat) =~= Seq::<Seq<usize>>::empty());
    assert(symbol_views(symbols@) =~= all);
    let sorted = sort_symbols(symbols);
    Ok(sorted)
}

/// Extracts the symbols of `content` and cuts them into chunks; see
/// `split_symbol_chunks`.  Succeeds exactly when the grammar loads.
pub fn chunk_code_symbols(
    content: &str,
    chunk_bytes: usize,
    overlap_bytes: usize,
    lang: CodeLanguage,
) -> (r: Result<Vec<SymbolChunk>, CodeError>)
    requires
        chunk_bytes == 0 || overlap_bytes < chunk_bytes,
    ensures
        match r {
            Ok(v) => ts_grammar_loads(lang) && symbol_chunks_match(
                v@,
                extracted(lang, content@),
                symbol_pieces(content.spec_bytes(), extracted(lang, content@), chunk_bytes as nat, overlap_bytes as nat),
            ),
            Err(_) => !ts_grammar_loads(lang),
        },
{
    let symbols = match extract_symbols(content, lang) {
        Ok(s) => s,
        Err(e) => {
            return Err(e);
        },
    };
    let chunks = split_symbol_chunks(content, &symbols, chunk_bytes, overlap_bytes);
    Ok(chunks)
}

/// The id hint of a symbol chunk: `path#sym-NAME-START-pINDEXofCOUNT`, with
/// the symbol name sanitized.
pub open spec fn symbol_chunk_hint(path: Seq<char>, name: Seq<char>, start: nat, part: nat, count: nat) -> Seq<
    char,
> {
    path + "#sym-"@ + sanitized(name) + seq!['-'] + decimal(start) + "-p"@ + decimal(part) + "of"@
        + decimal(count)
}

/// The id hint of a symbol chunk; see `symbol_chunk_hint`.
pub fn chunk_id_hint(path: &str, chunk: &SymbolChunk) -> (r: String)
    ensures
        r@ == symbol_chunk_hint(
            path@,
            chunk.symbol.name@,
            chunk.symbol.start_byte as nat,
            chunk.part_index as nat,
            chunk.part_count as nat,
        ),
{
    let mut out = chars_of(path);
    push_chars(&mut out, &chars_of("#sym-"));
    let name = sanitize_symbol_name(chunk.symbol.name.as_str());
    push_chars(&mut out, &chars_of(name.as_str()));
    out.push('-');
    push_chars(&mut out, &decimal_chars(chunk.symbol.start_byte));
    push_chars(&mut out, &chars_of("-p"));
    push_chars(&mut out, &decimal_chars(chunk.part_index));
    push_chars(&mut out, &chars_of("of"));
    push_chars(&mut out, &decimal_chars(chunk.part_count));
    string_of(&out)
}

/// A prepared chunk for part `part` of `count` of symbol `sym`, with text
/// `text`, at position `index`.
pub open spec fn prepared_symbol_chunk(
    r: PreparedChunk,
    path: Seq<char>,
    lang: CodeLanguage,
    text: Seq<char>,
    sym: SymbolView,
    part: nat,
    count: nat,
    index: nat,
) -> bool {
    &&& r.text@ == text
    &&& r.chunk_index == index
    &&& r.chunk_id_hint.is_some()
    &&& r.chunk_id_hint.unwrap()@ == symbol_chunk_hint(path, sym.0, sym.2 as nat, part, count)
    &&& r.metadata.ingest_mode == IngestMode::Code
    &&& r.metadata.language.is_some()
    &&& r.metadata.language.unwrap()@ == language_label(lang)
    &&& r.metadata.symbol.is_some()
    &&& r.metadata.symbol.unwrap().name@ == sym.0
    &&& r.metadata.symbol.unwrap().kind@ == sym.1
    &&& r.metadata.symbol.unwrap().start_byte == sym.2
    &&& r.metadata.symbol.unwrap().end_byte == sym.3
    &&& r.metadata.symbol.unwrap().part_index == part
    &&& r.metadata.symbol.unwrap().part_count == count
    &&& r.metadata.markdown_heading.is_none()
    &&& r.metadata.data_format.is_none()
    &&& r.metadata.row_range.is_none()
    &&& r.metadata.binary_size.is_none()
    &&& r.metadata.binary_path.is_none()
}

/// Prepares symbol chunks for indexing, numbering them in order.
pub fn prepare_symbol_chunks(path: &str, lang: CodeLanguage, chunks: &Vec<SymbolChunk>) -> (r: Vec<PreparedChunk>)
    ensures
        r@.len() == chunks@.len(),
        forall|i: int|
            0 <= i < r@.len() ==> prepared_symbol_chunk(
                #[trigger] r@[i],
                path@,
                lang,
                chunks@[i].text@,
                chunks@[i].symbol@,
                chunks@[i].part_index as nat,
                chunks@[i].part_count as nat,
                i as nat,
            ),
{
    let mut out: Vec<PreparedChunk> = Vec::new();
    let mut i: usize = 0;
    while i < chunks.len()
        invariant
            i <= chunks@.len(),
            out@.len() == i,
            forall|k: int|
                0 <= k < i ==> prepared_symbol_chunk(
                    #[trigger] out@[k],
                    path@,
                    lang,
                    chunks@[k].text@,
                    chunks@[k].symbol@,
                    chunks@[k].part_index as nat,
                    chunks@[k].part_count as nat,
                    k as nat,
                ),
        decreases chunks@.len() - i,
    {
        let sc = &chunks[i];
        let hint = chunk_id_hint(path, sc);
        let mut metadata = ChunkMetadata::with_mode(IngestMode::Code);
        metadata.language = Some(language_name(lang).to_owned());
        metadata.symbol = Some(
            SymbolMeta {
                name: sc.symbol.name.clone(),
                kind: sc.symbol.kind.clone(),
                start_byte: sc.symbol.start_byte,
                end_byte: sc.symbol.end_byte,
                part_index: sc.part_index,
                part_count: sc.part_count,
            },
        );
        out.push(PreparedChunk { text: sc.text.clone(), chunk_index: i, chunk_id_hint: Some(hint), metadata });
        i = i + 1;
    }
    out
}

/// Chunks that the code handler emits when no symbol could be used: the
/// byte windows of the whole file, tagged as code in `lang`.
pub open spec fn code_fallback_match(
    r: Seq<PreparedChunk>,
    content: Seq<char>,
    chunk: nat,
    overlap: nat,
    lang: CodeLanguage,
) -> bool {
    let texts = chunk_texts(encode_utf8(content), chunk, overlap);
    &&& r.len() == texts.len()
    &&& forall|i: int|
        0 <= i < r.len() ==> {
            &&& (#[trigger] r[i]).text@ == texts[i]
            &&& r[i].chunk_index == i
            &&& r[i].chunk_id_hint.is_none()
            &&& r[i].metadata.ingest_mode == IngestMode::Code
            &&& r[i].metadata.language.is_some()
            &&& r[i].metadata.language.unwrap()@ == language_label(lang)
            &&& r[i].metadata.symbol.is_none()
            &&& r[i].metadata.markdown_heading.is_none()
            &&& r[i].metadata.data_format.is_none()
            &&& r[i].metadata.row_range.is_none()
            &&& r[i].metadata.binary_size.is_none()
            &&& r[i].metadata.binary_path.is_none()
        }
}

/// The symbol chunks of a file's content: none when the grammar cannot be
/// loaded.
pub open spec fn code_pieces(lang: CodeLanguage, content: Seq<char>, chunk: nat, overlap: nat) -> Seq<
    (Seq<char>, int, nat, nat),
> {
    if ts_grammar_loads(lang) {
        symbol_pieces(encode_utf8(content), extracted(lang, content), chunk, overlap)
    } else {
        seq![]
    }
}

/// Splits source files along the symbols that a syntax tree shows.
#[derive(Clone, Copy, Debug)]
pub struct CodeHandler {
    pub chunk_bytes: usize,
    pub overlap_bytes: usize,
}

impl CodeHandler {
    pub fn name(&self) -> (r: &'static str)
        ensures
            r@ == "code"@,
    {
        "code"
    }

    pub open spec fn accepts(self, path: Seq<char>, bytes: Seq<u8>, ctx: HandlerContext) -> bool {
        &&& ctx.admits_content(bytes)
        &&& language_of(path).is_some()
        &&& valid_utf8(bytes)
    }

    pub open spec fn valid(self) -> bool {
        self.chunk_bytes == 0 || self.overlap_bytes < self.chunk_bytes
    }

    /// What `process` returns for a file: with symbol chunks, exactly those,
    /// prepared; without, exactly the byte windows of the whole file.
    pub open spec fn output_ok(self, path: Seq<char>, bytes: Seq<u8>, r: Seq<PreparedChunk>) -> bool {
        &&& language_of(path).is_none() ==> r.len() == 0
        &&& language_of(path).is_some() ==> {
            let lang = language_of(path).unwrap();
            let content = decoded(bytes);
            let syms = extracted(lang, content);
            let pieces = code_pieces(lang, content, self.chunk_bytes as nat, self.overlap_bytes as nat);
            if pieces.len() > 0 {
                &&& r.len() == pieces.len()
                &&& forall|i: int|
                    0 <= i < r.len() ==> prepared_symbol_chunk(
                        #[trigger] r[i],
                        path,
                        lang,
                        pieces[i].0,
                        syms[pieces[i].1],
                        pieces[i].2,
                        pieces[i].3,
                        i as nat,
                    )
            } else {
                code_fallback_match(r, content, self.chunk_bytes as nat, self.overlap_bytes as nat, lang)
            }
        }
    }

    /// Accepts UTF-8 files whose extension names a known language.
    pub fn supports(&self, path: &str, bytes: &[u8], ctx: &HandlerContext) -> (r: bool)
        ensures
            r == self.accepts(path@, bytes@, *ctx),
    {
        if !admits_content(bytes, ctx) {
            return false;
        }
        if language_from_extension(path).is_none() {
            return false;
        }
        is_utf8(bytes)
    }

    /// One chunk per symbol part, each with an id hint built from the path,
    /// the symbol and its offset; when no symbol can be used, the byte
    /// windows of the whole file.  A path without a known language gives no
    /// chunks.
    pub fn process(&self, path: &str, bytes: &[u8], ctx: &HandlerContext) -> (r: Vec<PreparedChunk>)
        requires
            self.valid(),
        ensures
            self.output_ok(path@, bytes@, r@),
    {
        let lang = match language_from_extension(path) {
            Some(l) => l,
            None => {
                return Vec::new();
            },
        };
        let content = decode_lossy(bytes);
        let text = content.as_str();
        let ghost pieces = code_pieces(lang, content@, self.chunk_bytes as nat, self.overlap_bytes as nat);
        match chunk_code_symbols(text, self.chunk_bytes, self.overlap_bytes, lang) {
            Ok(chunks) => {
                if chunks.len() > 0 {
                    let r = prepare_symbol_chunks(path, lang, &chunks);
                    return r;
                }
            },
            Err(_) => {},
        }
        assert(pieces.len() == 0);
        let mut out = windowed_chunks(text, self.chunk_bytes, self.overlap_bytes, IngestMode::Code);
        let mut i: usize = 0;
        let ghost texts = chunk_texts(encode_utf8(content@), self.chunk_bytes as nat, self.overlap_bytes as nat);
        while i < out.len()
            invariant
                texts == chunk_texts(encode_utf8(content@), self.chunk_bytes as nat, self.overlap_bytes as nat),
                out@.len() == texts.len(),
                i <= out@.len(),
                forall|k: int|
                    0 <= k < out@.len() ==> (#[trigger] out@[k]).text@ == texts[k] && out@[k].chunk_index == k
                        && out@[k].chunk_id_hint.is_none() && out@[k].metadata.ingest_mode == IngestMode::Code
                        && out@[k].metadata.symbol.is_none()
                        && out@[k].metadata.markdown_heading.is_none()
                        && out@[k].metadata.data_format.is_none()
                        && out@[k].metadata.row_range.is_none()
                        && out@[k].metadata.binary_size.is_none()
                        && out@[k].metadata.binary_path.is_none(),
                forall|k: int| 0 <= k < i ==> (#[trigger] out@[k]).metadata.language.is_some()
                    && out@[k].metadata.language.unwrap()@ == language_label(lang),
            decreases out@.len() - i,
        {
            let mut chunk = out.remove(i);
            chunk.metadata.language = Some(language_name(lang).to_owned());
            out.insert(i, chunk);
            i = i + 1;
        }
        out
    }
}

} // verus!
