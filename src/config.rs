//! Connection settings read from environment variables.  The caller hands
//! over the environment as (name, value) pairs; a name that occurs twice
//! counts with its first value.

use vstd::prelude::*;

use crate::code::str_views;
use crate::text::{chars_eq, chars_of};

verus! {

/// The value of the first pair named `key`.
pub open spec fn env_value(vars: Seq<(String, String)>, key: Seq<char>, from: int) -> Option<Seq<char>>
    decreases vars.len() - from,
{
    if from < 0 || from >= vars.len() {
        None
    } else if vars[from].0@ == key {
        Some(vars[from].1@)
    } else {
        env_value(vars, key, from + 1)
    }
}

/// The value of the first of `names` that is set.
pub open spec fn first_set(vars: Seq<(String, String)>, names: Seq<Seq<char>>) -> Option<Seq<char>>
    decreases names.len(),
{
    if names.len() == 0 {
        None
    } else {
        match env_value(vars, names[0], 0) {
            Some(v) => Some(v),
            None => first_set(vars, names.drop_first()),
        }
    }
}

fn lookup(vars: &Vec<(String, String)>, key: &str) -> (r: Option<String>)
    ensures
        match r {
            Some(v) => env_value(vars@, key@, 0) == Some(v@),
            None => env_value(vars@, key@, 0).is_none(),
        },
{
    let k = chars_of(key);
    let mut i: usize = 0;
    while i < vars.len()
        invariant
            i <= vars@.len(),
            k@ == key@,
            env_value(vars@, key@, 0) == env_value(vars@, key@, i as int),
        decreases vars@.len() - i,
    {
        let n = chars_of(vars[i].0.as_str());
        if chars_eq(&n, &k) {
            return Some(vars[i].1.clone());
        }
        i = i + 1;
    }
    None
}

/// The value of the first of `names` that `vars` sets.
pub fn read_env(vars: &Vec<(String, String)>, names: &Vec<&'static str>) -> (r: Option<String>)
    ensures
        match r {
            Some(v) => first_set(vars@, str_views(names@)) == Some(v@),
            None => first_set(vars@, str_views(names@)).is_none(),
        },
{
    let mut i: usize = 0;
    assert(str_views(names@).subrange(0, names@.len() as int) =~= str_views(names@));
    while i < names.len()
        invariant
            i <= names@.len(),
            first_set(vars@, str_views(names@)) == first_set(vars@, str_views(names@).subrange(i as int, names@.len() as int)),
        decreases names@.len() - i,
    {
        let ghost rest = str_views(names@).subrange(i as int, names@.len() as int);
        assert(rest.drop_first() =~= str_views(names@).subrange(i as int + 1, names@.len() as int));
        assert(rest[0] == names@[i as int]@);
        match lookup(vars, names[i]) {
            Some(v) => {
                return Some(v);
            },
            None => {},
        }
        i = i + 1;
    }
    None
}

pub open spec fn is_digit(c: char) -> bool {
    '0' <= c && c <= '9'
}

/// The value of a numeral: an optional `+` and one or more ASCII digits.
pub open spec fn digits_value(s: Seq<char>) -> nat
    decreases s.len(),
{
    if s.len() == 0 {
        0
    } else {
        digits_value(s.drop_last()) * 10 + ((s.last() as u32) - 48) as nat
    }
}

pub open spec fn all_digits(s: Seq<char>) -> bool {
    forall|i: int| 0 <= i < s.len() ==> is_digit(#[trigger] s[i])
}

/// The number an unsigned decimal numeral denotes, if it is one: an
/// optional `+` followed by at least one ASCII digit, and nothing else.
pub open spec fn numeral_value(s: Seq<char>) -> Option<nat> {
    let d = if s.len() > 0 && s[0] == '+' {
        s.drop_first()
    } else {
        s
    };
    if d.len() > 0 && all_digits(d) {
        Some(digits_value(d))
    } else {
        None
    }
}

/// Reads an unsigned decimal numeral that fits in 64 bits.
pub fn parse_u64(s: &str) -> (r: Option<u64>)
    ensures
        match r {
            Some(v) => numeral_value(s@) == Some(v as nat),
            None => numeral_value(s@).is_none() || numeral_value(s@).unwrap() > u64::MAX,
        },
{
    let c = chars_of(s);
    let start: usize = if c.len() > 0 && c[0] == '+' {
        1
    } else {
        0
    };
    let ghost d = c@.subrange(start as int, c@.len() as int);
    assert(d =~= if c@.len() > 0 && c@[0] == '+' { c@.drop_first() } else { c@ });
    if start >= c.len() {
        assert(d.len() == 0);
        return None;
    }
    let mut value: u64 = 0;
    let mut i = start;
    while i < c.len()
        invariant
            start <= i <= c@.len(),
            c@ == s@,
            d == c@.subrange(start as int, c@.len() as int),
            d == (if s@.len() > 0 && s@[0] == '+' { s@.drop_first() } else { s@ }),
            d.len() > 0,
            all_digits(c@.subrange(start as int, i as int)),
            value as nat == digits_value(c@.subrange(start as int, i as int)),
        decreases c@.len() - i,
    {
        let ch = c[i];
        assert(c@.subrange(start as int, i as int + 1).drop_last() =~= c@.subrange(start as int, i as int));
        if !('0' <= ch && ch <= '9') {
            assert(!all_digits(d)) by {
                assert(d[i - start] == ch);
            }
            return None;
        }
        let digit = (ch as u32 - 48) as u64;
        if value > (u64::MAX - digit) / 10 {
            proof {
                lemma_digits_grow(c@.subrange(start as int, c@.len() as int), (i - start) as int);
                assert(c@.subrange(start as int, c@.len() as int).subrange(0, i - start + 1) =~= c@.subrange(
                    start as int,
                    i as int + 1,
                ));
                assert(digits_value(c@.subrange(start as int, i as int + 1)) == value * 10 + digit);
                assert(value * 10 + digit > u64::MAX) by (nonlinear_arith)
                    requires
                        value > (u64::MAX - digit) / 10,
                        digit <= 9,
                ;
            }
            assert(all_digits(d) ==> numeral_value(s@).unwrap() > u64::MAX) by {
                if all_digits(d) {
                    assert(numeral_value(s@) == Some(digits_value(d)));
                    lemma_digits_monotone(d, (i - start + 1) as int);
                    assert(d.subrange(0, i - start + 1) =~= c@.subrange(start as int, i as int + 1));
                    assert(digits_value(d) >= digits_value(c@.subrange(start as int, i as int + 1)));
                }
            }
            return None;
        }
        assert(value * 10 + digit <= u64::MAX) by (nonlinear_arith)
            requires
                value <= (u64::MAX - digit) / 10,
                digit <= 9,
        ;
        value = value * 10 + digit;
        i = i + 1;
        assert(all_digits(c@.subrange(start as int, i as int))) by {
            assert forall|k: int| 0 <= k < i - start implies is_digit(#[trigger] c@.subrange(start as int, i as int)[k]) by {
                if k < i - start - 1 {
                    assert(c@.subrange(start as int, i as int)[k] == c@.subrange(start as int, i as int - 1)[k]);
                }
            }
        }
    }
    Some(value)
}

proof fn lemma_digits_grow(s: Seq<char>, k: int)
    requires
        0 <= k < s.len(),
    ensures
        digits_value(s.subrange(0, k + 1)) == digits_value(s.subrange(0, k)) * 10 + ((s[k] as u32) - 48) as nat,
{
    assert(s.subrange(0, k + 1).drop_last() =~= s.subrange(0, k));
}

proof fn lemma_digits_monotone(s: Seq<char>, k: int)
    requires
        0 <= k <= s.len(),
        all_digits(s),
    ensures
        digits_value(s) >= digits_value(s.subrange(0, k)),
    decreases s.len() - k,
{
    if k < s.len() {
        lemma_digits_monotone(s, k + 1);
        lemma_digits_grow(s, k);
        assert(is_digit(s[k]));
    } else {
        assert(s.subrange(0, k) =~= s);
    }
}

/// Settings of the embeddings service.
#[derive(Clone, Debug)]
pub struct RagConfig {
    pub embedding_api_key: String,
    pub embedding_base_url: Option<String>,
    pub embedding_model: String,
    pub vector_dim: usize,
}

impl RagConfig {
    pub open spec fn key_names() -> Seq<Seq<char>> {
        seq!["RAG_EMBEDDING_API_KEY"@, "AIE_RAG_EMBEDDING_API_KEY"@, "OPENAI_API_KEY"@, "AIE_OPENAI_API_KEY"@]
    }

    pub open spec fn base_url_names() -> Seq<Seq<char>> {
        seq!["RAG_EMBEDDING_BASE_URL"@, "AIE_RAG_EMBEDDING_BASE_URL"@, "OPENAI_BASE_URL"@, "AIE_OPENAI_BASE_URL"@]
    }

    pub open spec fn model_names() -> Seq<Seq<char>> {
        seq!["RAG_EMBEDDING_MODEL"@, "AIE_RAG_EMBEDDING_MODEL"@]
    }

    pub open spec fn dim_names() -> Seq<Seq<char>> {
        seq!["RAG_VECTOR_DIM"@, "AIE_RAG_VECTOR_DIM"@]
    }

    /// The settings that `vars` give: each from the first of its variable
    /// names that is set, else its default (key `sk-local`, model `bge-m3`,
    /// 1024 dimensions, base URL `http://127.0.0.1:9000/v1`); a dimension
    /// that is not a numeral, or too large for `usize`, counts as unset.
    pub fn from_env(vars: &Vec<(String, String)>) -> (r: RagConfig)
        ensures
            r.embedding_api_key@ == match first_set(vars@, Self::key_names()) {
                Some(v) => v,
                None => "sk-local"@,
            },
            r.embedding_model@ == match first_set(vars@, Self::model_names()) {
                Some(v) => v,
                None => "bge-m3"@,
            },
            r.embedding_base_url.is_some(),
            r.embedding_base_url.unwrap()@ == match first_set(vars@, Self::base_url_names()) {
                Some(v) => v,
                None => "http://127.0.0.1:9000/v1"@,
            },
            match first_set(vars@, Self::dim_names()) {
                Some(v) => match numeral_value(v) {
                    Some(n) => if n <= usize::MAX {
                        r.vector_dim as nat == n
                    } else {
                        r.vector_dim == 1024
                    },
                    None => r.vector_dim == 1024,
                },
                None => r.vector_dim == 1024,
            },
    {
        let key_names = vec!["RAG_EMBEDDING_API_KEY", "AIE_RAG_EMBEDDING_API_KEY", "OPENAI_API_KEY", "AIE_OPENAI_API_KEY"];
        let base_names = vec!["RAG_EMBEDDING_BASE_URL", "AIE_RAG_EMBEDDING_BASE_URL", "OPENAI_BASE_URL", "AIE_OPENAI_BASE_URL"];
        let model_names = vec!["RAG_EMBEDDING_MODEL", "AIE_RAG_EMBEDDING_MODEL"];
        let dim_names = vec!["RAG_VECTOR_DIM", "AIE_RAG_VECTOR_DIM"];
        assert(str_views(key_names@) =~= Self::key_names());
        assert(str_views(base_names@) =~= Self::base_url_names());
        assert(str_views(model_names@) =~= Self::model_names());
        assert(str_views(dim_names@) =~= Self::dim_names());
        let embedding_api_key = match read_env(vars, &key_names) {
            Some(v) => v,
            None => "sk-local".to_owned(),
        };
        let embedding_model = match read_env(vars, &model_names) {
            Some(v) => v,
            None => "bge-m3".to_owned(),
        };
        let vector_dim: usize = match read_env(vars, &dim_names) {
            Some(v) => match parse_u64(v.as_str()) {
                Some(n) => if n as u128 <= usize::MAX as u128 {
                    n as usize
                } else {
                    1024
                },
                None => 1024,
            },
            None => 1024,
        };
        let embedding_base_url = match read_env(vars, &base_names) {
            Some(v) => Some(v),
            None => Some("http://127.0.0.1:9000/v1".to_owned()),
        };
        RagConfig { embedding_api_key, embedding_base_url, embedding_model, vector_dim }
    }
}

/// Settings of the graph store.
#[derive(Clone, Debug)]
pub struct HelixConfig {
    pub base_url: String,
    pub api_token: Option<String>,
    pub namespace: String,
    pub http_timeout_ms: u64,
}

impl HelixConfig {
    pub open spec fn base_url_names() -> Seq<Seq<char>> {
        seq!["HELIX_BASE_URL"@, "AIE_HELIX_BASE_URL"@]
    }

    pub open spec fn token_names() -> Seq<Seq<char>> {
        seq!["HELIX_API_TOKEN"@, "AIE_HELIX_API_TOKEN"@]
    }

    pub open spec fn namespace_names() -> Seq<Seq<char>> {
        seq!["HELIX_GRAPH_NAMESPACE"@, "HELIX_NAMESPACE"@, "AIE_HELIX_GRAPH_NAMESPACE"@]
    }

    pub open spec fn timeout_names() -> Seq<Seq<char>> {
        seq!["HELIX_HTTP_TIMEOUT_MS"@, "AIE_HELIX_HTTP_TIMEOUT_MS"@]
    }

    /// The settings that `vars` give: each from the first of its variable
    /// names that is set, else its default (base URL
    /// `http://127.0.0.1:6969`, namespace `vidkosha_cortex`, a timeout of
    /// 10000 ms, no token); a timeout that is not a 64-bit numeral counts as
    /// unset.
    pub fn from_env(vars: &Vec<(String, String)>) -> (r: HelixConfig)
        ensures
            r.base_url@ == match first_set(vars@, Self::base_url_names()) {
                Some(v) => v,
                None => "http://127.0.0.1:6969"@,
            },
            r.namespace@ == match first_set(vars@, Self::namespace_names()) {
                Some(v) => v,
                None => "vidkosha_cortex"@,
            },
            match first_set(vars@, Self::token_names()) {
                Some(v) => r.api_token.is_some() && r.api_token.unwrap()@ == v,
                None => r.api_token.is_none(),
            },
            match first_set(vars@, Self::timeout_names()) {
                Some(v) => match numeral_value(v) {
                    Some(n) => if n <= u64::MAX {
                        r.http_timeout_ms as nat == n
                    } else {
                        r.http_timeout_ms == 10_000
                    },
                    None => r.http_timeout_ms == 10_000,
                },
                None => r.http_timeout_ms == 10_000,
            },
    {
        let base_names = vec!["HELIX_BASE_URL", "AIE_HELIX_BASE_URL"];
        let token_names = vec!["HELIX_API_TOKEN", "AIE_HELIX_API_TOKEN"];
        let namespace_names = vec!["HELIX_GRAPH_NAMESPACE", "HELIX_NAMESPACE", "AIE_HELIX_GRAPH_NAMESPACE"];
        let timeout_names = vec!["HELIX_HTTP_TIMEOUT_MS", "AIE_HELIX_HTTP_TIMEOUT_MS"];
        assert(str_views(base_names@) =~= Self::base_url_names());
        assert(str_views(token_names@) =~= Self::token_names());
        assert(str_views(namespace_names@) =~= Self::namespace_names());
        assert(str_views(timeout_names@) =~= Self::timeout_names());
        let base_url = match read_env(vars, &base_names) {
            Some(v) => v,
            None => "http://127.0.0.1:6969".to_owned(),
        };
        let namespace = match read_env(vars, &namespace_names) {
            Some(v) => v,
            None => "vidkosha_cortex".to_owned(),
        };
        let http_timeout_ms: u64 = match read_env(vars, &timeout_names) {
            Some(v) => match parse_u64(v.as_str()) {
                Some(n) => n,
                None => 10_000,
            },
            None => 10_000,
        };
        HelixConfig { base_url, api_token: read_env(vars, &token_names), namespace, http_timeout_ms }
    }
}

} // verus!
