use vstd::prelude::*;

verus! {

/// Parts per million that stand for a ratio of one.
pub const ONE_MILLION: u32 = 1_000_000;

/// A ratio in `[0, 1]`, held as parts per million; values above one million
/// count as one.
#[derive(Clone, Copy, Debug, PartialEq, Eq)]
pub struct Threshold {
    pub per_million: u32,
}

impl Threshold {
    /// The threshold after clamping to `[0, 1]`, in parts per million.
    pub open spec fn clamped(self) -> nat {
        if self.per_million > ONE_MILLION {
            ONE_MILLION as nat
        } else {
            self.per_million as nat
        }
    }

    pub fn per_million(per_million: u32) -> (r: Threshold)
        ensures
            r.per_million == per_million,
    {
        Threshold { per_million }
    }
}

/// Tab, line feed, carriage return and printable ASCII.
pub open spec fn is_text_byte(b: u8) -> bool {
    b == 9 || b == 10 || b == 13 || (0x20 <= b && b <= 0x7e)
}

/// Number of bytes of `s` that are not text bytes.
pub open spec fn non_printable_count(s: Seq<u8>) -> nat
    decreases s.len(),
{
    if s.len() == 0 {
        0
    } else {
        non_printable_count(s.drop_last()) + if is_text_byte(s.last()) {
            0nat
        } else {
            1nat
        }
    }
}

/// Whether the classifier calls a buffer binary: a NUL byte means binary; an empty buffer is not
/// binary; otherwise binary iff the ratio of non-printable bytes reaches the
/// clamped threshold.
pub open spec fn classify_binary(s: Seq<u8>, t: Threshold) -> bool {
    if s.contains(0u8) {
        true
    } else if s.len() == 0 {
        false
    } else {
        non_printable_count(s) * (ONE_MILLION as nat) >= t.clamped() * s.len()
    }
}

proof fn lemma_non_printable_bounded(s: Seq<u8>)
    ensures
        non_printable_count(s) <= s.len(),
    decreases s.len(),
{
    if s.len() > 0 {
        lemma_non_printable_bounded(s.drop_last());
    }
}

/// The threshold that the classifier uses by default: 0.33.
pub fn default_threshold() -> (r: Threshold)
    ensures
        r.per_million == 330_000,
{
    Threshold { per_million: 330_000 }
}

/// Classifies `bytes` with the default threshold of 0.33.
pub fn is_probably_binary(bytes: &[u8]) -> (r: bool)
    ensures
        r == classify_binary(bytes@, Threshold { per_million: 330_000 }),
{
    is_probably_binary_with_threshold(bytes, default_threshold())
}

/// Coarse binary detection: any NUL byte means binary; otherwise the share of
/// bytes outside tab, CR, LF and printable ASCII is compared with `threshold`.
pub fn is_probably_binary_with_threshold(bytes: &[u8], threshold: Threshold) -> (r: bool)
    ensures
        r == classify_binary(bytes@, threshold),
        bytes@.contains(0u8) ==> r,
        !bytes@.contains(0u8) && bytes@.len() > 0 ==> (r <==> non_printable_count(bytes@)
            * (ONE_MILLION as nat) >= threshold.clamped() * bytes@.len()),
        bytes@.len() == 0 ==> !r,
{
    let n = bytes.len();
    let mut i: usize = 0;
    let mut non_printable: usize = 0;
    let mut has_nul = false;
    while i < n
        invariant
            n == bytes@.len(),
            i <= n,
            non_printable == non_printable_count(bytes@.subrange(0, i as int)),
            non_printable <= i,
            has_nul == bytes@.subrange(0, i as int).contains(0u8),
        decreases n - i,
    {
        let b = bytes[i];
        proof {
            let pre = bytes@.subrange(0, i as int);
            let post = bytes@.subrange(0, i as int + 1);
            assert(post.drop_last() =~= pre);
            assert(post.last() == b);
            if post.contains(0u8) {
                let k = choose|k: int| 0 <= k < post.len() && post[k] == 0u8;
                if k < i {
                    assert(pre[k] == 0u8);
                }
            }
            if pre.contains(0u8) {
                let k = choose|k: int| 0 <= k < pre.len() && pre[k] == 0u8;
                assert(post[k] == 0u8);
            }
            if b == 0 {
                assert(post[i as int] == 0u8);
            }
        }
        if b == 0 {
            has_nul = true;
        }
        if !(b == 9 || b == 10 || b == 13 || (0x20 <= b && b <= 0x7e)) {
            non_printable = non_printable + 1;
        }
        i = i + 1;
    }
    assert(bytes@.subrange(0, n as int) =~= bytes@);
    if has_nul {
        return true;
    }
    if n == 0 {
        return false;
    }
    let t: u32 = if threshold.per_million > ONE_MILLION {
        ONE_MILLION
    } else {
        threshold.per_million
    };
    assert((t as u128) * (n as u128) <= 1_000_000u128 * 0x1_0000_0000_0000_0000u128) by (nonlinear_arith)
        requires
            t <= 1_000_000,
            n < 0x1_0000_0000_0000_0000u128,
    ;
    assert((non_printable as u128) * 1_000_000u128 <= 1_000_000u128 * 0x1_0000_0000_0000_0000u128)
        by (nonlinear_arith)
        requires
            non_printable < 0x1_0000_0000_0000_0000u128,
    ;
    let lhs: u128 = (non_printable as u128) * (ONE_MILLION as u128);
    let rhs: u128 = (t as u128) * (n as u128);
    lhs >= rhs
}

} // verus!
