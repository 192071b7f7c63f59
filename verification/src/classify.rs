//! Binary classifier: decides from a byte sample whether content should be
//! treated as opaque binary data or as text.
//!
//! The rule scans at most the first [`SAMPLE_CAP`] bytes. A NUL byte anywhere
//! in the sample means binary at once; otherwise the sample is binary exactly
//! when the control bytes — anything below TAB, or strictly between CR and
//! SPACE — make up more than 30% of it. The band from TAB through CR is
//! ordinary text whitespace and never counts.

use vstd::prelude::*;

verus! {

/// How many leading bytes of a file take part in the classification.
pub const SAMPLE_CAP: usize = 8192;

/// A byte that counts toward the control-character ratio: anything below TAB,
/// or strictly between CR and SPACE.
pub open spec fn is_control_byte(b: u8) -> bool {
    b < 0x09 || (0x0D < b && b < 0x20)
}

/// Length of the classified sample: the whole input, capped at [`SAMPLE_CAP`].
pub open spec fn sample_len(b: Seq<u8>) -> int {
    if b.len() <= SAMPLE_CAP { b.len() as int } else { SAMPLE_CAP as int }
}

/// The classified sample itself.
pub open spec fn sample_of(b: Seq<u8>) -> Seq<u8> {
    b.take(sample_len(b))
}

/// Number of control bytes in a byte sequence.
pub open spec fn count_control(s: Seq<u8>) -> int
    decreases s.len(),
{
    if s.len() == 0 {
        0
    } else {
        count_control(s.drop_last()) + if is_control_byte(s.last()) {
            1int
        } else {
            0int
        }
    }
}

/// True when a byte sequence holds a NUL byte.
pub open spec fn has_nul(s: Seq<u8>) -> bool {
    exists|i: int| 0 <= i < s.len() && s[i] == 0
}

/// The classification rule: a non-empty input is binary when its sample holds
/// a NUL byte or when control bytes exceed 30% of the sample. An empty input
/// is text.
pub open spec fn classified_binary(b: Seq<u8>) -> bool {
    &&& b.len() > 0
    &&& (has_nul(sample_of(b)) || count_control(sample_of(b)) * 100 > sample_len(b) * 30)
}

proof fn lemma_count_control_bound(s: Seq<u8>)
    ensures
        0 <= count_control(s) <= s.len(),
    decreases s.len(),
{
    if s.len() > 0 {
        lemma_count_control_bound(s.drop_last());
    }
}

/// Decides whether the given bytes should be treated as binary content.
pub fn is_binary(bytes: &[u8]) -> (r: bool)
    ensures
        r == classified_binary(bytes@),
{
    let n = bytes.len();
    if n == 0 {
        return false;
    }
    let cap = if n < SAMPLE_CAP {
        n
    } else {
        SAMPLE_CAP
    };
    assert(cap == sample_len(bytes@));
    let mut control: usize = 0;
    let mut i: usize = 0;
    while i < cap
        invariant
            0 <= i <= cap,
            cap == sample_len(bytes@),
            cap <= bytes@.len(),
            cap <= SAMPLE_CAP,
            control == count_control(bytes@.take(i as int)),
            control <= i,
            forall|j: int| 0 <= j < i ==> bytes@[j] != 0,
        decreases cap - i,
    {
        let b = bytes[i];
        if b == 0 {
            assert(sample_of(bytes@)[i as int] == 0);
            return true;
        }
        proof {
            assert(bytes@.take(i + 1).drop_last() =~= bytes@.take(i as int));
            assert(bytes@.take(i + 1).last() == b);
        }
        if b < 0x09 || (b > 0x0D && b < 0x20) {
            control = control + 1;
        }
        i = i + 1;
    }
    proof {
        assert(bytes@.take(cap as int) =~= sample_of(bytes@));
        lemma_count_control_bound(sample_of(bytes@));
        assert(!has_nul(sample_of(bytes@)));
    }
    control * 100 > cap * 30
}

/// A NUL byte within the sampled prefix always classifies the input as
/// binary, whatever the rest of the bytes hold.
pub proof fn lemma_nul_is_binary(b: Seq<u8>, i: int)
    requires
        0 <= i < b.len(),
        i < SAMPLE_CAP,
        b[i] == 0,
    ensures
        classified_binary(b),
{
    assert(sample_of(b)[i] == 0);
}

} // verus!
