//! Encoding resolver: recovers Unicode text from raw bytes through an ordered
//! fallback chain, stopping at the first strategy that decodes without error.
//!
//! The chain, in order: strict UTF-8; a byte-order-mark probe that strips the
//! BOM and decodes the remainder with the encoding it signals; a UTF-16LE
//! attempt on the whole input (BOM-less UTF-16LE files are common); and last,
//! statistical charset detection followed by a decode with the single best
//! guess. Every step is all-or-nothing: a decode that reports any error
//! produces no output and the chain falls through. When every step fails the
//! outcome is `Unreadable` with a fixed reason.

use vstd::prelude::*;
use vstd::slice::slice_subrange;
use vstd::utf8::{decode_utf8, valid_utf8};

use crate::classify::classified_binary;
use crate::utf16::{
    encode_units, le_bytes_of, utf16be_chars, utf16be_ok, utf16le_chars, utf16le_ok,
};

verus! {

/// The outcome of processing one file's bytes: recovered text, an opaque
/// binary marker, or a failure with a human-readable reason.
pub enum DecodedContent {
    Text(String),
    Binary,
    Unreadable(String),
}

/// The three byte-order marks the resolver recognizes.
#[derive(Clone, Copy, PartialEq, Eq, Structural, Debug)]
pub enum BomKind {
    Utf8,
    Utf16Le,
    Utf16Be,
}

/// How many bytes the given byte-order mark occupies.
pub open spec fn bom_length(k: BomKind) -> int {
    match k {
        BomKind::Utf8 => 3,
        BomKind::Utf16Le => 2,
        BomKind::Utf16Be => 2,
    }
}

/// The byte-order mark at the head of the input, if any.
pub open spec fn spec_bom(b: Seq<u8>) -> Option<BomKind> {
    if b.len() >= 3 && b[0] == 0xEF && b[1] == 0xBB && b[2] == 0xBF {
        Some(BomKind::Utf8)
    } else if b.len() >= 2 && b[0] == 0xFF && b[1] == 0xFE {
        Some(BomKind::Utf16Le)
    } else if b.len() >= 2 && b[0] == 0xFE && b[1] == 0xFF {
        Some(BomKind::Utf16Be)
    } else {
        None
    }
}

/// What statistical charset detection followed by a decode with the detected
/// encoding yields: the decoded characters, or nothing when that decode
/// reports any error. Detection and decode are both deterministic, so the
/// result is a function of the bytes alone.
pub uninterp spec fn detected_decoding(b: Seq<u8>) -> Option<Seq<char>>;

/// The BOM-probe step: strip the mark, then decode the remainder strictly
/// with the encoding the mark signals.
pub open spec fn bom_decoding(b: Seq<u8>) -> Option<Seq<char>> {
    match spec_bom(b) {
        Some(BomKind::Utf8) => if valid_utf8(b.skip(3)) {
            Some(decode_utf8(b.skip(3)))
        } else {
            None
        },
        Some(BomKind::Utf16Le) => if utf16le_ok(b.skip(2)) {
            Some(utf16le_chars(b.skip(2)))
        } else {
            None
        },
        Some(BomKind::Utf16Be) => if utf16be_ok(b.skip(2)) {
            Some(utf16be_chars(b.skip(2)))
        } else {
            None
        },
        None => None,
    }
}

/// The whole fallback chain: the text the resolver recovers, or nothing when
/// every strategy fails.
pub open spec fn resolved_text(b: Seq<u8>) -> Option<Seq<char>> {
    if valid_utf8(b) {
        Some(decode_utf8(b))
    } else if bom_decoding(b) is Some {
        bom_decoding(b)
    } else if utf16le_ok(b) {
        Some(utf16le_chars(b))
    } else {
        detected_decoding(b)
    }
}

/// The reason attached to an `Unreadable` outcome of the chain.
pub open spec fn undecodable_reason() -> Seq<char> {
    "could not decode as UTF-8, UTF-16LE, or detected encoding."@
}

/// Relies on `core::str::from_utf8`: it returns `Ok` exactly when the bytes
/// are valid UTF-8, and the resulting string slice is backed by those same
/// bytes, so its characters are their UTF-8 decoding.
#[verifier::external_body]
fn try_utf8(bytes: &[u8]) -> (r: Option<String>)
    ensures
        r is Some <==> valid_utf8(bytes@),
        r matches Some(t) ==> t@ == decode_utf8(bytes@),
{
    match core::str::from_utf8(bytes) {
        Ok(s) => Some(s.to_owned()),
        Err(_) => None,
    }
}

/// Relies on `encoding_rs::UTF_16LE.decode_without_bom_handling`: it decodes
/// the whole buffer as UTF-16LE, and its flag reports a malformed sequence
/// exactly when the length is odd or the surrogates do not pair up; on clean
/// input the output is the units' characters, pairs combined. Its buffer
/// size arithmetic can overflow `usize` on absurdly long inputs, which the
/// length bound rules out.
#[verifier::external_body]
fn utf16le_raw(bytes: &[u8]) -> (r: (String, bool))
    requires
        bytes@.len() <= usize::MAX as int / 16,
    ensures
        r.1 <==> !utf16le_ok(bytes@),
        utf16le_ok(bytes@) ==> r.0@ == utf16le_chars(bytes@),
{
    let (text, had_errors) = encoding_rs::UTF_16LE.decode_without_bom_handling(bytes);
    (text.into_owned(), had_errors)
}

/// Relies on `encoding_rs::UTF_16BE.decode_without_bom_handling`, on the same
/// terms as [`utf16le_raw`].
#[verifier::external_body]
fn utf16be_raw(bytes: &[u8]) -> (r: (String, bool))
    requires
        bytes@.len() <= usize::MAX as int / 16,
    ensures
        r.1 <==> !utf16be_ok(bytes@),
        utf16be_ok(bytes@) ==> r.0@ == utf16be_chars(bytes@),
{
    let (text, had_errors) = encoding_rs::UTF_16BE.decode_without_bom_handling(bytes);
    (text.into_owned(), had_errors)
}

/// Relies on `chardetng::EncodingDetector` (`new`, `feed`, `guess`) and
/// `encoding_rs::Encoding::decode`: feeding the whole buffer once and asking
/// for the single best guess is a deterministic scoring pass over the bytes,
/// and the decode with the guessed encoding — which itself re-sniffs a
/// leading byte-order mark, honoring it over the guess — is deterministic
/// too, so together they are a function of the bytes alone. `feed` is called
/// once on a fresh detector and `guess` gets no top-level-domain hint, which
/// keeps both away from their panic conditions; the length bound rules out
/// buffer size overflow in the decode.
#[verifier::external_body]
fn detect_and_decode(bytes: &[u8]) -> (r: (String, bool))
    requires
        bytes@.len() <= usize::MAX as int / 16,
    ensures
        r.1 <==> detected_decoding(bytes@) is None,
        detected_decoding(bytes@) matches Some(s) ==> r.0@ == s,
{
    let mut detector = chardetng::EncodingDetector::new();
    detector.feed(bytes, true);
    let encoding = detector.guess(None, true);
    let (text, _, had_errors) = encoding.decode(bytes);
    (text.into_owned(), had_errors)
}

/// The byte-order mark at the head of the input, if any.
pub fn detect_bom(bytes: &[u8]) -> (r: Option<BomKind>)
    ensures
        r == spec_bom(bytes@),
{
    let n = bytes.len();
    if n >= 3 && bytes[0] == 0xEF && bytes[1] == 0xBB && bytes[2] == 0xBF {
        Some(BomKind::Utf8)
    } else if n >= 2 && bytes[0] == 0xFF && bytes[1] == 0xFE {
        Some(BomKind::Utf16Le)
    } else if n >= 2 && bytes[0] == 0xFE && bytes[1] == 0xFF {
        Some(BomKind::Utf16Be)
    } else {
        None
    }
}

/// Runs the fallback chain on bytes already taken to be text. Returns the
/// recovered text, or `Unreadable` with a fixed reason when every strategy
/// fails. The length bound is a machine limit of the decoders.
pub fn resolve(bytes: &[u8]) -> (r: DecodedContent)
    requires
        bytes@.len() <= usize::MAX as int / 16,
    ensures
        match resolved_text(bytes@) {
            Some(s) => r matches DecodedContent::Text(t) && t@ == s,
            None => r matches DecodedContent::Unreadable(m) && m@ == undecodable_reason(),
        },
{
    match try_utf8(bytes) {
        Some(t) => {
            return DecodedContent::Text(t);
        },
        None => {},
    }
    match detect_bom(bytes) {
        Some(k) => {
            let blen: usize = match k {
                BomKind::Utf8 => 3,
                BomKind::Utf16Le => 2,
                BomKind::Utf16Be => 2,
            };
            let rest = slice_subrange(bytes, blen, bytes.len());
            proof {
                assert(rest@ =~= bytes@.skip(bom_length(k)));
            }
            match k {
                BomKind::Utf8 => {
                    match try_utf8(rest) {
                        Some(t) => {
                            return DecodedContent::Text(t);
                        },
                        None => {},
                    }
                },
                BomKind::Utf16Le => {
                    let (t, had_errors) = utf16le_raw(rest);
                    if !had_errors {
                        return DecodedContent::Text(t);
                    }
                },
                BomKind::Utf16Be => {
                    let (t, had_errors) = utf16be_raw(rest);
                    if !had_errors {
                        return DecodedContent::Text(t);
                    }
                },
            }
        },
        None => {},
    }
    let (t, had_errors) = utf16le_raw(bytes);
    if !had_errors {
        return DecodedContent::Text(t);
    }
    let (t, had_errors) = detect_and_decode(bytes);
    if !had_errors {
        return DecodedContent::Text(t);
    }
    DecodedContent::Unreadable(
        String::from_str("could not decode as UTF-8, UTF-16LE, or detected encoding."),
    )
}

/// What the classifier and resolver together owe for one file's bytes:
/// binary content gets the opaque marker, text content gets the chain's
/// outcome.
pub open spec fn outcome_for(b: Seq<u8>, r: DecodedContent) -> bool {
    if classified_binary(b) {
        r is Binary
    } else {
        match resolved_text(b) {
            Some(s) => r matches DecodedContent::Text(t) && t@ == s,
            None => r matches DecodedContent::Unreadable(m) && m@ == undecodable_reason(),
        }
    }
}

/// True when two content outcomes read the same.
pub open spec fn content_eq(a: DecodedContent, b: DecodedContent) -> bool {
    match (a, b) {
        (DecodedContent::Text(x), DecodedContent::Text(y)) => x@ == y@,
        (DecodedContent::Binary, DecodedContent::Binary) => true,
        (DecodedContent::Unreadable(x), DecodedContent::Unreadable(y)) => x@ == y@,
        _ => false,
    }
}

/// The per-file pipeline is a function of the file's bytes: any two outcomes
/// that meet its contract for the same bytes read the same.
pub proof fn lemma_outcome_deterministic(b: Seq<u8>, r1: DecodedContent, r2: DecodedContent)
    requires
        outcome_for(b, r1),
        outcome_for(b, r2),
    ensures
        content_eq(r1, r2),
{
}

/// The combined per-file pipeline: classify, then resolve. The length bound
/// is a machine limit of the decoders.
pub fn decode_bytes(bytes: &[u8]) -> (r: DecodedContent)
    requires
        bytes@.len() <= usize::MAX as int / 16,
    ensures
        outcome_for(bytes@, r),
{
    if crate::classify::is_binary(bytes) {
        return DecodedContent::Binary;
    }
    resolve(bytes)
}

/// Valid UTF-8 input is always resolved by the first strategy: the outcome is
/// exactly its strict UTF-8 decoding, and when its control characters are
/// within the classifier's bound the combined pipeline returns that text.
pub proof fn lemma_utf8_resolution(b: Seq<u8>)
    requires
        valid_utf8(b),
    ensures
        resolved_text(b) == Some(decode_utf8(b)),
{
}

/// Valid UTF-8 input whose control characters stay within the classifier's
/// bound passes the combined pipeline as text, and the outcome is exactly its
/// strict UTF-8 decoding.
pub proof fn lemma_utf8_pipeline(b: Seq<u8>, r: DecodedContent)
    requires
        valid_utf8(b),
        !classified_binary(b),
        outcome_for(b, r),
    ensures
        r matches DecodedContent::Text(t) && t@ == decode_utf8(b),
{
}

/// Bytes with a NUL in the sampled prefix always come out of the combined
/// pipeline as the opaque binary marker.
pub proof fn lemma_nul_pipeline(b: Seq<u8>, i: int, r: DecodedContent)
    requires
        0 <= i < b.len(),
        i < crate::classify::SAMPLE_CAP,
        b[i] == 0,
        outcome_for(b, r),
    ensures
        r is Binary,
{
    crate::classify::lemma_nul_is_binary(b, i);
}

/// BOM-less input that is not valid UTF-8 but is well-formed UTF-16LE is
/// resolved to exactly its UTF-16LE decoding, and re-encoding that text as
/// UTF-16LE reproduces the original bytes.
pub proof fn lemma_utf16le_resolution(b: Seq<u8>)
    requires
        !valid_utf8(b),
        spec_bom(b) is None,
        utf16le_ok(b),
    ensures
        resolved_text(b) == Some(utf16le_chars(b)),
        le_bytes_of(encode_units(utf16le_chars(b))) == b,
{
    crate::utf16::lemma_utf16le_round_trip(b);
}

/// Input that carries the UTF-16LE byte-order mark and whose remainder is
/// well-formed UTF-16LE is resolved to the decoding of the bytes after the
/// mark, and re-encoding that text as UTF-16LE reproduces the original
/// bytes minus the mark.
pub proof fn lemma_utf16le_bom_resolution(b: Seq<u8>)
    requires
        !valid_utf8(b),
        spec_bom(b) == Some(BomKind::Utf16Le),
        utf16le_ok(b.skip(2)),
    ensures
        resolved_text(b) == Some(utf16le_chars(b.skip(2))),
        le_bytes_of(encode_units(utf16le_chars(b.skip(2)))) == b.skip(2),
{
    crate::utf16::lemma_utf16le_round_trip(b.skip(2));
}

/// The BOM probe strips exactly the mark's length before decoding with the
/// encoding the mark signals: whenever input that is not valid UTF-8 carries
/// a recognized mark and the probe succeeds, the resolved text is the
/// decoding of the input minus exactly `bom_length` leading bytes.
pub proof fn lemma_bom_strips_exact_length(b: Seq<u8>)
    requires
        !valid_utf8(b),
        spec_bom(b) is Some,
        bom_decoding(b) is Some,
    ensures
        ({
            let k = spec_bom(b)->Some_0;
            let rest = b.skip(bom_length(k));
            match k {
                BomKind::Utf8 => resolved_text(b) == Some(decode_utf8(rest)),
                BomKind::Utf16Le => resolved_text(b) == Some(utf16le_chars(rest)),
                BomKind::Utf16Be => resolved_text(b) == Some(utf16be_chars(rest)),
            }
        }),
{
}

} // verus!
