//! The digest engine: content hashes, their text form, and verification.

use vstd::prelude::*;
use vstd::string::*;
use crate::hex::{
    hex_decode, hex_digit_value, hex_encode, is_hex, is_hex_char, lemma_decode_ignores_case,
    lemma_hex_encode_is_hex, lemma_hex_round_trip, push_hex, same_hex,
};

verus! {

/// The SHA-256 hash of a byte string.
pub uninterp spec fn sha256(data: Seq<u8>) -> Seq<u8>;

/// Calls `sha2::Sha256::digest` (the `digest` method of the `Digest` trait)
/// and hands its 32-byte output over as an array.
///
/// Trusted: the result is the SHA-256 hash of `data`, a function of the bytes
/// alone.
#[verifier::external_body]
fn sha256_bytes(data: &[u8]) -> (hash: [u8; 32])
    ensures
        hash@ == sha256(data@),
{
    <sha2::Sha256 as sha2::Digest>::digest(data).into()
}

/// Mathematical value of a digest: an algorithm tag and the raw hash bytes.
pub struct DigestModel {
    pub algorithm: Seq<char>,
    pub hash: Seq<u8>,
}

/// Whether `c` may occur in an algorithm tag.
pub open spec fn is_tag_char(c: char) -> bool {
    ('a' <= c <= 'z') || ('0' <= c <= '9')
}

/// Whether `tag` is an algorithm tag: a non-empty run of lowercase letters
/// and digits.
pub open spec fn is_tag(tag: Seq<char>) -> bool {
    &&& tag.len() > 0
    &&& forall|i: int| 0 <= i < tag.len() ==> is_tag_char(#[trigger] tag[i])
}

/// The tag of the one algorithm this engine computes.
pub open spec fn sha256_tag() -> Seq<char> {
    seq!['s', 'h', 'a', '2', '5', '6']
}

impl DigestModel {
    /// A digest has a proper tag and at least one byte of hash.
    pub open spec fn wf(self) -> bool {
        is_tag(self.algorithm) && self.hash.len() > 0
    }

    /// The text form: tag, a colon, the hash in lowercase hexadecimal.
    pub open spec fn text(self) -> Seq<char> {
        self.algorithm + seq![':'] + hex_encode(self.hash)
    }
}

/// The digest of a byte string: its SHA-256 hash under the tag `sha256`.
pub open spec fn digest_of(data: Seq<u8>) -> DigestModel {
    DigestModel { algorithm: sha256_tag(), hash: sha256(data) }
}

/// Whether `text` is digest text with its colon at index `k`.
pub open spec fn splits_at(text: Seq<char>, k: int) -> bool {
    &&& 0 < k < text.len() - 1
    &&& text[k] == ':'
    &&& is_tag(text.subrange(0, k))
    &&& is_hex(text.subrange(k + 1, text.len() as int))
}

/// Whether `text` has the form `{algorithm}:{hex}`.
pub open spec fn is_digest_text(text: Seq<char>) -> bool {
    exists|k: int| splits_at(text, k)
}

/// The digest that `text` denotes, if it is digest text. Hexadecimal digits
/// of either case denote the same digest.
pub open spec fn parse_digest(text: Seq<char>) -> Option<DigestModel> {
    if is_digest_text(text) {
        let k = choose|k: int| splits_at(text, k);
        Some(
            DigestModel {
                algorithm: text.subrange(0, k),
                hash: hex_decode(text.subrange(k + 1, text.len() as int)),
            },
        )
    } else {
        None
    }
}

/// Digest text has exactly one place for its colon.
pub proof fn lemma_split_unique(text: Seq<char>, j: int, k: int)
    requires
        splits_at(text, j),
        splits_at(text, k),
    ensures
        j == k,
{
    if j < k {
        let hex = text.subrange(j + 1, text.len() as int);
        assert(is_hex_char(hex[k - j - 1]));
    } else if k < j {
        let tag = text.subrange(0, j);
        assert(is_tag_char(tag[k]));
    }
}

/// Digest text is ASCII.
pub proof fn lemma_digest_text_is_ascii(text: Seq<char>)
    requires
        is_digest_text(text),
    ensures
        vstd::utf8::is_ascii_chars(text),
{
    let k = choose|k: int| splits_at(text, k);
    let tag = text.subrange(0, k);
    let hex = text.subrange(k + 1, text.len() as int);
    assert forall|i: int| 0 <= i < text.len() implies '\0' <= #[trigger] text[i] <= '\u{7f}' by {
        if i < k {
            assert(is_tag_char(tag[i]));
        } else if i > k {
            assert(is_hex_char(hex[i - k - 1]));
        }
    }
}

/// A tag, a colon and hexadecimal text of at least one byte denote the
/// digest of that tag and those bytes.
pub proof fn lemma_parse_parts(tag: Seq<char>, hex: Seq<char>)
    requires
        is_tag(tag),
        is_hex(hex),
        hex.len() > 0,
    ensures
        parse_digest(tag + seq![':'] + hex) == Some(
            DigestModel { algorithm: tag, hash: hex_decode(hex) },
        ),
{
    let text = tag + seq![':'] + hex;
    let k = tag.len() as int;
    assert(text.subrange(0, k) =~= tag);
    assert(text.subrange(k + 1, text.len() as int) =~= hex);
    assert(splits_at(text, k));
    let j = choose|j: int| splits_at(text, j);
    lemma_split_unique(text, j, k);
}

/// Parsing the text of a well-formed digest gives the digest back.
pub proof fn lemma_parse_text(d: DigestModel)
    requires
        d.wf(),
    ensures
        parse_digest(d.text()) == Some(d),
{
    lemma_hex_encode_is_hex(d.hash);
    lemma_hex_round_trip(d.hash);
    lemma_parse_parts(d.algorithm, hex_encode(d.hash));
}

/// Digest texts that differ only in the case of their hexadecimal digits
/// denote the same digest.
pub proof fn lemma_parse_ignores_hex_case(tag: Seq<char>, a: Seq<char>, b: Seq<char>)
    requires
        is_tag(tag),
        same_hex(a, b),
        a.len() > 0,
    ensures
        parse_digest(tag + seq![':'] + a) is Some,
        parse_digest(tag + seq![':'] + a) == parse_digest(tag + seq![':'] + b),
{
    lemma_parse_parts(tag, a);
    lemma_parse_parts(tag, b);
    lemma_decode_ignores_case(a, b);
}

/// In digest text the colon stands where the leading run of tag characters
/// ends.
pub proof fn lemma_colon_is_first_non_tag(text: Seq<char>, j: int, k: int)
    requires
        splits_at(text, j),
        0 <= k <= text.len(),
        forall|i: int| 0 <= i < k ==> is_tag_char(#[trigger] text[i]),
        k < text.len() ==> !is_tag_char(text[k]),
    ensures
        j == k,
{
    if k < j {
        let tag = text.subrange(0, j);
        assert(is_tag_char(tag[k]));
    } else if j < k {
        assert(is_tag_char(text[j]));
    }
}

/// Whether the ASCII byte `b` may occur in an algorithm tag.
fn is_tag_byte(b: u8) -> (yes: bool)
    ensures
        yes == is_tag_char(b as char),
{
    (b >= 97 && b <= 122) || (b >= 48 && b <= 57)
}

/// A content digest: an algorithm tag and a hash. Its identity is its model;
/// two digests are the same when tag and hash bytes agree.
#[derive(Debug)]
pub struct Digest {
    algorithm: String,
    hash: Vec<u8>,
}

impl View for Digest {
    type V = DigestModel;

    closed spec fn view(&self) -> DigestModel {
        DigestModel { algorithm: self.algorithm@, hash: self.hash@ }
    }
}

impl Clone for Digest {
    fn clone(&self) -> (copy: Self)
        ensures
            copy@ == self@,
    {
        let hash = self.hash.clone();
        assert(hash@ =~= self.hash@);
        Digest { algorithm: self.algorithm.clone(), hash }
    }
}

impl PartialEq for Digest {
    fn eq(&self, other: &Digest) -> (same: bool) {
        self.same_as(other)
    }
}

impl vstd::std_specs::cmp::PartialEqSpecImpl for Digest {
    open spec fn obeys_eq_spec() -> bool {
        true
    }

    open spec fn eq_spec(&self, other: &Digest) -> bool {
        self@ == other@
    }
}

impl Eq for Digest {

}

impl Digest {
    /// Wraps a SHA-256 hash as a digest.
    pub fn from_sha256(hash: [u8; 32]) -> (d: Digest)
        ensures
            d@ == (DigestModel { algorithm: sha256_tag(), hash: hash@ }),
            d@.wf(),
    {
        let algorithm = "sha256".to_owned();
        proof {
            reveal_strlit("sha256");
            assert(algorithm@ =~= sha256_tag());
        }
        let mut bytes: Vec<u8> = Vec::new();
        let mut i: usize = 0;
        while i < 32
            invariant
                i <= 32,
                bytes@ == hash@.subrange(0, i as int),
            decreases 32 - i,
        {
            bytes.push(hash[i]);
            assert(bytes@ =~= hash@.subrange(0, i as int + 1));
            i = i + 1;
        }
        assert(bytes@ =~= hash@);
        Digest { algorithm, hash: bytes }
    }

    /// Reads a digest from text of the form `{algorithm}:{hex}`. Text of any
    /// other form is refused.
    pub fn parse(text: &str) -> (parsed: Option<Digest>)
        ensures
            parsed is Some <==> is_digest_text(text@),
            parsed matches Some(d) ==> Some(d@) == parse_digest(text@) && d@.wf(),
    {
        if !text.is_ascii() {
            proof {
                if is_digest_text(text@) {
                    lemma_digest_text_is_ascii(text@);
                }
            }
            return None;
        }
        let bytes = text.as_bytes();
        let n = bytes.len();
        proof {
            is_ascii_spec_bytes(text);
            assert(bytes@.len() == text@.len());
            assert(forall|i: int| 0 <= i < n ==> bytes@[i] == #[trigger] text@[i] as u8);
            assert(forall|i: int| 0 <= i < n ==> bytes@[i] as char == #[trigger] text@[i]) by {
                vstd::utf8::is_ascii_chars_nat_bound(text@);
            }
        }
        let mut k: usize = 0;
        while k < n && is_tag_byte(bytes[k])
            invariant
                k <= n,
                n == bytes@.len(),
                n == text@.len(),
                forall|i: int| 0 <= i < n ==> bytes@[i] as char == #[trigger] text@[i],
                forall|i: int| 0 <= i < k ==> is_tag_char(#[trigger] text@[i]),
            decreases n - k,
        {
            k = k + 1;
        }
        if k == 0 || k >= n - 1 || bytes[k] != 58 {
            proof {
                if is_digest_text(text@) {
                    let j = choose|j: int| splits_at(text@, j);
                    lemma_colon_is_first_non_tag(text@, j, k as int);
                }
            }
            return None;
        }
        if (n - k - 1) % 2 != 0 {
            proof {
                if is_digest_text(text@) {
                    let j = choose|j: int| splits_at(text@, j);
                    lemma_colon_is_first_non_tag(text@, j, k as int);
                }
            }
            return None;
        }
        let ghost hex_text = text@.subrange(k as int + 1, n as int);
        proof {
            if is_digest_text(text@) {
                let j = choose|j: int| splits_at(text@, j);
                lemma_colon_is_first_non_tag(text@, j, k as int);
            }
        }
        let mut hash: Vec<u8> = Vec::new();
        let mut i: usize = k + 1;
        while i < n
            invariant
                k + 1 <= i <= n,
                (i - k - 1) % 2 == 0,
                (n - k - 1) % 2 == 0,
                n == bytes@.len(),
                n == text@.len(),
                hex_text == text@.subrange(k as int + 1, n as int),
                is_digest_text(text@) ==> is_hex(hex_text),
                is_tag(text@.subrange(0, k as int)),
                text@[k as int] == ':',
                forall|j: int| 0 <= j < n ==> bytes@[j] as char == #[trigger] text@[j],
                forall|j: int| 0 <= j < i - k - 1 ==> is_hex_char(#[trigger] hex_text[j]),
                hash@.len() == (i - k - 1) / 2,
                forall|j: int|
                    0 <= j < hash@.len() ==> hash@[j] == #[trigger] hex_decode(hex_text)[j],
            decreases n - i,
        {
            let high = hex_digit_value(bytes[i]);
            let low = hex_digit_value(bytes[i + 1]);
            proof {
                assert(hex_text[i - k - 1] == text@[i as int]);
                assert(hex_text[i - k] == text@[i as int + 1]);
            }
            match (high, low) {
                (Some(h), Some(l)) => {
                    proof {
                        let at = (i - k - 1) / 2;
                        assert(2 * at == i - k - 1);
                        assert(hex_decode(hex_text)[at] == (16 * h + l) as u8);
                    }
                    hash.push(16 * h + l);
                },
                _ => {
                    proof {
                        if is_digest_text(text@) {
                            assert(is_hex_char(hex_text[i - k - 1]));
                            assert(is_hex_char(hex_text[i - k]));
                        }
                    }
                    return None;
                },
            }
            i = i + 2;
        }
        let algorithm = text.substring_ascii(0, k).to_owned();
        proof {
            assert(is_hex(hex_text));
            assert(splits_at(text@, k as int));
            let j = choose|j: int| splits_at(text@, j);
            lemma_split_unique(text@, j, k as int);
            assert(hash@ =~= hex_decode(hex_text));
        }
        Some(Digest { algorithm, hash })
    }

    /// Whether two digests are the same.
    pub fn same_as(&self, other: &Digest) -> (same: bool)
        ensures
            same == (self@ == other@),
    {
        if self.algorithm != other.algorithm {
            return false;
        }
        if self.hash.len() != other.hash.len() {
            return false;
        }
        let mut i: usize = 0;
        while i < self.hash.len()
            invariant
                i <= self.hash.len(),
                self.hash.len() == other.hash.len(),
                forall|j: int| 0 <= j < i ==> self.hash@[j] == other.hash@[j],
            decreases self.hash.len() - i,
        {
            if self.hash[i] != other.hash[i] {
                return false;
            }
            i = i + 1;
        }
        assert(self.hash@ =~= other.hash@);
        true
    }

    /// The text form `{algorithm}:{hex}`, in lowercase hexadecimal.
    pub fn to_text(&self) -> (text: String)
        ensures
            text@ == self@.text(),
    {
        let mut text = self.algorithm.clone();
        text.append(":");
        proof {
            reveal_strlit(":");
            assert(text@ =~= self.algorithm@ + seq![':']);
        }
        push_hex(&mut text, self.hash.as_slice());
        text
    }

    /// The hash portion alone, in lowercase hexadecimal.
    pub fn hex(&self) -> (text: String)
        ensures
            text@ == hex_encode(self@.hash),
    {
        let mut text = String::new();
        push_hex(&mut text, self.hash.as_slice());
        assert(text@ =~= hex_encode(self.hash@));
        text
    }
}

/// Computes the digest of `data`.
pub fn compute(data: &[u8]) -> (d: Digest)
    ensures
        d@ == digest_of(data@),
        d@.wf(),
{
    Digest::from_sha256(sha256_bytes(data))
}

/// Whether `data` hashes to `expected`.
pub fn verify(data: &[u8], expected: &Digest) -> (ok: bool)
    ensures
        ok == (digest_of(data@) == expected@),
{
    compute(data).same_as(expected)
}

} // verus!
