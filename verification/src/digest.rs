//! Canonical digests: `sha256:` and the lower-case hexadecimal SHA-256 of some bytes.

use vstd::prelude::*;
use crate::text::{chars_of, same, strip_prefix, after_prefix};

verus! {

/// The SHA-256 of some bytes, as `sha2::Sha256::digest` computes it.
pub uninterp spec fn sha256(bytes: Seq<u8>) -> Seq<u8>;

/// Calls `sha2::Sha256::digest`. Its result is a function of the bytes alone and thirty-two bytes
/// long; nothing else is claimed of it.
#[verifier::external_body]
pub(crate) fn sha256_of(bytes: &[u8]) -> (r: Vec<u8>)
    ensures
        r@ == sha256(bytes@),
        r@.len() == 32,
{
    <sha2::Sha256 as sha2::Digest>::digest(bytes).to_vec()
}

/// The lower-case hexadecimal digit of a value below sixteen.
pub open spec fn hex_digit(value: u8) -> char {
    if value < 10 {
        ((48 + value) as u8) as char
    } else {
        ((87 + value) as u8) as char
    }
}

/// Two hexadecimal digits for each byte.
pub open spec fn hex(bytes: Seq<u8>) -> Seq<char>
    decreases bytes.len(),
{
    if bytes.len() == 0 {
        Seq::empty()
    } else {
        hex(bytes.drop_last()).push(hex_digit(bytes.last() / 16)).push(hex_digit(bytes.last() % 16))
    }
}

fn digit(value: u8) -> (r: char)
    requires
        value < 16,
    ensures
        r == hex_digit(value),
{
    if value < 10 {
        (48 + value) as char
    } else {
        (87 + value) as char
    }
}

pub fn hex_text(bytes: &[u8]) -> (r: String)
    ensures
        r@ == hex(bytes@),
{
    let mut out = String::new();
    let mut i: usize = 0;
    while i < bytes.len()
        invariant
            i <= bytes.len(),
            out@ == hex(bytes@.take(i as int)),
        decreases bytes.len() - i,
    {
        out.push(digit(bytes[i] / 16));
        out.push(digit(bytes[i] % 16));
        assert(bytes@.take(i + 1).drop_last() == bytes@.take(i as int));
        i += 1;
    }
    assert(bytes@.take(i as int) == bytes@);
    out
}

/// Whether `c` is a decimal digit or one of `a` to `f`.
pub open spec fn is_lower_hex(c: char) -> bool {
    48 <= c as u32 <= 57 || 97 <= c as u32 <= 102
}

/// Whether a text is a canonical digest.
pub open spec fn is_digest_text(s: Seq<char>) -> bool {
    after_prefix(s, "sha256:"@) matches Some(rest) && rest.len() == 64 && forall|i: int|
        0 <= i < rest.len() ==> is_lower_hex(#[trigger] rest[i])
}

pub fn is_digest(value: &str) -> (r: bool)
    ensures
        r == is_digest_text(value@),
{
    let rest = match strip_prefix(value, "sha256:") {
        Some(rest) => chars_of(rest.as_str()),
        None => return false,
    };
    if rest.len() != 64 {
        return false;
    }
    let mut i: usize = 0;
    while i < rest.len()
        invariant
            i <= rest.len(),
            after_prefix(value@, "sha256:"@) == Some(rest@),
            forall|j: int| 0 <= j < i ==> is_lower_hex(#[trigger] rest@[j]),
        decreases rest.len() - i,
    {
        let code = rest[i] as u32;
        if !((48 <= code && code <= 57) || (97 <= code && code <= 102)) {
            assert(!is_lower_hex(rest@[i as int]));
            return false;
        }
        i += 1;
    }
    true
}

/// A digest in its textual form.
#[derive(Debug)]
pub struct CanonicalDigest {
    text: String,
}

impl View for CanonicalDigest {
    type V = Seq<char>;

    closed spec fn view(&self) -> Seq<char> {
        self.text@
    }
}

/// The digest of some bytes.
pub open spec fn digest_of(bytes: Seq<u8>) -> Seq<char> {
    "sha256:"@ + hex(sha256(bytes))
}

impl CanonicalDigest {
    #[verifier::type_invariant]
    spec fn is_canonical(self) -> bool {
        is_digest_text(self.text@)
    }

    pub fn of_bytes(bytes: &[u8]) -> (r: Self)
        ensures
            r@ == digest_of(bytes@),
            is_digest_text(r@),
    {
        let mut text = "sha256:".to_owned();
        text.append(hex_text(sha256_of(bytes).as_slice()).as_str());
        proof {
            lemma_digest_is_canonical(bytes@);
        }
        CanonicalDigest { text }
    }

    /// Reads a digest from its text.
    pub fn parse(text: String) -> (r: Option<Self>)
        ensures
            match r {
                Some(digest) => is_digest_text(text@) && digest@ == text@,
                None => !is_digest_text(text@),
            },
    {
        if is_digest(text.as_str()) {
            Some(CanonicalDigest { text })
        } else {
            None
        }
    }

    pub fn as_str(&self) -> (r: &str)
        ensures
            r@ == self@,
            is_digest_text(self@),
    {
        proof {
            use_type_invariant(self);
        }
        self.text.as_str()
    }

    pub fn equals(&self, other: &Self) -> (r: bool)
        ensures
            r == (self@ == other@),
    {
        same(self.text.as_str(), other.text.as_str())
    }

    pub fn copied(&self) -> (r: Self)
        ensures
            r@ == self@,
    {
        proof {
            use_type_invariant(self);
        }
        CanonicalDigest { text: self.text.clone() }
    }
}

proof fn lemma_hex_is_lower(bytes: Seq<u8>)
    ensures
        hex(bytes).len() == 2 * bytes.len(),
        forall|i: int| 0 <= i < hex(bytes).len() ==> is_lower_hex(#[trigger] hex(bytes)[i]),
    decreases bytes.len(),
{
    if bytes.len() > 0 {
        let head = hex(bytes.drop_last());
        lemma_hex_is_lower(bytes.drop_last());
        assert forall|i: int| 0 <= i < hex(bytes).len() implies is_lower_hex(
            #[trigger] hex(bytes)[i],
        ) by {
            if i < head.len() {
                assert(hex(bytes)[i] == head[i]);
            }
        }
    }
}

proof fn lemma_digest_is_canonical(bytes: Seq<u8>)
    requires
        sha256(bytes).len() == 32,
    ensures
        is_digest_text(digest_of(bytes)),
{
    reveal_strlit("sha256:");
    lemma_hex_is_lower(sha256(bytes));
    let text = digest_of(bytes);
    assert(text.take(7) == "sha256:"@);
    assert(text.skip(7) == hex(sha256(bytes)));
}

} // verus!
