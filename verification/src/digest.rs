//! Content digests: the SHA-256 hash of a blob's bytes, written as 64
//! lowercase hexadecimal digits behind the algorithm's name.

use crate::text::{all_in, chars_of, check_all, in_class, slice_of, string_from, CharClass};
use vstd::prelude::*;

verus! {

/// The SHA-256 hash of `data`.
pub uninterp spec fn sha256(data: Seq<u8>) -> Seq<u8>;

/// Hashes `data` with `sha2::Sha256::digest`.
///
/// Trusted: the result is the SHA-256 hash of the bytes given, a function of
/// those bytes alone, and it is 32 bytes long.
#[verifier::external_body]
fn sha256_bytes(data: &[u8]) -> (out: Vec<u8>)
    ensures
        out@ == sha256(data@),
        out@.len() == 32,
{
    <sha2::Sha256 as sha2::Digest>::digest(data).to_vec()
}

/// The lowercase hexadecimal digit for `n`, which is below 16.
pub open spec fn hex_digit(n: int) -> char {
    if n < 10 {
        (n + 48) as char
    } else {
        (n + 87) as char
    }
}

/// Two lowercase hexadecimal digits per byte, the high half first.
pub open spec fn hex_of(bytes: Seq<u8>) -> Seq<char> {
    Seq::new(
        2 * bytes.len(),
        |i: int|
            if i % 2 == 0 {
                hex_digit(bytes[i / 2] as int / 16)
            } else {
                hex_digit(bytes[i / 2] as int % 16)
            },
    )
}

/// 64 lowercase hexadecimal digits.
pub open spec fn valid_hex(s: Seq<char>) -> bool {
    &&& s.len() == 64
    &&& all_in(s, CharClass::Hex)
}

/// The characters `sha256:`.
pub open spec fn sha256_prefix() -> Seq<char> {
    seq!['s', 'h', 'a', '2', '5', '6', ':']
}

/// The hash algorithms that a digest may name.
#[derive(Debug, Clone, Copy, PartialEq, Eq, Hash, Structural)]
pub enum Algorithm {
    Sha256,
}

/// What a digest is: an algorithm and the hash in hexadecimal.
pub struct DigestView {
    pub algorithm: Algorithm,
    pub hex: Seq<char>,
}

impl DigestView {
    /// The hash has the length and the alphabet that the algorithm gives it.
    pub open spec fn wf(self) -> bool {
        valid_hex(self.hex)
    }

    /// The text form, `sha256:` and the hexadecimal digits.
    pub open spec fn text(self) -> Seq<char> {
        sha256_prefix() + self.hex
    }
}

/// The digest of a blob.
pub open spec fn digest_of(data: Seq<u8>) -> DigestView {
    DigestView { algorithm: Algorithm::Sha256, hex: hex_of(sha256(data)) }
}

/// Whether `s` is the text form of a well-formed digest.
pub open spec fn is_digest_text(s: Seq<char>) -> bool {
    &&& s.len() == 71
    &&& s.subrange(0, 7) == sha256_prefix()
    &&& valid_hex(s.skip(7))
}

/// The address of a blob. Every value of this type is well formed.
#[derive(Debug, PartialEq, Eq, Hash)]
pub struct Digest {
    algorithm: Algorithm,
    hex: String,
}

impl View for Digest {
    type V = DigestView;

    closed spec fn view(&self) -> DigestView {
        DigestView { algorithm: self.algorithm, hex: self.hex@ }
    }
}

impl Clone for Digest {
    fn clone(&self) -> (d: Self)
        ensures
            d@ == self@,
    {
        proof {
            use_type_invariant(self);
        }
        Digest { algorithm: self.algorithm, hex: self.hex.clone() }
    }
}

fn hex_char(n: u8) -> (c: char)
    requires
        n < 16,
    ensures
        c == hex_digit(n as int),
        in_class(CharClass::Hex, c),
{
    if n < 10 {
        (n + 48) as char
    } else {
        (n + 87) as char
    }
}

/// Writes `bytes` in lowercase hexadecimal.
pub fn to_hex(bytes: &[u8]) -> (s: String)
    ensures
        s@ == hex_of(bytes@),
        all_in(s@, CharClass::Hex),
{
    let mut s = String::new();
    let mut i: usize = 0;
    while i < bytes.len()
        invariant
            0 <= i <= bytes@.len(),
            s@.len() == 2 * i,
            forall|j: int| 0 <= j < 2 * i ==> s@[j] == #[trigger] hex_of(bytes@)[j],
            all_in(s@, CharClass::Hex),
        decreases bytes@.len() - i,
    {
        let b = bytes[i];
        s.push(hex_char(b / 16));
        s.push(hex_char(b % 16));
        i += 1;
    }
    assert(s@ =~= hex_of(bytes@));
    s
}

impl Digest {
    /// What holds of every value of this type.
    #[verifier::type_invariant]
    pub open spec fn inv(self) -> bool {
        self@.wf()
    }

    /// Hashes `data`.
    pub fn of_bytes(data: &[u8]) -> (d: Digest)
        ensures
            d@ == digest_of(data@),
            d@.wf(),
    {
        let hash = sha256_bytes(data);
        let hex = to_hex(hash.as_slice());
        Digest { algorithm: Algorithm::Sha256, hex }
    }

    /// Reads the digest that the characters `v` spell, if they spell one.
    pub fn parse_chars(v: &Vec<char>) -> (r: Option<Digest>)
        ensures
            r is Some <==> is_digest_text(v@),
            r matches Some(d) ==> d@.wf() && d@.text() == v@,
    {
        if v.len() != 71 {
            return None;
        }
        if !(v[0] == 's' && v[1] == 'h' && v[2] == 'a' && v[3] == '2' && v[4] == '5' && v[5]
            == '6' && v[6] == ':') {
            let ghost p = v@.subrange(0, 7);
            assert(p[0] == v@[0] && p[1] == v@[1] && p[2] == v@[2] && p[3] == v@[3] && p[4]
                == v@[4] && p[5] == v@[5] && p[6] == v@[6]);
            return None;
        }
        assert(v@.subrange(0, 7) =~= sha256_prefix());
        let digits = slice_of(v, 7, 71);
        assert(digits@ =~= v@.skip(7));
        if !check_all(&digits, CharClass::Hex) {
            return None;
        }
        let d = Digest { algorithm: Algorithm::Sha256, hex: string_from(&digits) };
        assert(d@.text() =~= v@);
        Some(d)
    }

    /// Reads a digest from its text form, `sha256:` and 64 lowercase
    /// hexadecimal digits.
    pub fn parse(s: &str) -> (r: Option<Digest>)
        ensures
            r is Some <==> is_digest_text(s@),
            r matches Some(d) ==> d@.wf() && d@.text() == s@,
    {
        let v = chars_of(s);
        Digest::parse_chars(&v)
    }

    /// The text form.
    pub fn to_string(&self) -> (s: String)
        ensures
            s@ == self@.text(),
    {
        let mut s = String::new();
        s.push('s');
        s.push('h');
        s.push('a');
        s.push('2');
        s.push('5');
        s.push('6');
        s.push(':');
        assert(s@ =~= sha256_prefix());
        s.append(self.hex.as_str());
        s
    }

    /// The algorithm that made the hash.
    pub fn algorithm(&self) -> (a: Algorithm)
        ensures
            a == self@.algorithm,
    {
        self.algorithm
    }

    /// The hash in hexadecimal.
    pub fn hex(&self) -> (h: &str)
        ensures
            h@ == self@.hex,
            valid_hex(h@),
    {
        proof {
            use_type_invariant(self);
        }
        self.hex.as_str()
    }

    /// Whether both are the same digest.
    pub fn equals(&self, other: &Digest) -> (b: bool)
        ensures
            b == (self@ == other@),
    {
        self.hex == other.hex
    }

    /// Whether `data` is the content that this digest addresses.
    pub fn verify(&self, data: &[u8]) -> (b: bool)
        ensures
            b == (self@ == digest_of(data@)),
    {
        let d = Digest::of_bytes(data);
        self.equals(&d)
    }
}

/// The views of a sequence of digests.
pub open spec fn digest_views(s: Seq<Digest>) -> Seq<DigestView> {
    s.map_values(|d: Digest| d@)
}

/// Every text that `parse` accepts is the text form of exactly one well-formed
/// digest, and the text form of a well-formed digest is accepted.
pub proof fn lemma_digest_text(s: Seq<char>)
    ensures
        is_digest_text(s) <==> exists|d: DigestView| d.wf() && #[trigger] d.text() == s,
        forall|a: DigestView, b: DigestView| a.text() == b.text() ==> a.hex == b.hex,
{
    if is_digest_text(s) {
        let d = DigestView { algorithm: Algorithm::Sha256, hex: s.skip(7) };
        assert(d.text() =~= s);
    }
    assert forall|d: DigestView| d.wf() && #[trigger] d.text() == s implies is_digest_text(s) by {
        assert(s.subrange(0, 7) =~= sha256_prefix());
        assert(s.skip(7) =~= d.hex);
    }
    assert forall|a: DigestView, b: DigestView| a.text() == b.text() implies a.hex == b.hex by {
        assert(a.text().skip(7) =~= a.hex);
        assert(b.text().skip(7) =~= b.hex);
    }
}

/// Hashing is a function of the bytes: equal content has equal digests,
/// whenever and wherever they are computed.
pub proof fn lemma_digest_deterministic(a: Seq<u8>, b: Seq<u8>)
    requires
        a == b,
    ensures
        digest_of(a) == digest_of(b),
        digest_of(a).text() == digest_of(b).text(),
{
}

} // verus!
