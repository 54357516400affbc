//! Content hashing for preregistration.
//!
//! The hash covers what a spec *says*, not how its YAML is written. It is
//! taken over the spec's canonical content: its JSON encoding with object
//! keys sorted, without the `preregistration` block, so that a spec can
//! carry its own hash. Producing those bytes is serialization, done where
//! specs are read; this module hashes them and renders the result as
//! `sha256:<64 lowercase hex digits>`.
use vstd::prelude::*;

use sha2::{Digest, Sha256};

use crate::text::{chars_of, push_char};

verus! {

pub const HASH_PREFIX: &'static str = "sha256:";

/// The SHA-256 digest of `data`, as computed by the `sha2` crate.
pub uninterp spec fn sha256(data: Seq<u8>) -> Seq<u8>;

/// Calls `sha2::Sha256::digest` on `data` and copies the digest out.
/// Trusted: the result is the digest that `sha2` computes for exactly these
/// bytes, and it is 32 bytes long (`Sha256`'s output size is `U32`).
#[verifier::external_body]
fn sha256_digest(data: &[u8]) -> (r: Vec<u8>)
    ensures
        r@ == sha256(data@),
        r@.len() == 32,
{
    Sha256::digest(data).to_vec()
}

/// The lowercase hexadecimal digit for `n < 16`.
pub open spec fn hex_digit(n: int) -> char {
    if n < 10 {
        (('0' as int) + n) as char
    } else {
        (('a' as int) + n - 10) as char
    }
}

/// Two lowercase hexadecimal digits per byte, most significant first.
pub open spec fn hex_lower(bytes: Seq<u8>) -> Seq<char>
    decreases bytes.len(),
{
    if bytes.len() == 0 {
        seq![]
    } else {
        let b = bytes.last();
        hex_lower(bytes.drop_last()) + seq![hex_digit(b as int / 16), hex_digit(b as int % 16)]
    }
}

fn hex_char(n: u8) -> (c: char)
    requires
        n < 16,
    ensures
        c == hex_digit(n as int),
{
    if n < 10 {
        (n + 48) as char
    } else {
        (n + 87) as char
    }
}

/// The text of a hash with the given digest: the prefix, then the digest in
/// lowercase hexadecimal.
pub open spec fn hash_text_of(digest: Seq<u8>) -> Seq<char> {
    HASH_PREFIX@ + hex_lower(digest)
}

/// Renders a digest as `sha256:` followed by its lowercase hex digits.
pub fn hash_text(digest: &[u8]) -> (r: String)
    ensures
        r@ == hash_text_of(digest@),
{
    let mut out = String::from_str(HASH_PREFIX);
    let mut i: usize = 0;
    while i < digest.len()
        invariant
            i <= digest@.len(),
            out@ == HASH_PREFIX@ + hex_lower(digest@.take(i as int)),
        decreases digest.len() - i,
    {
        let b = digest[i];
        push_char(&mut out, hex_char(b / 16));
        push_char(&mut out, hex_char(b % 16));
        proof {
            assert(digest@.take(i + 1).drop_last() =~= digest@.take(i as int));
        }
        i = i + 1;
    }
    proof {
        assert(digest@.take(digest@.len() as int) =~= digest@);
    }
    out
}

/// The hash of a spec whose canonical content is `canonical`:
/// `sha256:<64 lowercase hex digits>`.
pub fn spec_hash(canonical: &[u8]) -> (r: String)
    ensures
        r@ == hash_text_of(sha256(canonical@)),
        sha256(canonical@).len() == 32,
        well_formed_hash(r@),
{
    let digest = sha256_digest(canonical);
    proof {
        lemma_spec_hash_well_formed(canonical@);
    }
    hash_text(digest.as_slice())
}

pub open spec fn is_hex(c: char) -> bool {
    ||| '0' <= c <= '9'
    ||| 'a' <= c <= 'f'
    ||| 'A' <= c <= 'F'
}

/// The shape of a value produced by [`spec_hash`]: the prefix, then exactly
/// 64 hexadecimal digits of either case.
pub open spec fn well_formed_hash(s: Seq<char>) -> bool {
    &&& s.len() == HASH_PREFIX@.len() + 64
    &&& s.take(HASH_PREFIX@.len() as int) == HASH_PREFIX@
    &&& forall|i: int| HASH_PREFIX@.len() <= i < s.len() ==> #[trigger] is_hex(s[i])
}

/// True when `s` has the shape of a value produced by [`spec_hash`].
pub fn is_well_formed(s: &str) -> (r: bool)
    ensures
        r == well_formed_hash(s@),
{
    let v = chars_of(s);
    let prefix = chars_of(HASH_PREFIX);
    let n = prefix.len();
    if v.len() < n || v.len() - n != 64 {
        return false;
    }
    let mut i: usize = 0;
    while i < n
        invariant
            v@ == s@,
            prefix@ == HASH_PREFIX@,
            n == prefix.len(),
            n <= v.len(),
            i <= n,
            forall|j: int| 0 <= j < i ==> s@[j] == HASH_PREFIX@[j],
        decreases n - i,
    {
        if v[i] != prefix[i] {
            assert(s@.take(n as int)[i as int] != HASH_PREFIX@[i as int]);
            return false;
        }
        i = i + 1;
    }
    assert(s@.take(n as int) =~= HASH_PREFIX@);
    while i < v.len()
        invariant
            v@ == s@,
            n == HASH_PREFIX@.len(),
            n <= i <= v.len(),
            forall|j: int| n <= j < i ==> #[trigger] is_hex(s@[j]),
        decreases v.len() - i,
    {
        let c = v[i];
        if !(('0' <= c && c <= '9') || ('a' <= c && c <= 'f') || ('A' <= c && c <= 'F')) {
            assert(!is_hex(s@[i as int]));
            return false;
        }
        i = i + 1;
    }
    true
}

proof fn lemma_hex_lower_len_and_digits(d: Seq<u8>)
    ensures
        hex_lower(d).len() == 2 * d.len(),
        forall|i: int| 0 <= i < hex_lower(d).len() ==> #[trigger] is_hex(hex_lower(d)[i]),
    decreases d.len(),
{
    if d.len() > 0 {
        lemma_hex_lower_len_and_digits(d.drop_last());
        let b = d.last();
        assert(is_hex(hex_digit(b as int / 16)));
        assert(is_hex(hex_digit(b as int % 16)));
        let prev = hex_lower(d.drop_last());
        assert forall|i: int| 0 <= i < hex_lower(d).len() implies #[trigger] is_hex(
            hex_lower(d)[i],
        ) by {
            if i < prev.len() {
                assert(hex_lower(d)[i] == prev[i]);
            }
        }
    }
}

/// Every hash this module produces passes [`is_well_formed`].
pub proof fn lemma_spec_hash_well_formed(canonical: Seq<u8>)
    ensures
        sha256(canonical).len() == 32 ==> well_formed_hash(hash_text_of(sha256(canonical))),
{
    let d = sha256(canonical);
    lemma_hex_lower_len_and_digits(d);
    let t = hash_text_of(d);
    assert(t.take(HASH_PREFIX@.len() as int) =~= HASH_PREFIX@);
    assert forall|i: int| HASH_PREFIX@.len() <= i < t.len() implies #[trigger] is_hex(t[i]) by {
        assert(t[i] == hex_lower(d)[i - HASH_PREFIX@.len()]);
    }
}

} // verus!
