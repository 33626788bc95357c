//! SHA-256 content digests written as `sha256:<64 lowercase hex>`.
use crate::json::{enc, hex_digit, JsonText};
use crate::text::{char_from_ascii_code, owned};
use sha2::{Digest, Sha256};
use vstd::prelude::*;

verus! {

/// The SHA-256 digest of a byte sequence, as computed by the `sha2` crate.
pub uninterp spec fn sha256_spec(data: Seq<u8>) -> Seq<u8>;

/// Calls `sha2::Sha256::digest`. Trusted: the result is the digest of exactly
/// the given bytes (named `sha256_spec`), and it is 32 bytes long, as the
/// `Sha256` output size fixes.
#[verifier::external_body]
fn sha256(data: &[u8]) -> (r: Vec<u8>)
    ensures
        r@ == sha256_spec(data@),
        r@.len() == 32,
{
    Sha256::digest(data).to_vec()
}

/// Lowercase hexadecimal text of bytes.
pub open spec fn hex_lower(bytes: Seq<u8>) -> Seq<char>
    decreases bytes.len(),
{
    if bytes.len() == 0 {
        Seq::empty()
    } else {
        hex_lower(bytes.drop_last()) + seq![
            hex_digit((bytes.last() / 16) as nat),
            hex_digit((bytes.last() % 16) as nat),
        ]
    }
}

/// The text `sha256:`.
pub open spec fn sha256_prefix() -> Seq<char> {
    seq!['s', 'h', 'a', '2', '5', '6', ':']
}

/// Digest text of a character sequence: SHA-256 over its UTF-8 bytes.
pub open spec fn digest_text(text: Seq<char>) -> Seq<char> {
    sha256_prefix() + hex_lower(sha256_spec(vstd::utf8::encode_utf8(text)))
}

/// Digest text of a JSON value's canonical encoding.
pub open spec fn json_digest(j: crate::json::JsonV) -> Seq<char> {
    digest_text(enc(j))
}

/// Whether a text is `sha256:` followed by 64 lowercase hex digits.
pub open spec fn is_sha256_text(s: Seq<char>) -> bool {
    &&& s.len() == 71
    &&& s.take(7) == sha256_prefix()
    &&& forall|i: int| 7 <= i < 71 ==> is_lower_hex(#[trigger] s[i])
}

/// A lowercase hexadecimal digit.
pub open spec fn is_lower_hex(c: char) -> bool {
    ('0' <= c && c <= '9') || ('a' <= c && c <= 'f')
}

/// Checks `is_sha256_text`.
pub fn valid_sha256(s: &str) -> (r: bool)
    ensures
        r == is_sha256_text(s@),
{
    let cs = crate::text::chars_of(s);
    if cs.len() != 71 {
        return false;
    }
    let p = crate::text::chars_of("sha256:");
    let pre = crate::text::chars_start_with(&cs, &p);
    proof {
        reveal_strlit("sha256:");
        assert(p@ =~= sha256_prefix());
    }
    if !pre {
        return false;
    }
    let mut i: usize = 7;
    while i < 71
        invariant
            7 <= i <= 71,
            cs@ == s@,
            cs@.len() == 71,
            forall|k: int| 7 <= k < i ==> is_lower_hex(#[trigger] cs@[k]),
        decreases 71 - i,
    {
        let c = cs[i];
        if !(('0' <= c && c <= '9') || ('a' <= c && c <= 'f')) {
            return false;
        }
        i = i + 1;
    }
    true
}

/// Appends the lowercase hex text of bytes.
fn write_hex(bytes: &Vec<u8>, out: &mut String)
    ensures
        final(out)@ == old(out)@ + hex_lower(bytes@),
{
    let ghost start = out@;
    let mut i: usize = 0;
    while i < bytes.len()
        invariant
            i <= bytes.len(),
            out@ == start + hex_lower(bytes@.take(i as int)),
        decreases bytes.len() - i,
    {
        let b = bytes[i];
        let hi = digit((b / 16) as u32);
        let lo = digit((b % 16) as u32);
        out.push(hi);
        out.push(lo);
        proof {
            let t = bytes@.take(i + 1);
            assert(t.drop_last() =~= bytes@.take(i as int));
            assert(t.last() == b);
            assert(out@ =~= start + hex_lower(t));
        }
        i = i + 1;
    }
    assert(bytes@.take(bytes.len() as int) =~= bytes@);
}

fn digit(d: u32) -> (c: char)
    requires
        d < 16,
    ensures
        c == hex_digit(d as nat),
{
    if d < 10 {
        char_from_ascii_code(48 + d)
    } else {
        char_from_ascii_code(87 + d)
    }
}

/// The digest text of a string's UTF-8 bytes.
pub fn digest_of_text(text: &str) -> (r: String)
    ensures
        r@ == digest_text(text@),
        is_sha256_text(r@),
{
    let bytes = text.as_bytes();
    let h = sha256(bytes);
    let mut out = owned("sha256:");
    proof {
        reveal_strlit("sha256:");
        assert(out@ =~= sha256_prefix());
    }
    write_hex(&h, &mut out);
    proof {
        lemma_hex_lower_len(h@);
        assert(out@.take(7) =~= sha256_prefix());
        assert forall|i: int| 7 <= i < 71 implies is_lower_hex(#[trigger] out@[i]) by {
            assert(out@[i] == hex_lower(h@)[i - 7]);
        }
    }
    out
}

/// The lowercase hex text of the SHA-256 of bytes.
pub fn hex_sha256(data: &[u8]) -> (r: String)
    ensures
        r@ == hex_lower(sha256_spec(data@)),
        r@.len() == 64,
        forall|i: int| 0 <= i < 64 ==> is_lower_hex(#[trigger] r@[i]),
{
    let h = sha256(data);
    let mut out = String::new();
    write_hex(&h, &mut out);
    proof {
        lemma_hex_lower_len(h@);
        assert(out@ =~= hex_lower(h@));
    }
    out
}

/// The digest text of an encoded JSON value.
pub fn digest_json(j: &JsonText) -> (r: String)
    requires
        j.wf(),
    ensures
        r@ == json_digest(j.value@),
        is_sha256_text(r@),
{
    digest_of_text(j.text.as_str())
}

/// Hex text has two digits per byte.
pub proof fn lemma_hex_lower_len(bytes: Seq<u8>)
    ensures
        hex_lower(bytes).len() == 2 * bytes.len(),
        forall|i: int| 0 <= i < hex_lower(bytes).len() ==> is_lower_hex(#[trigger] hex_lower(bytes)[i]),
    decreases bytes.len(),
{
    if bytes.len() > 0 {
        lemma_hex_lower_len(bytes.drop_last());
        let a = hex_lower(bytes.drop_last());
        let h = (bytes.last() / 16) as nat;
        let l = (bytes.last() % 16) as nat;
        assert(is_lower_hex(hex_digit(h)));
        assert(is_lower_hex(hex_digit(l)));
        assert forall|i: int| 0 <= i < hex_lower(bytes).len() implies is_lower_hex(
            #[trigger] hex_lower(bytes)[i],
        ) by {
            if i < a.len() {
                assert(hex_lower(bytes)[i] == a[i]);
            }
        }
    }
}

} // verus!
