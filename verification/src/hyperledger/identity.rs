//! Signing identity references for Hyperledger.
//!
//! The identity name references a Fabric identity that the gateway
//! resolves; only the reference is kept here, with an optional certificate
//! fingerprint for diagnostics.

use vstd::prelude::*;
use vstd::string::StrSliceExecFns;
use crate::format::hex_digit;
use crate::text::{owned, push_char};

verus! {

/// A reference to the Fabric identity used for ledger submissions.
pub struct SigningIdentityRef {
    /// Identity name as known to the gateway.
    pub identity: String,
    /// MSP id of the organization.
    pub msp_id: String,
    /// Certificate fingerprint, when available.
    pub cert_fingerprint: Option<String>,
}

impl SigningIdentityRef {
    /// A reference to `identity` of organization `msp_id`, with no
    /// fingerprint.
    pub fn new(identity: &str, msp_id: &str) -> (r: Self)
        ensures
            r.identity@ == identity@,
            r.msp_id@ == msp_id@,
            r.cert_fingerprint is None,
    {
        SigningIdentityRef { identity: owned(identity), msp_id: owned(msp_id), cert_fingerprint: None }
    }
}

/// The SHA-256 digest of a byte string.
pub uninterp spec fn sha256(data: Seq<u8>) -> Seq<u8>;

/// `sha2::Sha256::digest`: the digest of `data`, 32 bytes long. The digest
/// itself is named, not described.
#[verifier::external_body]
pub(crate) fn sha256_digest(data: &[u8]) -> (r: Vec<u8>)
    ensures
        r@ == sha256(data@),
        r@.len() == 32,
{
    <sha2::Sha256 as sha2::Digest>::digest(data).to_vec()
}

/// Lowercase hexadecimal of a byte string: two digits per byte, the high
/// half first.
pub open spec fn hex_of(data: Seq<u8>) -> Seq<char>
    decreases data.len(),
{
    if data.len() == 0 {
        Seq::empty()
    } else {
        hex_of(data.drop_last()).push(hex_digit((data.last() / 16) as nat)).push(
            hex_digit((data.last() % 16) as nat),
        )
    }
}

/// `hex::encode`: lowercase hexadecimal, two digits per byte, high half
/// first.
#[verifier::external_body]
pub(crate) fn hex_encode(data: &[u8]) -> (r: String)
    ensures
        r@ == hex_of(data@),
{
    hex::encode(data)
}

/// A line without the carriage return that ends it, if any.
pub open spec fn strip_cr(line: Seq<char>) -> Seq<char> {
    if line.len() > 0 && line.last() == '\r' {
        line.drop_last()
    } else {
        line
    }
}

/// The lines ended by a newline so far, and the unfinished line after them.
pub open spec fn split_lines(s: Seq<char>) -> (Seq<Seq<char>>, Seq<char>)
    decreases s.len(),
{
    if s.len() == 0 {
        (Seq::empty(), Seq::empty())
    } else {
        let (done, cur) = split_lines(s.drop_last());
        if s.last() == '\n' {
            (done.push(strip_cr(cur)), Seq::empty())
        } else {
            (done, cur.push(s.last()))
        }
    }
}

/// The lines of a text, as `str::lines` gives them: split at `\n` or
/// `\r\n`, with no empty line after a final line ending.
pub open spec fn text_lines(s: Seq<char>) -> Seq<Seq<char>> {
    let (done, cur) = split_lines(s);
    if cur.len() > 0 {
        done.push(cur)
    } else {
        done
    }
}

/// Whether a line is a PEM armor line (it starts with five dashes).
pub open spec fn is_armor(line: Seq<char>) -> bool {
    line.len() >= 5 && line.take(5) == "-----"@
}

/// The lines that are not armor lines, joined with nothing between them.
pub open spec fn body_of(lines: Seq<Seq<char>>) -> Seq<char>
    decreases lines.len(),
{
    if lines.len() == 0 {
        Seq::empty()
    } else {
        let prev = body_of(lines.drop_last());
        if is_armor(lines.last()) {
            prev
        } else {
            prev + lines.last()
        }
    }
}

/// Whether a line starts with five dashes.
fn armor_line(line: &str) -> (b: bool)
    ensures
        b == is_armor(line@),
{
    let n = line.unicode_len();
    if n < 5 {
        return false;
    }
    let mut i: usize = 0;
    while i < 5
        invariant
            n == line@.len(),
            n >= 5,
            i <= 5,
            forall|j: int| 0 <= j < i ==> line@[j] == '-',
        decreases 5 - i,
    {
        if line.get_char(i) != '-' {
            proof {
                assert(line@.take(5)[i as int] != "-----"@[i as int]) by {
                    reveal_strlit("-----");
                }
            }
            return false;
        }
        i = i + 1;
    }
    proof {
        reveal_strlit("-----");
        assert(line@.take(5) =~= "-----"@);
    }
    true
}

/// The body of a PEM text: its lines other than the armor lines, joined.
pub fn pem_body(pem: &str) -> (body: String)
    ensures
        body@ == body_of(text_lines(pem@)),
{
    let n = pem.unicode_len();
    let mut body = String::new();
    let mut cur = String::new();
    let mut i: usize = 0;
    assert(pem@.take(0) =~= Seq::<char>::empty());
    assert(body@ =~= body_of(Seq::<Seq<char>>::empty()));
    while i < n
        invariant
            n == pem@.len(),
            i <= n,
            split_lines(pem@.take(i as int)).1 == cur@,
            body@ == body_of(split_lines(pem@.take(i as int)).0),
        decreases n - i,
    {
        let c = pem.get_char(i);
        let ghost pre = split_lines(pem@.take(i as int));
        assert(pem@.take(i + 1).drop_last() =~= pem@.take(i as int));
        assert(pem@.take(i + 1).last() == c);
        if c == '\n' {
            let line = strip_trailing_cr(&cur);
            let ghost done = pre.0.push(line@);
            assert(done.drop_last() =~= pre.0);
            if !armor_line(line.as_str()) {
                let ghost b0 = body@;
                append_str(&mut body, line.as_str());
            }
            cur = String::new();
        } else {
            push_char(&mut cur, c);
        }
        i = i + 1;
    }
    assert(pem@.take(n as int) =~= pem@);
    let ghost sl = split_lines(pem@);
    if cur.unicode_len() > 0 {
        assert(sl.0.push(cur@).drop_last() =~= sl.0);
        if !armor_line(cur.as_str()) {
            append_str(&mut body, cur.as_str());
        }
    }
    body
}

/// The line without one trailing carriage return.
fn strip_trailing_cr(line: &String) -> (r: String)
    ensures
        r@ == strip_cr(line@),
{
    let s = line.as_str();
    let n = s.unicode_len();
    if n > 0 && s.get_char(n - 1) == '\r' {
        owned(s.substring_char(0, n - 1))
    } else {
        line.clone()
    }
}

/// Appends `s` to `out`.
fn append_str(out: &mut String, s: &str)
    ensures
        final(out)@ == old(out)@ + s@,
{
    let n = s.unicode_len();
    let mut i: usize = 0;
    let ghost o0 = out@;
    while i < n
        invariant
            n == s@.len(),
            i <= n,
            out@ == o0 + s@.take(i as int),
        decreases n - i,
    {
        let c = s.get_char(i);
        push_char(out, c);
        assert(o0 + s@.take(i + 1) =~= (o0 + s@.take(i as int)).push(c));
        i = i + 1;
    }
    assert(s@.take(n as int) =~= s@);
}

/// The SHA-256 fingerprint, in lowercase hexadecimal, of a PEM
/// certificate's body: its lines other than the armor lines, joined.
pub fn cert_fingerprint(pem: &str) -> (f: String)
    ensures
        f@ == hex_of(sha256(pem_body_bytes(pem@))),
{
    let body = pem_body(pem);
    let bytes = body.as_str().as_bytes_vec();
    let digest = sha256_digest(bytes.as_slice());
    hex_encode(digest.as_slice())
}

/// The UTF-8 bytes of the body of a PEM text.
pub open spec fn pem_body_bytes(pem: Seq<char>) -> Seq<u8> {
    vstd::utf8::encode_utf8(body_of(text_lines(pem)))
}

} // verus!
