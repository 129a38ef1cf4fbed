use base64::{Engine as _, engine::general_purpose::URL_SAFE_NO_PAD};
use hmac::{Hmac, Mac};
use sha2::Sha256;
use vstd::prelude::*;
use crate::clock::{secs_of_epoch_nanos, unix_time_nanos};
use crate::queue::SessionId;

verus! {

/// The HMAC-SHA256 tag of `msg` under `key`.
pub uninterp spec fn hmac_sha256_tag(key: Seq<u8>, msg: Seq<u8>) -> [u8; 32];

/// The character of the URL-safe base64 alphabet (RFC 4648, section 5)
/// for a 6-bit value `v`: `A`-`Z`, `a`-`z`, `0`-`9`, `-`, `_`.
pub open spec fn b64url_char(v: int) -> char {
    if v < 26 {
        (65 + v) as char
    } else if v < 52 {
        (71 + v) as char
    } else if v < 62 {
        (v - 4) as char
    } else if v == 62 {
        '-'
    } else {
        '_'
    }
}

/// The unpadded URL-safe base64 text of `bytes`: each group of three bytes
/// gives four characters of six bits each, most significant first; a last
/// one or two bytes give two or three characters, the spare low bits zero.
pub open spec fn base64url_encoding(bytes: Seq<u8>) -> Seq<char>
    decreases bytes.len(),
{
    if bytes.len() == 0 {
        Seq::empty()
    } else if bytes.len() == 1 {
        let b0 = bytes[0] as int;
        seq![b64url_char(b0 / 4), b64url_char((b0 % 4) * 16)]
    } else if bytes.len() == 2 {
        let b0 = bytes[0] as int;
        let b1 = bytes[1] as int;
        seq![b64url_char(b0 / 4), b64url_char((b0 % 4) * 16 + b1 / 16), b64url_char((b1 % 16) * 4)]
    } else {
        let b0 = bytes[0] as int;
        let b1 = bytes[1] as int;
        let b2 = bytes[2] as int;
        seq![
            b64url_char(b0 / 4),
            b64url_char((b0 % 4) * 16 + b1 / 16),
            b64url_char((b1 % 16) * 4 + b2 / 64),
            b64url_char(b2 % 64),
        ] + base64url_encoding(bytes.skip(3))
    }
}

/// Whether `c` is in the URL-safe base64 alphabet.
pub open spec fn is_b64url_char(c: char) -> bool {
    ('A' <= c && c <= 'Z') || ('a' <= c && c <= 'z') || ('0' <= c && c <= '9') || c == '-' || c == '_'
}

/// The length of the unpadded base64 text of `n` bytes: four characters per
/// three bytes, and two or three for a last one or two.
pub open spec fn base64url_len(n: nat) -> nat {
    4 * (n / 3) + (if n % 3 == 0 { 0 } else { n % 3 + 1 })
}

/// The unpadded base64 text of `bytes` has `base64url_len` characters, all
/// from the URL-safe alphabet.
pub proof fn lemma_base64url_shape(bytes: Seq<u8>)
    ensures
        base64url_encoding(bytes).len() == base64url_len(bytes.len()),
        forall|i: int| 0 <= i < base64url_encoding(bytes).len() ==> is_b64url_char(#[trigger] base64url_encoding(bytes)[i]),
    decreases bytes.len(),
{
    assert forall|v: int| 0 <= v < 64 implies is_b64url_char(#[trigger] b64url_char(v)) by {
        if v < 26 {
            assert((65 + v) as char as int == 65 + v);
        } else if v < 52 {
            assert((71 + v) as char as int == 71 + v);
        } else if v < 62 {
            assert((v - 4) as char as int == v - 4);
        }
    }
    if bytes.len() >= 3 {
        let rest = bytes.skip(3);
        lemma_base64url_shape(rest);
        let b0 = bytes[0] as int;
        let b1 = bytes[1] as int;
        let b2 = bytes[2] as int;
        let head = seq![
            b64url_char(b0 / 4),
            b64url_char((b0 % 4) * 16 + b1 / 16),
            b64url_char((b1 % 16) * 4 + b2 / 64),
            b64url_char(b2 % 64),
        ];
        let e = base64url_encoding(bytes);
        assert(e == head + base64url_encoding(rest));
        assert(rest.len() == bytes.len() - 3);
        assert(base64url_len(bytes.len()) == 4 + base64url_len(rest.len()));
        assert forall|i: int| 0 <= i < e.len() implies is_b64url_char(#[trigger] e[i]) by {
            if i >= 4 {
                assert(e[i] == base64url_encoding(rest)[i - 4]);
            }
        }
    } else if bytes.len() == 2 {
        let b0 = bytes[0] as int;
        let b1 = bytes[1] as int;
        assert(0 <= (b0 % 4) * 16 + b1 / 16 < 64);
        assert(0 <= (b1 % 16) * 4 < 64);
    } else if bytes.len() == 1 {
        let b0 = bytes[0] as int;
        assert(0 <= (b0 % 4) * 16 < 64);
    }
}

/// The bytes that the unpadded URL-safe base64 text `text` stands for, if it is valid.
pub uninterp spec fn base64url_decoding(text: Seq<char>) -> Option<Seq<u8>>;

/// Computes HMAC-SHA256 of `msg` under `key` with the `hmac` crate
/// (`Hmac<Sha256>::new_from_slice`, which accepts keys of any length,
/// `update`, `finalize`). The result is claimed to be the named tag of
/// these two arguments.
#[verifier::external_body]
fn hmac_sha256(key: &[u8], msg: &[u8]) -> (tag: [u8; 32])
    ensures
        tag == hmac_sha256_tag(key@, msg@),
{
    let mut mac = <Hmac<Sha256> as Mac>::new_from_slice(key).expect("HMAC takes keys of any length");
    mac.update(msg);
    mac.finalize().into_bytes().into()
}

/// Checks `tag` against HMAC-SHA256 of `msg` under `key` with the `hmac`
/// crate's `verify_slice`, which compares in constant time and rejects a tag
/// of another length than 32 bytes. Claimed: the answer is whether `tag` is
/// exactly the named tag.
#[verifier::external_body]
fn hmac_sha256_verify(key: &[u8], msg: &[u8], tag: &[u8]) -> (ok: bool)
    ensures
        ok == (tag@ == hmac_sha256_tag(key@, msg@)@),
{
    let mut mac = <Hmac<Sha256> as Mac>::new_from_slice(key).expect("HMAC takes keys of any length");
    mac.update(msg);
    mac.verify_slice(tag).is_ok()
}

/// Encodes `bytes` with the `base64` crate's `URL_SAFE_NO_PAD` engine.
/// Claimed: the text is the unpadded URL-safe encoding written out in
/// `base64url_encoding`, and decoding that text with the same engine gives
/// the bytes back.
#[verifier::external_body]
fn base64url_encode(bytes: &[u8]) -> (text: String)
    ensures
        text@ == base64url_encoding(bytes@),
        base64url_decoding(text@) == Some(bytes@),
{
    URL_SAFE_NO_PAD.encode(bytes)
}

/// Decodes `text` with the `base64` crate's `URL_SAFE_NO_PAD` engine; `None`
/// when the engine reports an error. Claimed: the result is the named
/// decoding, and, since that engine allows no padding and rejects set
/// trailing bits, it decodes exactly the texts that are encodings: the
/// bytes it gives encode back to `text`, and when it fails no bytes encode
/// to `text`.
#[verifier::external_body]
fn base64url_decode(text: &str) -> (bytes: Option<Vec<u8>>)
    ensures
        match bytes {
            Some(b) => base64url_decoding(text@) == Some(b@) && base64url_encoding(b@) == text@,
            None => base64url_decoding(text@) is None && forall|b: Seq<u8>| #[trigger] base64url_encoding(b) != text@,
        },
{
    URL_SAFE_NO_PAD.decode(text).ok()
}

/// `256^count`.
pub open spec fn pow256(count: nat) -> nat
    decreases count,
{
    if count == 0 { 1 } else { 256 * pow256((count - 1) as nat) }
}

/// The `count` lowest bytes of `v`, most significant first.
pub open spec fn be_bytes(v: nat, count: nat) -> Seq<u8>
    decreases count,
{
    if count == 0 {
        Seq::empty()
    } else {
        be_bytes(v / 256, (count - 1) as nat).push((v % 256) as u8)
    }
}

/// The number whose big-endian bytes are `bytes`.
pub open spec fn be_value(bytes: Seq<u8>) -> nat
    decreases bytes.len(),
{
    if bytes.len() == 0 {
        0
    } else {
        be_value(bytes.drop_last()) * 256 + (bytes.last() as nat)
    }
}

/// The signed part of a token: the session id (16 bytes) and the issue
/// time in seconds (8 bytes), big-endian.
pub open spec fn token_body(id: u128, issued_at: u64) -> Seq<u8> {
    be_bytes(id as nat, 16) + be_bytes(issued_at as nat, 8)
}

/// The 56 bytes of a token: its body followed by the body's HMAC-SHA256 tag.
pub open spec fn signed_payload(key: Seq<u8>, id: u128, issued_at: u64) -> Seq<u8> {
    token_body(id, issued_at) + hmac_sha256_tag(key, token_body(id, issued_at))@
}

/// The token text issued under `key` for session `id` at `issued_at`.
pub open spec fn token_text(key: Seq<u8>, id: u128, issued_at: u64) -> Seq<char> {
    base64url_encoding(signed_payload(key, id, issued_at))
}

/// The session a token text stands for under `key`: it must decode to 56
/// bytes whose last 32 are the tag of the first 24; the session id is the
/// big-endian value of the first 16.
pub open spec fn token_reading(key: Seq<u8>, text: Seq<char>) -> Option<SessionId> {
    match base64url_decoding(text) {
        Some(p) => if p.len() == 56 && p.subrange(24, 56) == hmac_sha256_tag(key, p.subrange(0, 24))@ {
            Some(SessionId(be_value(p.subrange(0, 16)) as u128))
        } else {
            None
        },
        None => None,
    }
}

proof fn lemma_be_bytes_len(v: nat, count: nat)
    ensures
        be_bytes(v, count).len() == count,
    decreases count,
{
    if count > 0 {
        lemma_be_bytes_len(v / 256, (count - 1) as nat);
    }
}

proof fn lemma_be_value_of_bytes(v: nat, count: nat)
    requires
        v < pow256(count),
    ensures
        be_value(be_bytes(v, count)) == v,
    decreases count,
{
    if count > 0 {
        let p = pow256((count - 1) as nat);
        assert(v / 256 < p) by (nonlinear_arith)
            requires
                v < 256 * p,
        ;
        lemma_be_value_of_bytes(v / 256, (count - 1) as nat);
        let b = be_bytes(v, count);
        assert(b.drop_last() =~= be_bytes(v / 256, (count - 1) as nat));
    }
}

proof fn lemma_be_value_bound(bytes: Seq<u8>)
    ensures
        be_value(bytes) < pow256(bytes.len()),
    decreases bytes.len(),
{
    if bytes.len() > 0 {
        lemma_be_value_bound(bytes.drop_last());
        let a = be_value(bytes.drop_last());
        let p = pow256(bytes.drop_last().len());
        assert(a * 256 + bytes.last() < 256 * p) by (nonlinear_arith)
            requires
                a < p,
                bytes.last() < 256,
        ;
    }
}

proof fn lemma_pow256_16()
    ensures
        pow256(16) == 0x1_0000_0000_0000_0000_0000_0000_0000_0000,
{
    reveal_with_fuel(pow256, 17);
}

/// The layout of the bytes a token encodes: 56 bytes, the session id in
/// 16 big-endian bytes, the issue time in 8 big-endian bytes, then the
/// HMAC-SHA256 tag of those 24 bytes under the key; its text is 75
/// characters long.
pub proof fn lemma_token_layout(key: Seq<u8>, id: u128, issued_at: u64)
    ensures
        signed_payload(key, id, issued_at).len() == 56,
        signed_payload(key, id, issued_at).subrange(0, 16) == be_bytes(id as nat, 16),
        signed_payload(key, id, issued_at).subrange(16, 24) == be_bytes(issued_at as nat, 8),
        signed_payload(key, id, issued_at).subrange(24, 56)
            == hmac_sha256_tag(key, signed_payload(key, id, issued_at).subrange(0, 24))@,
        base64url_len(56) == 75,
{
    lemma_be_bytes_len(id as nat, 16);
    lemma_be_bytes_len(issued_at as nat, 8);
    let p = signed_payload(key, id, issued_at);
    let body = token_body(id, issued_at);
    assert(hmac_sha256_tag(key, body)@.len() == 32);
    assert(p.subrange(0, 24) =~= body);
    assert(p.subrange(0, 16) =~= be_bytes(id as nat, 16));
    assert(p.subrange(16, 24) =~= be_bytes(issued_at as nat, 8));
    assert(p.subrange(24, 56) =~= hmac_sha256_tag(key, body)@);
}

/// A token whose text decodes to the payload signed under `key` for `id`
/// is read back, under the same key, as `id`.
pub proof fn lemma_token_roundtrip(key: Seq<u8>, id: u128, issued_at: u64, text: Seq<char>)
    requires
        base64url_decoding(text) == Some(signed_payload(key, id, issued_at)),
    ensures
        token_reading(key, text) == Some(SessionId(id)),
{
    let p = signed_payload(key, id, issued_at);
    let body = token_body(id, issued_at);
    lemma_be_bytes_len(id as nat, 16);
    lemma_be_bytes_len(issued_at as nat, 8);
    assert(body.len() == 24);
    let tag = hmac_sha256_tag(key, body);
    assert(tag@.len() == 32);
    assert(p.len() == 56);
    assert(p.subrange(0, 24) =~= body);
    assert(p.subrange(24, 56) =~= tag@);
    assert(p.subrange(0, 16) =~= be_bytes(id as nat, 16));
    lemma_pow256_16();
    lemma_be_value_of_bytes(id as nat, 16);
}

fn push_be_bytes(out: &mut Vec<u8>, v: u128, count: u8)
    ensures
        final(out)@ == old(out)@ + be_bytes(v as nat, count as nat),
    decreases count,
{
    if count > 0 {
        push_be_bytes(out, v / 256, count - 1);
        out.push((v % 256) as u8);
    }
    assert(final(out)@ =~= old(out)@ + be_bytes(v as nat, count as nat));
}

fn be_value_of(bytes: &[u8], from: usize, to: usize) -> (v: u128)
    requires
        from <= to <= bytes@.len(),
        to - from <= 16,
    ensures
        v as nat == be_value(bytes@.subrange(from as int, to as int)),
{
    let mut acc: u128 = 0;
    let mut i = from;
    proof {
        lemma_pow256_16();
    }
    while i < to
        invariant
            from <= i <= to <= bytes@.len(),
            to - from <= 16,
            acc as nat == be_value(bytes@.subrange(from as int, i as int)),
            pow256(16) == 0x1_0000_0000_0000_0000_0000_0000_0000_0000,
        decreases to - i,
    {
        let ghost s = bytes@.subrange(from as int, i as int);
        let ghost s2 = bytes@.subrange(from as int, i + 1);
        proof {
            assert(s2.drop_last() =~= s);
            lemma_be_value_bound(s2);
            lemma_pow_mono((i + 1 - from) as nat, 16);
        }
        acc = acc * 256 + bytes[i] as u128;
        i = i + 1;
    }
    acc
}

proof fn lemma_pow_mono(a: nat, b: nat)
    requires
        a <= b,
    ensures
        pow256(a) <= pow256(b),
    decreases b,
{
    if a < b {
        lemma_pow_mono(a, (b - 1) as nat);
        assert(pow256((b - 1) as nat) >= 1) by {
            lemma_pow_pos((b - 1) as nat);
        }
    }
}

proof fn lemma_pow_pos(a: nat)
    ensures
        pow256(a) >= 1,
    decreases a,
{
    if a > 0 {
        lemma_pow_pos((a - 1) as nat);
    }
}

/// Issues and checks signed session tokens.
pub struct SessionManager {
    key: Vec<u8>,
}

impl SessionManager {
    /// The signing key.
    pub closed spec fn key(&self) -> Seq<u8> {
        self.key@
    }

    /// A manager that signs with `secret`.
    pub fn new(secret: &[u8]) -> (m: Self)
        ensures
            m.key() == secret@,
    {
        SessionManager { key: vstd::slice::slice_to_vec(secret) }
    }

    /// The token for `session_id`, issued at `issued_at` (seconds since the
    /// Unix epoch): unpadded URL-safe base64 of id, issue time and tag.
    pub fn create_token_at(&self, session_id: SessionId, issued_at: u64) -> (token: String)
        ensures
            token@ == token_text(self.key(), session_id.0, issued_at),
            base64url_decoding(token@) == Some(signed_payload(self.key(), session_id.0, issued_at)),
            token_reading(self.key(), token@) == Some(session_id),
            token@.len() == 75,
            forall|i: int| 0 <= i < token@.len() ==> is_b64url_char(#[trigger] token@[i]),
    {
        let mut body: Vec<u8> = Vec::new();
        push_be_bytes(&mut body, session_id.0, 16);
        push_be_bytes(&mut body, issued_at as u128, 8);
        assert(body@ =~= token_body(session_id.0, issued_at));
        let tag = hmac_sha256(self.key.as_slice(), body.as_slice());
        let mut payload = body;
        let mut i: usize = 0;
        while i < 32
            invariant
                i <= 32,
                tag@.len() == 32,
                payload@ == token_body(session_id.0, issued_at) + tag@.subrange(0, i as int),
            decreases 32 - i,
        {
            payload.push(tag[i]);
            i = i + 1;
            assert(payload@ =~= token_body(session_id.0, issued_at) + tag@.subrange(0, i as int));
        }
        assert(tag@.subrange(0, 32) =~= tag@);
        let token = base64url_encode(payload.as_slice());
        proof {
            lemma_token_roundtrip(self.key(), session_id.0, issued_at, token@);
            lemma_token_layout(self.key(), session_id.0, issued_at);
            lemma_base64url_shape(payload@);
        }
        token
    }

    /// A token for `session_id`, issued now.
    pub fn create_token(&self, session_id: SessionId) -> (token: String)
        ensures
            exists|issued_at: u64|
                {
                    &&& token@ == #[trigger] token_text(self.key(), session_id.0, issued_at)
                    &&& base64url_decoding(token@) == Some(signed_payload(self.key(), session_id.0, issued_at))
                },
            token_reading(self.key(), token@) == Some(session_id),
            token@.len() == 75,
            forall|i: int| 0 <= i < token@.len() ==> is_b64url_char(#[trigger] token@[i]),
    {
        let issued_at = secs_of_epoch_nanos(unix_time_nanos());
        self.create_token_at(session_id, issued_at)
    }

    /// The session a token stands for, if it is well formed and signed with
    /// this manager's key.
    pub fn verify_token(&self, token: &str) -> (id: Option<SessionId>)
        ensures
            id == token_reading(self.key(), token@),
            id is Some ==> token@.len() == 75 && forall|i: int| 0 <= i < token@.len() ==> is_b64url_char(#[trigger] token@[i]),
    {
        let payload = match base64url_decode(token) {
            Some(p) => p,
            None => return None,
        };
        if payload.len() != 56 {
            return None;
        }
        proof {
            lemma_base64url_shape(payload@);
        }
        let p = payload.as_slice();
        let body = vstd::slice::slice_subrange(p, 0, 24);
        let signature = vstd::slice::slice_subrange(p, 24, 56);
        if !hmac_sha256_verify(self.key.as_slice(), body, signature) {
            return None;
        }
        let v = be_value_of(p, 0, 16);
        Some(SessionId(v))
    }
}

} // verus!
