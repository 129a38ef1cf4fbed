use rand::Rng;
use vstd::prelude::*;

verus! {

/// Fills a buffer of `len` bytes from `rand::rng()` (the thread-local
/// generator) with `Rng::fill`. Claimed: the buffer has `len` bytes. Nothing
/// is stated of its contents: they are random.
#[verifier::external_body]
fn random_bytes(len: usize) -> (b: Vec<u8>)
    ensures
        b@.len() == len,
{
    let mut b = vec![0u8; len];
    rand::rng().fill(&mut b[..]);
    b
}

/// A fresh random 32-byte signing secret.
pub fn generate_hmac_secret() -> (secret: Vec<u8>)
    ensures
        secret@.len() == 32,
{
    random_bytes(32)
}

/// The stored text of the shared on/off flag.
pub open spec fn enabled_flag_spec(on: bool) -> Seq<char> {
    if on { "1"@ } else { "0"@ }
}

/// The text stored for the shared on/off flag: "1" for on, "0" for off.
pub fn enabled_flag_text(on: bool) -> (t: &'static str)
    ensures
        t@ == enabled_flag_spec(on),
{
    if on { "1" } else { "0" }
}

/// Reads the shared on/off flag: on exactly when it is stored as "1"; off
/// when it is missing or holds anything else.
pub fn parse_enabled_flag(stored: Option<&str>) -> (on: bool)
    ensures
        on == (stored is Some && stored->0@ == "1"@),
{
    match stored {
        Some(v) => crate::text::same_text(v, "1"),
        None => false,
    }
}

/// The flag reads back as what was stored.
pub proof fn lemma_enabled_flag_roundtrip(on: bool)
    ensures
        (enabled_flag_spec(on) == "1"@) == on,
{
    reveal_strlit("1");
    reveal_strlit("0");
    assert("0"@[0] != "1"@[0]);
}

} // verus!
