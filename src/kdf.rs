use vstd::prelude::*;
use vstd::string::*;
use vstd::utf8::*;

use crate::hex::{encode_hex_prefix, hex_of, is_lower_hex_char, lemma_hex_of_format};

verus! {

/// Number of PBKDF2 rounds used for every derived key.
pub const ITERATIONS: u32 = 4096;

/// Length in bytes of the PBKDF2-HMAC-SHA256 output (one SHA-256 block).
pub const KEY_LENGTH: usize = 32;

/// Number of leading output bytes kept in a derived key.
pub const PMK_BYTES: usize = 16;

/// Number of characters of a derived key in hex.
pub const PMK_HEX_LEN: usize = 32;

/// The `len` bytes that PBKDF2 with HMAC-SHA256 derives from `password`
/// and `salt` in `rounds` rounds.
pub uninterp spec fn pbkdf2_hmac_sha256_of(
    password: Seq<u8>,
    salt: Seq<u8>,
    rounds: u32,
    len: nat,
) -> Seq<u8>;

/// Relies on `pbkdf2::pbkdf2_hmac::<sha2::Sha256>`: it fills the whole output
/// buffer with the key derived from the password, the salt and the round
/// count, and cannot fail with HMAC as the PRF.
#[verifier::external_body]
fn pbkdf2_hmac_sha256(password: &[u8], salt: &[u8], rounds: u32, out: &mut Vec<u8>)
    ensures
        final(out)@ == pbkdf2_hmac_sha256_of(password@, salt@, rounds, old(out)@.len()),
        final(out)@.len() == old(out)@.len(),
{
    pbkdf2::pbkdf2_hmac::<sha2::Sha256>(password, salt, rounds, out.as_mut_slice());
}

/// The derived key of `password` for the network `network`, as text: the
/// first sixteen bytes of PBKDF2-HMAC-SHA256 over the UTF-8 bytes of both,
/// with the network as salt, in lowercase hex.
pub open spec fn pmk_hex(password: Seq<char>, network: Seq<char>) -> Seq<char> {
    hex_of(
        pbkdf2_hmac_sha256_of(
            encode_utf8(password),
            encode_utf8(network),
            ITERATIONS,
            KEY_LENGTH as nat,
        ).subrange(0, PMK_BYTES as int),
    )
}

/// Whether `s` is a derived key as text: 32 lowercase hex digits.
pub open spec fn is_pmk_text(s: Seq<char>) -> bool {
    &&& s.len() == PMK_HEX_LEN
    &&& forall|i: int| 0 <= i < s.len() ==> is_lower_hex_char(#[trigger] s[i])
}

/// Whether the PBKDF2 output that `pmk_hex` truncates has its full length.
pub open spec fn pbkdf2_output_complete(password: Seq<char>, network: Seq<char>) -> bool {
    pbkdf2_hmac_sha256_of(encode_utf8(password), encode_utf8(network), ITERATIONS, KEY_LENGTH as nat).len()
        == KEY_LENGTH
}

/// Every derived key, whatever the password and network, is 32 lowercase hex
/// digits, provided the PBKDF2 output has its full length (which
/// `derive` observes on each call).
pub proof fn lemma_pmk_format(password: Seq<char>, network: Seq<char>)
    requires
        pbkdf2_output_complete(password, network),
    ensures
        is_pmk_text(pmk_hex(password, network)),
{
    let full = pbkdf2_hmac_sha256_of(
        encode_utf8(password),
        encode_utf8(network),
        ITERATIONS,
        KEY_LENGTH as nat,
    );
    lemma_hex_of_format(full.subrange(0, PMK_BYTES as int));
}

/// Deriving is deterministic: the same password and network give the same
/// key, on every call and in every run, as `derive` returns `pmk_hex` of its
/// arguments.
pub proof fn lemma_derive_deterministic(
    password1: Seq<char>,
    network1: Seq<char>,
    password2: Seq<char>,
    network2: Seq<char>,
)
    requires
        password1 == password2,
        network1 == network2,
    ensures
        pmk_hex(password1, network1) == pmk_hex(password2, network2),
{
}

/// Derives the key of `password` for the network `network` (used as salt).
/// The result is a function of the two texts alone, and is always 32
/// lowercase hex digits.
pub fn derive(password: &str, network: &str) -> (r: String)
    ensures
        r@ == pmk_hex(password@, network@),
        is_pmk_text(r@),
{
    let mut full: Vec<u8> = vec![0u8; KEY_LENGTH];
    pbkdf2_hmac_sha256(password.as_bytes(), network.as_bytes(), ITERATIONS, &mut full);
    let r = encode_hex_prefix(full.as_slice(), PMK_BYTES);
    proof {
        lemma_pmk_format(password@, network@);
    }
    r
}

} // verus!
