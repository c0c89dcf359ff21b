//! The key that identifies a generated game: the seed of its random number generator, written as
//! URL-safe base64 without padding
use vstd::prelude::*;

use base64::DecodeError;
use rand::rngs::StdRng;

use crate::random::{gen_seed, random_seed, std_rng_from_seed};

verus! {

/// An error of `base64` decoding (an opaque value of `base64`)
#[verifier::external_type_specification]
#[verifier::external_body]
pub struct ExDecodeError(DecodeError);

/// The URL-safe base64 text, without padding, of the given bytes
pub uninterp spec fn base64_url_encoding(bytes: Seq<u8>) -> Seq<char>;

/// The bytes that the given URL-safe base64 text without padding stands for, if it is valid
pub uninterp spec fn base64_url_decoding(text: Seq<char>) -> Option<Seq<u8>>;

/// `base64::encode_config` with the URL-safe character set and no padding (`URL_SAFE_NO_PAD`).
/// The text is named by `base64_url_encoding`; decoding it gives the bytes back.
#[verifier::external_body]
fn encode_url_safe(bytes: &[u8; 32]) -> (r: String)
    ensures
        r@ == base64_url_encoding(bytes@),
        base64_url_decoding(r@) == Some(bytes@),
{
    base64::encode_config(bytes, base64::URL_SAFE_NO_PAD)
}

/// `base64::decode_config` with the URL-safe character set and no padding (`URL_SAFE_NO_PAD`).
/// It succeeds exactly when `base64_url_decoding` names some bytes, and then gives those bytes.
/// Which error comes otherwise is left open.
#[verifier::external_body]
fn decode_url_safe(text: &str) -> (r: Result<Vec<u8>, DecodeError>)
    ensures
        r is Ok <==> base64_url_decoding(text@) is Some,
        r matches Ok(v) ==> Some(v@) == base64_url_decoding(text@),
{
    base64::decode_config(text, base64::URL_SAFE_NO_PAD)
}

/// Why a text is not a map key
#[derive(Debug)]
pub enum InvalidMapKey {
    /// The text decodes to more or fewer bytes than a seed has
    InvalidLength,
    /// The text is not valid base64
    DecodeError(DecodeError),
}

/// What reading a key from a text gives: an error when the text is not base64, another when it
/// stands for more or fewer bytes than a seed has, and else the key with those bytes
pub open spec fn reads_key(text: Seq<char>, r: Result<MapKey, InvalidMapKey>) -> bool {
    &&& (base64_url_decoding(text) is None <==> (r is Err && r->Err_0 is DecodeError))
    &&& (base64_url_decoding(text) is Some && base64_url_decoding(text).unwrap().len() != 32 <==> (r is Err
        && r->Err_0 is InvalidLength))
    &&& (base64_url_decoding(text) is Some && base64_url_decoding(text).unwrap().len() == 32 <==> r is Ok)
    &&& (r is Ok ==> Some(r->Ok_0.0@) == base64_url_decoding(text))
}

/// Uniquely identifies a map. Can be passed to the generator to recreate a specific map.
#[derive(Debug, Clone, Copy, PartialEq, Eq)]
pub struct MapKey(pub [u8; 32]);

impl MapKey {
    /// The generator of random numbers that this key starts
    pub fn to_rng(self) -> StdRng {
        std_rng_from_seed(self.0)
    }

    /// A key drawn from the given generator of random numbers
    pub fn sample(rng: &mut StdRng) -> MapKey {
        MapKey(gen_seed(rng))
    }

    /// A key drawn from the generator of random numbers of the current thread
    pub fn random() -> MapKey {
        MapKey(random_seed())
    }

    /// The text of the key: its seed in URL-safe base64 without padding
    pub fn to_string(&self) -> (r: String)
        ensures
            r@ == base64_url_encoding(self.0@),
            base64_url_decoding(r@) == Some(self.0@),
    {
        encode_url_safe(&self.0)
    }

    /// Reads a key from its text. The text must be valid base64 and stand for exactly as many
    /// bytes as a seed has.
    pub fn from_str(s: &str) -> (r: Result<MapKey, InvalidMapKey>)
        ensures
            reads_key(s@, r),
    {
        let decoded = match decode_url_safe(s) {
            Ok(d) => d,
            Err(err) => return Err(InvalidMapKey::DecodeError(err)),
        };
        if decoded.len() != 32 {
            return Err(InvalidMapKey::InvalidLength);
        }
        let mut key: [u8; 32] = [0u8; 32];
        let mut i: usize = 0;
        while i < 32
            invariant
                decoded@.len() == 32,
                i <= 32,
                forall|k: int| 0 <= k < i ==> key@[k] == decoded@[k],
            decreases 32 - i,
        {
            key[i] = decoded[i];
            i += 1;
        }
        assert(key@ =~= decoded@);
        Ok(MapKey(key))
    }
}

/// A key can be read back from its own text: reading a text that stands for the bytes of a key,
/// as the text given by `to_string` does, gives that very key
pub proof fn lemma_key_text_round_trip(k: MapKey, text: Seq<char>, r: Result<MapKey, InvalidMapKey>)
    requires
        base64_url_decoding(text) == Some(k.0@),
        reads_key(text, r),
    ensures
        r matches Ok(key) && key == k,
{
    broadcast use vstd::array::lemma_array_index;
    let key = r->Ok_0;
    assert(key.0@ == k.0@);
    assert forall|i: int| 0 <= i < 32 implies key.0[i] == k.0[i] by {
        assert(key.0@[i] == k.0@[i]);
    }
    assert(key.0 =~= k.0);
}

} // verus!
