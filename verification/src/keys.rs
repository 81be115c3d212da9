use vstd::prelude::*;
use vstd::utf8::encode_utf8;

verus! {

/// The number of bytes of a secret key.
pub const SECRET_LEN: usize = 32;

/// The number of bytes of a public key.
pub const PUBLIC_LEN: usize = 33;

/// Why a text is not the hexadecimal form of a key.
#[derive(Clone, Copy, Debug, PartialEq, Eq, Structural)]
pub enum HexError {
    /// The byte `c` at `index` is no hexadecimal digit.
    InvalidHexCharacter { c: char, index: usize },
    /// The text has an odd number of bytes.
    OddLength,
    /// The text does not have two digits for each byte of the key.
    InvalidStringLength,
}

/// Whether the byte is one of `0-9`, `a-f`, `A-F`.
pub open spec fn is_hex_digit(b: u8) -> bool {
    (0x30 <= b <= 0x39) || (0x61 <= b <= 0x66) || (0x41 <= b <= 0x46)
}

/// The number that a hexadecimal digit stands for.
pub open spec fn hex_value(b: u8) -> int {
    if 0x30 <= b <= 0x39 {
        b - 0x30
    } else if 0x61 <= b <= 0x66 {
        b - 0x61 + 10
    } else {
        b - 0x41 + 10
    }
}

/// Whether `i` is the first index in `data` that holds no hexadecimal digit.
pub open spec fn first_bad_digit(data: Seq<u8>, i: int) -> bool {
    &&& 0 <= i < data.len()
    &&& !is_hex_digit(data[i])
    &&& forall|j: int| 0 <= j < i ==> is_hex_digit(#[trigger] data[j])
}

/// Whether every byte of `data` is a hexadecimal digit.
pub open spec fn all_hex_digits(data: Seq<u8>) -> bool {
    forall|j: int| 0 <= j < data.len() ==> is_hex_digit(#[trigger] data[j])
}

/// The bytes that the digits of `data` spell, two digits to a byte, the high
/// digit first.
pub open spec fn hex_bytes(data: Seq<u8>) -> Seq<u8> {
    Seq::new(
        data.len() / 2,
        |i: int| (hex_value(data[2 * i]) * 16 + hex_value(data[2 * i + 1])) as u8,
    )
}

/// Whether decoding `data` into `n` bytes fails with `e`: an odd length comes
/// first, then a length that is not `2 * n`, then the first byte that is no
/// digit.
pub open spec fn hex_fails(data: Seq<u8>, n: int, e: HexError) -> bool {
    match e {
        HexError::OddLength => data.len() % 2 != 0,
        HexError::InvalidStringLength => data.len() % 2 == 0 && data.len() / 2 != n,
        HexError::InvalidHexCharacter { c, index } => data.len() % 2 == 0 && data.len() / 2 == n
            && first_bad_digit(data, index as int) && c == data[index as int] as char,
    }
}

/// Whether `data` is the hexadecimal form of `n` bytes.
pub open spec fn is_hex_of_len(data: Seq<u8>, n: int) -> bool {
    data.len() == 2 * n && all_hex_digits(data)
}

/// `hex::decode_to_slice` into an array of `N` bytes. The contract claims
/// that the call succeeds exactly on `2 * N` hexadecimal digits and then
/// fills the array with the bytes they spell; that it reports an odd length
/// before a wrong length, and a wrong length before a bad digit; and that a
/// bad digit is reported with the first index at which one stands.
#[verifier::external_body]
fn decode_hex<const N: usize>(data: &[u8]) -> (r: Result<[u8; N], HexError>)
    ensures
        match r {
            Ok(out) => is_hex_of_len(data@, N as int) && out@ == hex_bytes(data@),
            Err(e) => hex_fails(data@, N as int, e),
        },
{
    let mut out = [0u8; N];
    match hex::decode_to_slice(data, &mut out) {
        Ok(()) => Ok(out),
        Err(hex::FromHexError::InvalidHexCharacter { c, index }) => Err(
            HexError::InvalidHexCharacter { c, index },
        ),
        Err(hex::FromHexError::OddLength) => Err(HexError::OddLength),
        Err(hex::FromHexError::InvalidStringLength) => Err(HexError::InvalidStringLength),
    }
}

/// Reads a public key from its hexadecimal form.
pub fn public_key_from_hex(pk: &str) -> (r: Result<[u8; 33], HexError>)
    ensures
        match r {
            Ok(key) => is_hex_of_len(encode_utf8(pk@), PUBLIC_LEN as int) && key@ == hex_bytes(
                encode_utf8(pk@),
            ),
            Err(e) => hex_fails(encode_utf8(pk@), PUBLIC_LEN as int, e),
        },
{
    decode_hex::<33>(pk.as_bytes())
}

/// The signature capability of the service: a secret key and the public key
/// that belongs to it.
#[derive(Debug, PartialEq, Eq)]
pub struct SecpKey {
    pub sk: [u8; 32],
    pub pk: [u8; 33],
}

impl Clone for SecpKey {
    fn clone(&self) -> (r: Self)
        ensures
            r == *self,
    {
        SecpKey { sk: self.sk, pk: self.pk }
    }
}

impl SecpKey {
    /// Reads a key pair from the hexadecimal forms of its two keys. The
    /// secret key is read first, so its fault is the one reported where both
    /// texts are faulty.
    pub fn from_hex(sk: &str, pk: &str) -> (r: Result<SecpKey, HexError>)
        ensures
            match r {
                Ok(key) => is_hex_of_len(encode_utf8(sk@), SECRET_LEN as int) && is_hex_of_len(
                    encode_utf8(pk@),
                    PUBLIC_LEN as int,
                ) && key.sk@ == hex_bytes(encode_utf8(sk@)) && key.pk@ == hex_bytes(
                    encode_utf8(pk@),
                ),
                Err(e) => hex_fails(encode_utf8(sk@), SECRET_LEN as int, e) || (is_hex_of_len(
                    encode_utf8(sk@),
                    SECRET_LEN as int,
                ) && hex_fails(encode_utf8(pk@), PUBLIC_LEN as int, e)),
            },
    {
        let secret = match decode_hex::<32>(sk.as_bytes()) {
            Ok(bytes) => bytes,
            Err(e) => {
                return Err(e);
            },
        };
        let public = match decode_hex::<33>(pk.as_bytes()) {
            Ok(bytes) => bytes,
            Err(e) => {
                return Err(e);
            },
        };
        Ok(SecpKey { sk: secret, pk: public })
    }

    /// Whether `presented` is this capability's public key.
    pub fn matches(&self, presented: &[u8; 33]) -> (r: bool)
        ensures
            r == (presented@ == self.pk@),
    {
        let mut i: usize = 0;
        while i < 33
            invariant
                i <= 33,
                forall|j: int| 0 <= j < i ==> presented@[j] == self.pk@[j],
            decreases 33 - i,
        {
            if presented[i] != self.pk[i] {
                return false;
            }
            i += 1;
        }
        proof {
            assert(presented@ =~= self.pk@);
        }
        true
    }
}

/// A text is the hexadecimal form of `n` bytes, or decoding it fails in one
/// way only: the two never hold together, and one fault excludes the others.
pub proof fn lemma_hex_fault_unique(data: Seq<u8>, n: int, e1: HexError, e2: HexError)
    requires
        hex_fails(data, n, e1),
        hex_fails(data, n, e2),
    ensures
        e1 == e2,
        !is_hex_of_len(data, n),
{
    match (e1, e2) {
        (
            HexError::InvalidHexCharacter { c: c1, index: i1 },
            HexError::InvalidHexCharacter { c: c2, index: i2 },
        ) => {
            if i1 < i2 {
                assert(is_hex_digit(data[i1 as int]));
            } else if i2 < i1 {
                assert(is_hex_digit(data[i2 as int]));
            }
        },
        _ => {},
    }
    match e1 {
        HexError::InvalidHexCharacter { c, index } => {
            if all_hex_digits(data) {
                assert(is_hex_digit(data[index as int]));
            }
        },
        _ => {},
    }
}

} // verus!
