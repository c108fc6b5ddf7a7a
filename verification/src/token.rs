//! Session tokens.
//!
//! A token is an opaque byte string: the key under which a session is
//! stored. The store never looks inside one. The tokens that the store
//! issues are thirty-two lower-case hexadecimal digits, written from
//! sixteen bytes of the system's random source.

use vstd::prelude::*;
use vstd::slice::slice_to_vec;
use vstd::utf8::*;
use crate::text::{bytes_eq, text_of};

verus! {

/// The digit that writes a value below sixteen in hexadecimal, as a byte
/// of ASCII: `0` to `9`, then `a` to `f`.
pub open spec fn hex_digit(nibble: u8) -> u8 {
    if nibble < 10 {
        (48 + nibble) as u8
    } else {
        (87 + nibble) as u8
    }
}

/// The bytes written in hexadecimal, two digits for each, the high half
/// first.
pub open spec fn hex_bytes(data: Seq<u8>) -> Seq<u8> {
    Seq::new(
        2 * data.len(),
        |i: int|
            if i % 2 == 0 {
                hex_digit(data[i / 2] / 16)
            } else {
                hex_digit(data[i / 2] % 16)
            },
    )
}

/// Whether a byte is a lower-case hexadecimal digit.
pub open spec fn is_hex_digit(byte: u8) -> bool {
    (48 <= byte <= 57) || (97 <= byte <= 102)
}

/// The form of the tokens that the store issues: thirty-two lower-case
/// hexadecimal digits.
pub open spec fn is_issued_form(token: Seq<u8>) -> bool {
    &&& token.len() == 32
    &&& forall|i: int| 0 <= i < token.len() ==> is_hex_digit(#[trigger] token[i])
}

/// Writing in hexadecimal loses nothing: bytes that are written alike
/// are alike.
pub proof fn lemma_hex_bytes_injective(a: Seq<u8>, b: Seq<u8>)
    requires
        hex_bytes(a) == hex_bytes(b),
    ensures
        a == b,
{
    assert(hex_bytes(a).len() == 2 * a.len());
    assert(hex_bytes(b).len() == 2 * b.len());
    assert forall|i: int| 0 <= i < a.len() implies a[i] == b[i] by {
        let high = 2 * i;
        let low = 2 * i + 1;
        assert(high % 2 == 0 && high / 2 == i);
        assert(low % 2 == 1 && low / 2 == i);
        assert(hex_bytes(a)[high] == hex_digit(a[i] / 16));
        assert(hex_bytes(b)[high] == hex_digit(b[i] / 16));
        assert(hex_bytes(a)[low] == hex_digit(a[i] % 16));
        assert(hex_bytes(b)[low] == hex_digit(b[i] % 16));
        assert(a[i] / 16 == b[i] / 16);
        assert(a[i] % 16 == b[i] % 16);
    }
    assert(a =~= b);
}

/// Sixteen bytes written in hexadecimal have the issued form.
pub proof fn lemma_hex_is_issued_form(data: Seq<u8>)
    requires
        data.len() == 16,
    ensures
        is_issued_form(hex_bytes(data)),
{
    assert forall|i: int| 0 <= i < hex_bytes(data).len() implies is_hex_digit(
        #[trigger] hex_bytes(data)[i],
    ) by {
        let byte = data[i / 2];
        assert(byte / 16 < 16 && byte % 16 < 16);
    }
}

/// A token of the issued form is text: its bytes are UTF-8.
pub proof fn lemma_issued_form_is_text(token: Seq<u8>)
    requires
        is_issued_form(token),
    ensures
        valid_utf8(token),
{
    let chars = Seq::new(token.len(), |i: int| token[i] as char);
    assert(is_ascii_chars(chars)) by {
        assert forall|i: int| 0 <= i < chars.len() implies '\0' <= #[trigger] chars[i]
            <= '\u{7f}' by {
            assert(is_hex_digit(token[i]));
        }
    }
    is_ascii_chars_encode_utf8(chars);
    assert forall|i: int| 0 <= i < token.len() implies encode_utf8(chars)[i] == token[i] by {
        assert(chars[i] as u8 == encode_utf8(chars)[i]);
        assert(is_hex_digit(token[i]));
    }
    assert(encode_utf8(chars) =~= token);
    encode_utf8_valid_utf8(chars);
}

/// An opaque session token.
#[derive(Debug, PartialEq, Eq, Hash)]
pub struct Token {
    bytes: Vec<u8>,
}

impl View for Token {
    type V = Seq<u8>;

    closed spec fn view(&self) -> Seq<u8> {
        self.bytes@
    }
}

impl Clone for Token {
    fn clone(&self) -> (copy: Self)
        ensures
            copy@ == self@,
    {
        Token { bytes: slice_to_vec(self.bytes.as_slice()) }
    }
}

impl Token {
    /// The token with the given bytes.
    pub fn from_bytes(bytes: Vec<u8>) -> (token: Self)
        ensures
            token@ == bytes@,
    {
        Token { bytes }
    }

    /// The token that a text names: its UTF-8 bytes.
    pub fn from_text(text: &str) -> (token: Self)
        ensures
            token@ == encode_utf8(text@),
    {
        Token { bytes: slice_to_vec(text.as_bytes()) }
    }

    /// The token written from sixteen bytes of entropy.
    pub fn from_entropy(entropy: &[u8; 16]) -> (token: Self)
        ensures
            token@ == hex_bytes(entropy@),
            is_issued_form(token@),
    {
        let mut bytes: Vec<u8> = Vec::new();
        let mut i: usize = 0;
        while i < 16
            invariant
                i <= 16,
                entropy@.len() == 16,
                bytes@.len() == 2 * i,
                forall|j: int| 0 <= j < 2 * i ==> #[trigger] bytes@[j] == hex_bytes(entropy@)[j],
                forall|j: int| 0 <= j < 2 * i ==> is_hex_digit(#[trigger] bytes@[j]),
            decreases 16 - i,
        {
            let byte = entropy[i];
            bytes.push(hex_digit_of(byte / 16));
            bytes.push(hex_digit_of(byte % 16));
            i += 1;
        }
        assert(bytes@ =~= hex_bytes(entropy@));
        Token { bytes }
    }

    /// The bytes of the token.
    pub fn as_bytes(&self) -> (bytes: &[u8])
        ensures
            bytes@ == self@,
    {
        self.bytes.as_slice()
    }

    /// The token as text, where its bytes are UTF-8.
    pub fn to_text(&self) -> (text: Option<String>)
        ensures
            text matches Some(s) ==> encode_utf8(s@) == self@,
            text is Some <==> valid_utf8(self@),
    {
        text_of(slice_to_vec(self.bytes.as_slice()))
    }

    /// Whether two tokens are the same.
    pub fn same_as(&self, other: &Token) -> (same: bool)
        ensures
            same == (self@ == other@),
    {
        bytes_eq(self.bytes.as_slice(), other.bytes.as_slice())
    }
}

/// The hexadecimal digit for a value below sixteen.
pub fn hex_digit_of(nibble: u8) -> (digit: u8)
    requires
        nibble < 16,
    ensures
        digit == hex_digit(nibble),
        is_hex_digit(digit),
{
    if nibble < 10 {
        48 + nibble
    } else {
        87 + nibble
    }
}

/// `getrandom::getrandom` on a block of sixteen bytes: the block as the
/// system's random source filled it, or `None` where the source failed.
/// Nothing is claimed of the bytes.
#[verifier::external_body]
pub(crate) fn random_block() -> (block: Option<[u8; 16]>) {
    let mut block = [0u8; 16];
    match getrandom::getrandom(&mut block) {
        Ok(()) => Some(block),
        Err(_) => None,
    }
}

} // verus!
