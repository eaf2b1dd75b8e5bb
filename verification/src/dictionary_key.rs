use vstd::prelude::*;

verus! {

/// The lowercase hexadecimal digit of a number below 16.
pub open spec fn hex_digit(n: int) -> char {
    if n < 10 {
        (48 + n) as char
    } else {
        (87 + n) as char
    }
}

/// Each byte as two lowercase hexadecimal digits, most significant first.
pub open spec fn hex_encoding(bytes: Seq<u8>) -> Seq<char>
    decreases bytes.len(),
{
    if bytes.len() == 0 {
        Seq::empty()
    } else {
        seq![hex_digit(bytes[0] as int / 16), hex_digit(bytes[0] as int % 16)] + hex_encoding(bytes.drop_first())
    }
}

/// `hex::encode`: the bytes as lowercase hexadecimal, two digits per byte.
#[verifier::external_body]
fn hex_encode(bytes: &[u8]) -> (text: String)
    ensures
        text@ == hex_encoding(bytes@),
{
    hex::encode(bytes)
}

/// The dictionary key under which a value is stored: the hexadecimal text of the
/// 32-byte digest of the key's serialized form.
pub fn to_dictionary_key(digest: &[u8; 32]) -> (key: String)
    ensures
        key@ == hex_encoding(digest@),
        key@.len() == 64,
{
    proof {
        lemma_hex_encoding_len(digest@);
    }
    hex_encode(digest.as_slice())
}

pub proof fn lemma_hex_encoding_len(bytes: Seq<u8>)
    ensures
        hex_encoding(bytes).len() == 2 * bytes.len(),
    decreases bytes.len(),
{
    if bytes.len() > 0 {
        lemma_hex_encoding_len(bytes.drop_first());
    }
}

} // verus!
