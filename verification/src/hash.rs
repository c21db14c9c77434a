//! Content hashes.

use crate::text;
use vstd::prelude::*;

verus! {

/// The lower case hexadecimal text of the BLAKE3 hash of `data`.
pub uninterp spec fn blake3_text(data: Seq<u8>) -> Seq<char>;

/// `blake3::hash`, its 32 bytes written by `to_hex` as 64 lower case
/// hexadecimal digits.
#[verifier::external_body]
fn blake3_hex(data: &[u8]) -> (r: String)
    ensures
        r@ == blake3_text(data@),
        text::is_hex(r@, 64),
{
    blake3::hash(data).to_hex().to_string()
}

/// The BLAKE3 hash of some content, in lower case hexadecimal digits.
#[derive(Debug, Clone, PartialEq, Eq, Hash)]
pub struct ContentHash(String);

impl View for ContentHash {
    type V = Seq<char>;

    closed spec fn view(&self) -> Seq<char> {
        self.0@
    }
}

impl ContentHash {
    /// The hash of some bytes.
    pub fn from_bytes(data: &[u8]) -> (r: Self)
        ensures
            r@ == blake3_text(data@),
            text::is_hex(r@, 64),
    {
        ContentHash(blake3_hex(data))
    }

    /// The digits of the hash.
    pub fn as_str(&self) -> (r: &str)
        ensures
            r@ == self@,
    {
        self.0.as_str()
    }

    /// The first two digits, which name a directory.
    pub fn shard(&self) -> (r: &str)
        ensures
            r@ == self@.take(if self@.len() < 2 {
                self@.len() as int
            } else {
                2
            }),
    {
        let n: usize = self.0.as_str().unicode_len();
        self.0.as_str().substring_char(0, if n < 2 { n } else { 2 })
    }
}

/// The hash of some content.
pub fn content_hash(input: &[u8]) -> (r: ContentHash)
    ensures
        r@ == blake3_text(input@),
        text::is_hex(r@, 64),
{
    ContentHash::from_bytes(input)
}

/// The hash of a text, taken of its UTF-8 bytes.
pub fn hash_text(input: &str) -> (r: ContentHash)
    ensures
        r@ == blake3_text(vstd::utf8::encode_utf8(input@)),
        text::is_hex(r@, 64),
{
    ContentHash::from_bytes(input.as_bytes())
}

} // verus!
