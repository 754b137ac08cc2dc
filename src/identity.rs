//! Participant identities: 32-byte public keys issued by the transport layer.
use crate::text::{all_ascii, ascii_chars, ascii_string};
use vstd::prelude::*;

verus! {

/// A participant's public key. The library stores and compares it, and never
/// mints one.
#[derive(Clone, Copy, Debug, PartialEq, Eq, Hash)]
pub struct Identity {
    pub bytes: [u8; 32],
}

impl View for Identity {
    type V = Seq<u8>;

    open spec fn view(&self) -> Seq<u8> {
        self.bytes@
    }
}

/// The lowercase hexadecimal digit of `n` (below 16).
pub open spec fn hex_digit(n: u8) -> u8 {
    if n < 10 {
        (n + 48) as u8
    } else {
        (n + 87) as u8
    }
}

/// Two lowercase hexadecimal digits per byte, high nibble first.
pub open spec fn hex_lower(b: Seq<u8>) -> Seq<u8> {
    Seq::new(
        2 * b.len(),
        |i: int|
            if i % 2 == 0 {
                hex_digit(b[i / 2] / 16)
            } else {
                hex_digit(b[i / 2] % 16)
            },
    )
}

/// The short display form of a key: the hexadecimal digits of its first five bytes.
pub open spec fn short_form(id: Seq<u8>) -> Seq<char> {
    ascii_chars(hex_lower(id.subrange(0, 5)))
}

impl Identity {
    /// Whether two identities are the same key.
    pub fn same(&self, other: &Identity) -> (r: bool)
        ensures
            r == (self@ == other@),
    {
        let mut i: usize = 0;
        while i < 32
            invariant
                i <= 32,
                self@.len() == 32,
                other@.len() == 32,
                forall|j: int| 0 <= j < i ==> self@[j] == other@[j],
            decreases 32 - i,
        {
            if self.bytes[i] != other.bytes[i] {
                return false;
            }
            i = i + 1;
        }
        assert(self@ =~= other@);
        true
    }

    /// The short display form of this key: ten lowercase hexadecimal digits.
    pub fn fmt_short(&self) -> (r: String)
        ensures
            r@ == short_form(self@),
            r@.len() == 10,
    {
        let ghost first = self@.subrange(0, 5);
        let mut out: Vec<u8> = Vec::new();
        let mut i: usize = 0;
        while i < 5
            invariant
                i <= 5,
                self@.len() == 32,
                first == self@.subrange(0, 5),
                out@ == hex_lower(first).subrange(0, 2 * i),
                all_ascii(out@),
            decreases 5 - i,
        {
            let b = self.bytes[i];
            let hi = b / 16;
            let lo = b % 16;
            out.push(if hi < 10 { hi + 48 } else { hi + 87 });
            out.push(if lo < 10 { lo + 48 } else { lo + 87 });
            i = i + 1;
            assert(out@ =~= hex_lower(first).subrange(0, 2 * i));
        }
        assert(out@ =~= hex_lower(first));
        ascii_string(out)
    }
}

} // verus!
