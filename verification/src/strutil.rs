//! Text brought in from the wire: bytes are decoded to `String` the way
//! `String::from_utf8_lossy` does it, which is named here rather than
//! restated, and single characters are rendered back to text.

use vstd::prelude::*;

verus! {

/// The character sequence that lossy UTF-8 decoding yields for `bytes`:
/// valid sequences decode to their scalar values, invalid ones become
/// replacement characters.  The result depends on the bytes alone.
pub uninterp spec fn lossy_utf8(bytes: Seq<u8>) -> Seq<char>;

/// Relies on `String::from_utf8_lossy`: decodes `bytes` as UTF-8, mapping
/// each invalid sequence to U+FFFD; the result is a function of the bytes
/// alone.
#[verifier::external_body]
pub fn lossy_decode(bytes: &[u8]) -> (r: String)
    ensures
        r@ == lossy_utf8(bytes@),
{
    String::from_utf8_lossy(bytes).into_owned()
}

/// Relies on `String::from(char)`: the returned string holds exactly the
/// one character given.
#[verifier::external_body]
pub fn char_to_string(c: char) -> (r: String)
    ensures
        r@ == seq![c],
{
    String::from(c)
}

/// Character-for-character string equality.
pub fn str_eq(a: &str, b: &str) -> (r: bool)
    ensures
        r == (a@ == b@),
{
    let na = a.unicode_len();
    let nb = b.unicode_len();
    if na != nb {
        return false;
    }
    let mut i: usize = 0;
    while i < na
        invariant
            na == a@.len(),
            na == b@.len(),
            0 <= i <= na,
            forall|j: int| 0 <= j < i ==> a@[j] == b@[j],
        decreases na - i,
    {
        if a.get_char(i) != b.get_char(i) {
            return false;
        }
        i = i + 1;
    }
    proof {
        assert(a@ =~= b@);
    }
    true
}

} // verus!
