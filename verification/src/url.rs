//! Texts inside web addresses.

use vstd::prelude::*;

verus! {

/// A byte that stands for itself: an ASCII letter or digit, or one of four
/// marks.
pub open spec fn unreserved(b: u8) -> bool {
    ||| 0x30 <= b <= 0x39
    ||| 0x41 <= b <= 0x5a
    ||| 0x61 <= b <= 0x7a
    ||| b == 0x2d || b == 0x2e || b == 0x5f || b == 0x7e
}

/// A hexadecimal digit in upper case.
pub open spec fn upper_hex(d: nat) -> char {
    if d < 10 {
        (0x30 + d) as char
    } else {
        (0x41 + (d - 10)) as char
    }
}

/// A byte in an address: itself, or a percent sign and two digits.
pub open spec fn percent_byte(b: u8) -> Seq<char> {
    if unreserved(b) {
        seq![b as char]
    } else {
        seq!['%', upper_hex((b / 16) as nat), upper_hex((b % 16) as nat)]
    }
}

/// Bytes in an address.
pub open spec fn percent(data: Seq<u8>) -> Seq<char>
    decreases data.len(),
{
    if data.len() == 0 {
        Seq::empty()
    } else {
        percent(data.drop_last()) + percent_byte(data.last())
    }
}

/// A text in an address.
pub open spec fn percent_encoded(s: Seq<char>) -> Seq<char> {
    percent(vstd::utf8::encode_utf8(s))
}

/// `urlencoding::encode` writes every byte of a text that is not an ASCII
/// letter, a digit or one of `-`, `.`, `_` and `~` as a percent sign and two
/// hexadecimal digits.
#[verifier::external_body]
pub(crate) fn percent_encode(s: &str) -> (r: String)
    ensures
        r@ == percent_encoded(s@),
{
    urlencoding::encode(s).into_owned()
}

/// A text of ASCII letters, digits and the four marks stands for itself.
pub proof fn plain_texts_stand_for_themselves(s: Seq<char>)
    requires
        forall|i: int|
            0 <= i < s.len() ==> {
                ||| '0' <= #[trigger] s[i] <= '9'
                ||| 'A' <= s[i] <= 'Z'
                ||| 'a' <= s[i] <= 'z'
                ||| s[i] == '-' || s[i] == '.' || s[i] == '_' || s[i] == '~'
            },
    ensures
        percent_encoded(s) == s,
{
    assert(vstd::utf8::is_ascii_chars(s));
    vstd::utf8::is_ascii_chars_encode_utf8(s);
    let b = vstd::utf8::encode_utf8(s);
    lemma_plain_bytes(b, s);
}

proof fn lemma_plain_bytes(b: Seq<u8>, s: Seq<char>)
    requires
        b.len() == s.len(),
        forall|i: int| 0 <= i < s.len() ==> (#[trigger] b[i]) as char == s[i] && unreserved(b[i]),
    ensures
        percent(b) == s,
    decreases b.len(),
{
    if b.len() > 0 {
        let t = b.drop_last();
        let u = s.drop_last();
        assert forall|i: int| 0 <= i < u.len() implies (#[trigger] t[i]) as char == u[i]
            && unreserved(t[i]) by {
            assert(b[i] as char == s[i]);
        }
        lemma_plain_bytes(t, u);
        assert(b[b.len() - 1] as char == s[s.len() - 1]);
        assert(percent(b) =~= s);
    } else {
        assert(percent(b) =~= s);
    }
}

/// Every other byte takes a percent sign and two digits.
pub proof fn other_bytes_are_written_in_digits(b: u8)
    requires
        !(0x30 <= b <= 0x39 || 0x41 <= b <= 0x5a || 0x61 <= b <= 0x7a || b == 0x2d || b == 0x2e
            || b == 0x5f || b == 0x7e),
    ensures
        percent_byte(b).len() == 3,
        percent_byte(b)[0] == '%',
{
}

} // verus!
