//! Small text helpers: exact byte lengths of strings and characters under
//! the UTF-8 model, and appending single characters to a `String`.

use vstd::prelude::*;
use vstd::utf8::{encode_scalar, encode_utf8};

verus! {

/// The number of bytes of the UTF-8 encoding of a string, as a spec value.
pub open spec fn spec_byte_len(s: Seq<char>) -> nat {
    encode_utf8(s).len()
}

/// Byte length of a string slice. `str::len` already returns the UTF-8
/// byte count; going through `as_bytes` also yields that the count fits
/// in `usize`.
pub fn str_byte_len(s: &str) -> (r: usize)
    ensures
        r == spec_byte_len(s@),
{
    let bytes = s.as_bytes();
    bytes.len()
}

/// The number of bytes a character occupies in UTF-8, as a spec value.
pub open spec fn spec_char_len(c: char) -> nat {
    encode_scalar(c as u32).len()
}

/// Byte length of one character in UTF-8, computed from its code point.
pub fn char_byte_len(c: char) -> (r: usize)
    ensures
        r == spec_char_len(c),
{
    let u = c as u32;
    if u < 0x80 {
        1
    } else if u < 0x800 {
        2
    } else if u < 0x10000 {
        3
    } else {
        4
    }
}

/// Relies on `String::push`: appends exactly the given character.
#[verifier::external_body]
pub(crate) fn push_char(s: &mut String, c: char)
    ensures
        final(s)@ == old(s)@.push(c),
{
    s.push(c)
}

/// The number of distinct characters in a sequence.
pub open spec fn num_distinct(s: Seq<char>) -> nat
    decreases s.len(),
{
    if s.len() == 0 {
        0
    } else {
        num_distinct(s.drop_last()) + if s.drop_last().contains(s.last()) {
            0nat
        } else {
            1nat
        }
    }
}

/// A non-empty sequence has at least one distinct character.
pub proof fn lemma_num_distinct_pos(s: Seq<char>)
    requires
        s.len() > 0,
    ensures
        num_distinct(s) >= 1,
    decreases s.len(),
{
    if s.drop_last().contains(s.last()) {
        lemma_num_distinct_pos(s.drop_last());
    }
}

/// Pushing an element extends membership by exactly that element.
pub proof fn lemma_contains_push(s: Seq<char>, e: char, x: char)
    ensures
        s.push(e).contains(x) <==> s.contains(x) || x == e,
{
    if s.contains(x) {
        let i = choose|i: int| 0 <= i < s.len() && s[i] == x;
        assert(s.push(e)[i] == x);
    }
    if x == e {
        assert(s.push(e)[s.len() as int] == x);
    }
    if s.push(e).contains(x) {
        let i = choose|i: int| 0 <= i < s.push(e).len() && s.push(e)[i] == x;
        if i < s.len() {
            assert(s[i] == x);
        }
    }
}

/// The Unicode white-space characters: the set `char::is_whitespace`
/// recognizes (the White_Space property).
pub open spec fn is_space(c: char) -> bool {
    ||| c == ' '
    ||| c == '\t'
    ||| c == '\n'
    ||| c == '\u{0B}'
    ||| c == '\u{0C}'
    ||| c == '\r'
    ||| c == '\u{85}'
    ||| c == '\u{A0}'
    ||| c == '\u{1680}'
    ||| (0x2000 <= c as u32 && c as u32 <= 0x200A)
    ||| c == '\u{2028}'
    ||| c == '\u{2029}'
    ||| c == '\u{202F}'
    ||| c == '\u{205F}'
    ||| c == '\u{3000}'
}

/// White-space test, as executable code.
pub fn space_char(c: char) -> (r: bool)
    ensures
        r == is_space(c),
{
    let u = c as u32;
    c == ' ' || c == '\t' || c == '\n' || c == '\u{0B}' || c == '\u{0C}' || c == '\r'
        || c == '\u{85}' || c == '\u{A0}' || c == '\u{1680}' || (0x2000 <= u && u <= 0x200A)
        || c == '\u{2028}' || c == '\u{2029}' || c == '\u{202F}' || c == '\u{205F}'
        || c == '\u{3000}'
}

/// How many white-space characters the sequence starts with.
pub open spec fn leading_spaces(s: Seq<char>) -> nat
    decreases s.len(),
{
    if s.len() == 0 {
        0
    } else if !is_space(s[0]) {
        0
    } else {
        1 + leading_spaces(s.drop_first())
    }
}

/// How many white-space characters the sequence ends with.
pub open spec fn trailing_spaces(s: Seq<char>) -> nat
    decreases s.len(),
{
    if s.len() == 0 {
        0
    } else if !is_space(s.last()) {
        0
    } else {
        1 + trailing_spaces(s.drop_last())
    }
}

/// The sequence with leading and trailing white space removed.
pub open spec fn trim_spec(s: Seq<char>) -> Seq<char> {
    let rest = s.skip(leading_spaces(s) as int);
    rest.take(rest.len() - trailing_spaces(rest))
}

/// `leading_spaces` is the position of the first non-space character.
pub proof fn lemma_leading_spaces_is(s: Seq<char>, m: int)
    requires
        0 <= m <= s.len(),
        forall|j: int| 0 <= j < m ==> is_space(#[trigger] s[j]),
        m == s.len() || !is_space(s[m]),
    ensures
        leading_spaces(s) == m,
    decreases s.len(),
{
    if s.len() > 0 && m > 0 {
        let d = s.drop_first();
        assert(forall|j: int| 0 <= j < m - 1 ==> #[trigger] d[j] == s[j + 1]);
        assert(m - 1 < d.len() ==> d[m - 1] == s[m]);
        lemma_leading_spaces_is(d, m - 1);
    }
}

/// `trailing_spaces` is the distance from the last non-space character
/// to the end.
pub proof fn lemma_trailing_spaces_is(s: Seq<char>, m: int)
    requires
        0 <= m <= s.len(),
        forall|j: int| s.len() - m <= j < s.len() ==> is_space(#[trigger] s[j]),
        m == s.len() || !is_space(s[s.len() - m - 1]),
    ensures
        trailing_spaces(s) == m,
    decreases s.len(),
{
    if s.len() > 0 && m > 0 {
        let d = s.drop_last();
        assert(is_space(s.last()));
        assert(forall|j: int| d.len() - (m - 1) <= j < d.len() ==> #[trigger] d[j] == s[j]);
        lemma_trailing_spaces_is(d, m - 1);
    }
}

/// The byte length of a concatenation is the sum of the byte lengths.
pub proof fn lemma_byte_len_add(a: Seq<char>, b: Seq<char>)
    ensures
        spec_byte_len(a + b) == spec_byte_len(a) + spec_byte_len(b),
    decreases a.len(),
{
    if a.len() == 0 {
        assert(a + b =~= b);
    } else {
        lemma_byte_len_add(a.drop_first(), b);
        assert((a + b).drop_first() =~= a.drop_first() + b);
        assert(encode_utf8(a + b) =~= encode_scalar((a + b)[0] as u32) + encode_utf8(
            (a + b).drop_first(),
        ));
    }
}

/// The byte length of a one-character string is that character's length.
pub proof fn lemma_byte_len_singleton(c: char)
    ensures
        spec_byte_len(seq![c]) == spec_char_len(c),
{
    assert(seq![c].drop_first() =~= Seq::<char>::empty());
    assert(seq![c][0] == c);
    assert(encode_utf8(seq![c]) =~= encode_scalar(c as u32) + encode_utf8(Seq::<char>::empty()));
    assert(encode_utf8(seq![c]) =~= encode_scalar(c as u32));
}

} // verus!
