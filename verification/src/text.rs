//! Characters and strings: the few operations the language needs on them.

use vstd::prelude::*;

verus! {

/// Whether `c` is white space: one of the twenty-five characters that have
/// the Unicode property `White_Space`. The list is kept out of sight of the
/// prover until it is revealed.
#[verifier::opaque]
pub open spec fn is_whitespace(c: char) -> bool {
    let code = c as u32;
    ||| 0x09 <= code <= 0x0d
    ||| code == 0x20
    ||| code == 0x85
    ||| code == 0xa0
    ||| code == 0x1680
    ||| 0x2000 <= code <= 0x200a
    ||| code == 0x2028
    ||| code == 0x2029
    ||| code == 0x202f
    ||| code == 0x205f
    ||| code == 0x3000
}

/// Whether `c` is one of the 128 ASCII characters.
pub open spec fn is_ascii(c: char) -> bool {
    (c as u32) < 128
}

/// Whether `c` is an ASCII letter or digit.
pub open spec fn is_ascii_alphanumeric(c: char) -> bool {
    let code = c as u32;
    ||| 0x30 <= code <= 0x39
    ||| 0x41 <= code <= 0x5a
    ||| 0x61 <= code <= 0x7a
}

/// What `char::is_alphanumeric` tells of a character beyond ASCII.
pub uninterp spec fn unicode_alphanumeric(c: char) -> bool;

/// Whether `c` is a letter or a number. Of the ASCII characters these are
/// the letters and the digits; beyond ASCII it is what
/// `char::is_alphanumeric` tells.
pub open spec fn is_alphanumeric(c: char) -> bool {
    if is_ascii(c) {
        is_ascii_alphanumeric(c)
    } else {
        unicode_alphanumeric(c)
    }
}

/// Whether `c` is one of the capitals `A` to `Z`.
pub open spec fn is_ascii_capital(c: char) -> bool {
    0x41 <= (c as u32) <= 0x5a
}

/// The small letter of the capital `c`, which stands 32 places behind it.
pub open spec fn ascii_small(c: char) -> char {
    (((c as u8) + 32) as u8) as char
}

/// The characters that `char::to_lowercase` gives for a character beyond
/// ASCII.
pub uninterp spec fn unicode_lowercase(c: char) -> Seq<char>;

/// The lower case of `c`, which can be more than one character. An ASCII
/// capital gives its small letter and any other ASCII character itself;
/// beyond ASCII it is what `char::to_lowercase` gives.
pub open spec fn lowercase(c: char) -> Seq<char> {
    if !is_ascii(c) {
        unicode_lowercase(c)
    } else if is_ascii_capital(c) {
        seq![ascii_small(c)]
    } else {
        seq![c]
    }
}

/// Calls `char::is_whitespace`, which tells whether the character has the
/// Unicode property `White_Space`. The contract lists the characters that
/// have it.
#[verifier::external_body]
pub(crate) fn char_is_whitespace(c: char) -> (b: bool)
    ensures
        b == is_whitespace(c),
{
    c.is_whitespace()
}

/// Calls `char::is_alphanumeric`, which tells whether the character is
/// alphabetic or numeric by the Unicode character database. The contract
/// says which ASCII characters are, and names the answer for the others.
#[verifier::external_body]
pub(crate) fn char_is_alphanumeric(c: char) -> (b: bool)
    ensures
        b == is_alphanumeric(c),
        !is_ascii(c) ==> b == unicode_alphanumeric(c),
{
    c.is_alphanumeric()
}

/// Calls `char::to_lowercase` and collects the characters it yields. The
/// contract says what they are for an ASCII character, and names them for
/// the others.
#[verifier::external_body]
pub(crate) fn char_to_lowercase(c: char) -> (lower: Vec<char>)
    ensures
        lower@ == lowercase(c),
        !is_ascii(c) ==> lower@ == unicode_lowercase(c),
{
    c.to_lowercase().collect()
}

/// Calls `String::push`, which appends one character to the string.
#[verifier::external_body]
pub(crate) fn string_push(text: &mut String, c: char)
    ensures
        final(text)@ == old(text)@.push(c),
{
    text.push(c)
}

/// The characters of `s`, in order.
pub fn chars_of(s: &str) -> (chars: Vec<char>)
    ensures
        chars@ == s@,
{
    broadcast use vstd::string::group_string_axioms;

    let mut chars: Vec<char> = Vec::new();
    for c in it: s.chars()
        invariant
            it.seq() == s@,
            chars@ == it.seq().take(it.index() as int),
    {
        chars.push(c);
        assert(it.seq().take(it.index() + 1) =~= it.seq().take(it.index() as int).push(c));
    }
    assert(s@.take(s@.len() as int) =~= s@);
    chars
}

/// The string made of the characters of `chars` from `from` up to `to`.
pub fn string_of(chars: &Vec<char>, from: usize, to: usize) -> (text: String)
    requires
        from <= to <= chars@.len(),
    ensures
        text@ == chars@.subrange(from as int, to as int),
{
    let mut text = String::new();
    let mut i: usize = from;
    while i < to
        invariant
            from <= i <= to <= chars@.len(),
            text@ == chars@.subrange(from as int, i as int),
        decreases to - i,
    {
        string_push(&mut text, chars[i]);
        assert(chars@.subrange(from as int, i + 1) =~= chars@.subrange(from as int, i as int).push(
            chars@[i as int],
        ));
        i = i + 1;
    }
    text
}

/// The string made of the characters of `first` followed by those of
/// `second`.
pub fn concat(first: &str, second: &str) -> (text: String)
    ensures
        text@ == first@ + second@,
{
    let a = chars_of(first);
    let b = chars_of(second);
    let mut text = string_of(&a, 0, a.len());
    let mut i: usize = 0;
    assert(a@.subrange(0, a@.len() as int) =~= a@);
    while i < b.len()
        invariant
            i <= b@.len(),
            text@ == a@ + b@.subrange(0, i as int),
        decreases b@.len() - i,
    {
        string_push(&mut text, b[i]);
        assert(b@.subrange(0, i + 1) =~= b@.subrange(0, i as int).push(b@[i as int]));
        i = i + 1;
    }
    assert(b@.subrange(0, b@.len() as int) =~= b@);
    text
}

} // verus!
