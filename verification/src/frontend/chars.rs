use vstd::prelude::*;

verus! {

/// What `char::is_alphabetic` answers for a character (Unicode's Alphabetic property).
pub uninterp spec fn char_is_alphabetic(c: char) -> bool;

/// What `char::is_numeric` answers for a character (Unicode's numeric general categories).
pub uninterp spec fn char_is_numeric(c: char) -> bool;

/// The text `char::escape_debug` renders a character as.
pub uninterp spec fn char_escape_debug(c: char) -> Seq<char>;

/// Calls `char::is_alphabetic`, whose answer follows Unicode's Alphabetic property tables;
/// the contract only names that answer.
#[verifier::external_body]
pub fn is_alphabetic(c: char) -> (r: bool)
    ensures
        r == char_is_alphabetic(c),
{
    c.is_alphabetic()
}

/// Calls `char::is_numeric`, whose answer follows Unicode's numeric general categories;
/// the contract only names that answer.
#[verifier::external_body]
pub fn is_numeric(c: char) -> (r: bool)
    ensures
        r == char_is_numeric(c),
{
    c.is_numeric()
}

/// Calls `char::escape_debug` and collects the escaped form into a `String`;
/// the contract only names the text it gives.
#[verifier::external_body]
pub fn escape_debug(c: char) -> (r: String)
    ensures
        r@ == char_escape_debug(c),
{
    c.escape_debug().to_string()
}

/// Calls `String::push`, which appends one character.
#[verifier::external_body]
pub fn push_char(s: &mut String, c: char)
    ensures
        final(s)@ == old(s)@.push(c),
{
    s.push(c);
}

/// `char::is_alphanumeric`: by its documentation, alphabetic or numeric.
pub open spec fn char_is_alphanumeric(c: char) -> bool {
    char_is_alphabetic(c) || char_is_numeric(c)
}

pub fn is_alphanumeric(c: char) -> (r: bool)
    ensures
        r == char_is_alphanumeric(c),
{
    is_alphabetic(c) || is_numeric(c)
}

/// A `String` holding exactly the given characters.
pub fn string_of(cs: &Vec<char>) -> (s: String)
    ensures
        s@ == cs@,
{
    let mut s = String::new();
    let mut i: usize = 0;
    while i < cs.len()
        invariant
            i <= cs@.len(),
            s@ == cs@.take(i as int),
        decreases cs@.len() - i,
    {
        push_char(&mut s, cs[i]);
        assert(cs@.take(i + 1) =~= cs@.take(i as int).push(cs@[i as int]));
        i = i + 1;
    }
    assert(cs@.take(cs@.len() as int) =~= cs@);
    s
}

/// The characters of a string, in order.
pub fn chars_of(s: &str) -> (v: Vec<char>)
    ensures
        v@ == s@,
{
    let mut v: Vec<char> = Vec::new();
    for c in it: s.chars()
        invariant
            it.seq() == s@,
            v@ == s@.take(it.index()),
    {
        v.push(c);
    }
    assert(s@.take(s@.len() as int) =~= s@);
    v
}

/// A `String` with the characters of a string literal.
pub fn string_from(s: &str) -> (r: String)
    ensures
        r@ == s@,
{
    let v = chars_of(s);
    string_of(&v)
}

} // verus!
