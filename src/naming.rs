use vstd::prelude::*;

use crate::parser::ProtoParserCore;
use crate::text::{chars_of, string_between, string_of};

verus! {

/// The upper-case mapping of `c`: one or more characters.
pub uninterp spec fn upper_of(c: char) -> Seq<char>;

/// The first character of the lower-case mapping of `c`.
pub uninterp spec fn lower_of(c: char) -> char;

/// Whether `c` has the Unicode `Uppercase` property.
pub uninterp spec fn uppercase_letter(c: char) -> bool;

/// Relies on char::to_uppercase, whose iterator yields one or more characters.
#[verifier::external_body]
fn char_upper(c: char) -> (r: String)
    ensures
        r@ == upper_of(c),
        r@.len() > 0,
{
    c.to_uppercase().collect()
}

/// Relies on char::to_lowercase, of which the first character is taken.
#[verifier::external_body]
fn char_lower(c: char) -> (r: char)
    ensures
        r == lower_of(c),
{
    c.to_lowercase().next().unwrap_or(c)
}

/// Relies on char::is_uppercase.
#[verifier::external_body]
fn char_is_upper(c: char) -> (r: bool)
    ensures
        r == uppercase_letter(c),
{
    c.is_uppercase()
}

/// Underscores removed; a character that followed one is replaced by the first
/// character of its upper-case mapping.
pub open spec fn camel(s: Seq<char>) -> Seq<char>
    decreases s.len(),
{
    if s.len() == 0 {
        seq![]
    } else {
        let p = s.drop_last();
        let c = s.last();
        if c == '_' {
            camel(p)
        } else if p.len() > 0 && p.last() == '_' {
            camel(p).push(upper_of(c)[0])
        } else {
            camel(p).push(c)
        }
    }
}

/// `camel` with its first character replaced by its whole upper-case mapping.
pub open spec fn pascal(s: Seq<char>) -> Seq<char> {
    let c = camel(s);
    if c.len() == 0 {
        c
    } else {
        upper_of(c[0]) + c.drop_first()
    }
}

/// Every character lower-cased, with `_` before each upper-case one but the first.
pub open spec fn snake(s: Seq<char>) -> Seq<char>
    decreases s.len(),
{
    if s.len() == 0 {
        seq![]
    } else {
        let p = s.drop_last();
        let c = s.last();
        if uppercase_letter(c) && p.len() > 0 {
            snake(p) + seq!['_', lower_of(c)]
        } else {
            snake(p).push(lower_of(c))
        }
    }
}

pub fn camel_chars(s: &Vec<char>) -> (r: Vec<char>)
    ensures
        r@ == camel(s@),
{
    let mut out: Vec<char> = Vec::new();
    let mut i: usize = 0;
    while i < s.len()
        invariant
            i <= s.len(),
            out@ == camel(s@.take(i as int)),
        decreases s.len() - i,
    {
        let ghost t = s@.take(i + 1);
        assert(t.drop_last() =~= s@.take(i as int));
        assert(t.last() == s@[i as int]);
        let c = s[i];
        if c == '_' {
        } else if i > 0 && s[i - 1] == '_' {
            let up = char_upper(c);
            let uv = chars_of(up.as_str());
            out.push(uv[0]);
        } else {
            out.push(c);
        }
        i = i + 1;
    }
    assert(s@.take(s.len() as int) =~= s@);
    out
}

impl ProtoParserCore {
    /// `a_b_c` becomes `aBC`; the first character keeps its case.
    pub fn to_camel_case(snake_str: &str) -> (r: String)
        ensures
            r@ == camel(snake_str@),
    {
        let s = chars_of(snake_str);
        let c = camel_chars(&s);
        string_of(c.as_slice())
    }

    /// `a_b_c` becomes `ABC`.
    pub fn to_pascal_case(snake_str: &str) -> (r: String)
        ensures
            r@ == pascal(snake_str@),
    {
        let s = chars_of(snake_str);
        let c = camel_chars(&s);
        if c.len() == 0 {
            return string_of(c.as_slice());
        }
        let mut out = char_upper(c[0]);
        let rest = string_between(&c, 1, c.len());
        out.append(rest.as_str());
        assert(c@.subrange(1, c.len() as int) =~= c@.drop_first());
        out
    }

    /// `aBC` becomes `a_b_c`.
    pub fn to_snake_case(camel_str: &str) -> (r: String)
        ensures
            r@ == snake(camel_str@),
    {
        let s = chars_of(camel_str);
        let mut out = String::new();
        let mut i: usize = 0;
        while i < s.len()
            invariant
                i <= s.len(),
                s@ == camel_str@,
                out@ == snake(s@.take(i as int)),
            decreases s.len() - i,
        {
            let ghost t = s@.take(i + 1);
            assert(t.drop_last() =~= s@.take(i as int));
            let c = s[i];
            if char_is_upper(c) && i > 0 {
                crate::text::push_char(&mut out, '_');
            }
            crate::text::push_char(&mut out, char_lower(c));
            assert(out@ =~= snake(t));
            i = i + 1;
        }
        assert(s@.take(s.len() as int) =~= s@);
        out
    }
}

} // verus!
