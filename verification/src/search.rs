//! Letter case, and the search for one text in another.
use vstd::prelude::*;

use crate::text::chars_of;

verus! {

/// The lower case form that Unicode gives a text, which may differ from it in length.
pub uninterp spec fn lowercase(s: Seq<char>) -> Seq<char>;

/// `str::to_lowercase`. The result is a function of the characters alone; which one is not stated
/// here.
#[verifier::external_body]
pub(crate) fn to_lowercase(s: &str) -> (r: String)
    ensures
        r@ == lowercase(s@),
{
    s.to_lowercase()
}

/// The lower case of an ASCII letter; any other character as it is.
pub open spec fn ascii_lower(c: char) -> char {
    if 'A' <= c <= 'Z' {
        (c as u8 + 32) as char
    } else {
        c
    }
}

/// The upper case of an ASCII letter; any other character as it is.
pub open spec fn ascii_upper(c: char) -> char {
    if 'a' <= c <= 'z' {
        (c as u8 - 32) as char
    } else {
        c
    }
}

/// `s` with its ASCII letters in lower case.
pub open spec fn ascii_lowercased(s: Seq<char>) -> Seq<char> {
    Seq::new(s.len(), |i: int| ascii_lower(s[i]))
}

/// `s` with its ASCII letters in upper case.
pub open spec fn ascii_uppercased(s: Seq<char>) -> Seq<char> {
    Seq::new(s.len(), |i: int| ascii_upper(s[i]))
}

/// The characters of the string, its ASCII letters in lower case.
pub fn ascii_lower_chars(s: &str) -> (r: Vec<char>)
    ensures
        r@ == ascii_lowercased(s@),
{
    let chars = chars_of(s);
    let mut out: Vec<char> = Vec::new();
    let mut i: usize = 0;
    while i < chars.len()
        invariant
            chars@ == s@,
            i <= chars@.len(),
            out@ == ascii_lowercased(s@).take(i as int),
        decreases chars@.len() - i,
    {
        let c: char = chars[i];
        let d: char = if 'A' <= c && c <= 'Z' {
            (c as u8 + 32) as char
        } else {
            c
        };
        out.push(d);
        proof {
            assert(ascii_lowercased(s@).take(i + 1) == ascii_lowercased(s@).take(i as int).push(d));
        }
        i += 1;
    }
    proof {
        assert(ascii_lowercased(s@).take(i as int) == ascii_lowercased(s@));
    }
    out
}

/// The string with its ASCII letters in upper case.
pub fn to_ascii_uppercase(s: &str) -> (r: String)
    ensures
        r@ == ascii_uppercased(s@),
{
    let mut out = String::new();
    let chars = chars_of(s);
    let mut i: usize = 0;
    while i < chars.len()
        invariant
            chars@ == s@,
            i <= chars@.len(),
            out@ == ascii_uppercased(s@).take(i as int),
        decreases chars@.len() - i,
    {
        let c: char = chars[i];
        let d: char = if 'a' <= c && c <= 'z' {
            (c as u8 - 32) as char
        } else {
            c
        };
        out.push(d);
        proof {
            assert(ascii_uppercased(s@).take(i + 1) == ascii_uppercased(s@).take(i as int).push(d));
        }
        i += 1;
    }
    proof {
        assert(ascii_uppercased(s@).take(i as int) == ascii_uppercased(s@));
    }
    out
}

/// Whether two lists of characters are the same.
fn same_chars(a: &Vec<char>, b: &Vec<char>) -> (r: bool)
    ensures
        r == (a@ == b@),
{
    if a.len() != b.len() {
        return false;
    }
    let mut i: usize = 0;
    while i < a.len()
        invariant
            a@.len() == b@.len(),
            i <= a@.len(),
            forall|k: int| 0 <= k < i ==> a@[k] == b@[k],
        decreases a@.len() - i,
    {
        if a[i] != b[i] {
            return false;
        }
        i += 1;
    }
    proof {
        assert(a@ == b@);
    }
    true
}

/// Whether two strings differ at most in the case of ASCII letters.
pub fn eq_ignore_ascii_case(a: &str, b: &str) -> (r: bool)
    ensures
        r == (ascii_lowercased(a@) == ascii_lowercased(b@)),
{
    let x = ascii_lower_chars(a);
    let y = ascii_lower_chars(b);
    same_chars(&x, &y)
}

/// Whether `part` stands in `s` at position `at`.
pub open spec fn stands_at(s: Seq<char>, part: Seq<char>, at: int) -> bool {
    &&& 0 <= at
    &&& at + part.len() <= s.len()
    &&& s.subrange(at, at + part.len()) == part
}

/// Whether `part` stands somewhere in `s`.
pub open spec fn holds(s: Seq<char>, part: Seq<char>) -> bool {
    exists|at: int| stands_at(s, part, at)
}

/// Whether `part` stands at `at` and nowhere from `from` up to there.
pub open spec fn first_at(s: Seq<char>, part: Seq<char>, from: int, at: int) -> bool {
    &&& from <= at
    &&& stands_at(s, part, at)
    &&& forall|k: int| from <= k < at ==> !stands_at(s, part, k)
}

/// Whether `part` stands in `s` at position `at`.
pub fn found_at(s: &Vec<char>, part: &Vec<char>, at: usize) -> (r: bool)
    ensures
        r == stands_at(s@, part@, at as int),
{
    let n: usize = s.len();
    if at > n || part.len() > n - at {
        return false;
    }
    let mut i: usize = 0;
    while i < part.len()
        invariant
            at + part@.len() <= n == s@.len(),
            i <= part@.len(),
            forall|k: int| 0 <= k < i ==> s@[at + k] == part@[k],
        decreases part@.len() - i,
    {
        if s[at + i] != part[i] {
            proof {
                assert(s@.subrange(at as int, at + part@.len())[i as int] != part@[i as int]);
            }
            return false;
        }
        i += 1;
    }
    proof {
        assert(s@.subrange(at as int, at + part@.len()) == part@);
    }
    true
}

/// The first position, from `from` on, at which `part` stands in `s`.
pub fn find_from(s: &Vec<char>, part: &Vec<char>, from: usize) -> (r: Option<usize>)
    ensures
        match r {
            Some(at) => first_at(s@, part@, from as int, at as int),
            None => forall|k: int| from <= k ==> !stands_at(s@, part@, k),
        },
{
    let mut at: usize = from;
    while at <= s.len()
        invariant
            from <= at,
            at <= s@.len() || at == from || at == s@.len() + 1,
            forall|k: int| from <= k < at ==> !stands_at(s@, part@, k),
        decreases s@.len() + 1 - at,
    {
        if found_at(s, part, at) {
            return Some(at);
        }
        if at == s.len() {
            return None;
        }
        at += 1;
    }
    None
}

/// Whether `part` stands somewhere in the text.
pub fn contains(s: &Vec<char>, part: &str) -> (r: bool)
    ensures
        r == holds(s@, part@),
{
    let wanted = chars_of(part);
    match find_from(s, &wanted, 0) {
        Some(at) => {
            proof {
                assert(stands_at(s@, part@, at as int));
            }
            true
        },
        None => {
            proof {
                if holds(s@, part@) {
                    let at = choose|at: int| stands_at(s@, part@, at);
                    assert(stands_at(s@, part@, at));
                }
            }
            false
        },
    }
}

/// Whether `s` begins with `part`.
pub open spec fn starts(s: Seq<char>, part: Seq<char>) -> bool {
    stands_at(s, part, 0)
}

/// Whether `s` ends with `part`.
pub open spec fn ends(s: Seq<char>, part: Seq<char>) -> bool {
    stands_at(s, part, s.len() - part.len())
}

/// What follows `prefix` at the start of the string, or nothing where it does not begin so.
pub fn strip_prefix<'a>(s: &'a str, prefix: &str) -> (r: Option<&'a str>)
    ensures
        match r {
            Some(rest) => starts(s@, prefix@) && rest@ == s@.skip(prefix@.len() as int),
            None => !starts(s@, prefix@),
        },
{
    let chars = chars_of(s);
    let wanted = chars_of(prefix);
    if found_at(&chars, &wanted, 0) {
        proof {
            assert(s@.skip(prefix@.len() as int) == s@.subrange(
                prefix@.len() as int,
                s@.len() as int,
            ));
        }
        Some(s.substring_char(wanted.len(), chars.len()))
    } else {
        None
    }
}

/// What precedes `suffix` at the end of the string, or nothing where it does not end so.
pub fn strip_suffix<'a>(s: &'a str, suffix: &str) -> (r: Option<&'a str>)
    ensures
        match r {
            Some(rest) => ends(s@, suffix@) && rest@ == s@.take(s@.len() - suffix@.len()),
            None => !ends(s@, suffix@),
        },
{
    let chars = chars_of(s);
    let wanted = chars_of(suffix);
    if wanted.len() <= chars.len() && found_at(&chars, &wanted, chars.len() - wanted.len()) {
        proof {
            assert(s@.take(s@.len() - suffix@.len()) == s@.subrange(0, s@.len() - suffix@.len()));
        }
        Some(s.substring_char(0, chars.len() - wanted.len()))
    } else {
        None
    }
}

// ---------------------------------------------------------------------------------------------
// Laws
// ---------------------------------------------------------------------------------------------
/// Letters of the ASCII alphabet are put in the other case one by one, and nothing else is changed.
pub proof fn ascii_letters_change_case(s: Seq<char>, i: int)
    requires
        0 <= i < s.len(),
    ensures
        ascii_lowercased(s).len() == s.len(),
        ascii_uppercased(s).len() == s.len(),
        'A' <= s[i] <= 'Z' ==> ascii_lowercased(s)[i] as int == s[i] as int - 'A' as int + 'a' as int,
        !('A' <= s[i] <= 'Z') ==> ascii_lowercased(s)[i] == s[i],
        'a' <= s[i] <= 'z' ==> ascii_uppercased(s)[i] as int == s[i] as int - 'a' as int + 'A' as int,
        !('a' <= s[i] <= 'z') ==> ascii_uppercased(s)[i] == s[i],
{
    lemma_ascii_case(s[i]);
}

proof fn lemma_ascii_case(c: char)
    ensures
        'A' <= c <= 'Z' ==> ascii_lower(c) as int == c as int + 32,
        'a' <= c <= 'z' ==> ascii_upper(c) as int == c as int - 32,
{
}

/// A text stands in another exactly where that other is made up of what comes before it, the text, and
/// what comes after it.
pub proof fn texts_stand_where_they_were_put(before: Seq<char>, part: Seq<char>, after: Seq<char>)
    ensures
        stands_at(before + part + after, part, before.len() as int),
        holds(before + part + after, part),
        starts(part + after, part),
        ends(before + part, part),
{
    let s = before + part + after;
    let n = before.len() as int;
    assert(s.subrange(n, n + part.len()) =~= part);
    assert((part + after).subrange(0, part.len() as int) =~= part);
    assert((before + part).subrange(n, n + part.len()) =~= part);
}

/// A text that stands in another leaves what comes before it and what comes after it.
pub proof fn texts_are_found_where_they_stand(s: Seq<char>, part: Seq<char>, at: int)
    requires
        stands_at(s, part, at),
    ensures
        s == s.take(at) + part + s.skip(at + part.len()),
{
    assert(s =~= s.take(at) + s.subrange(at, at + part.len()) + s.skip(at + part.len()));
}

} // verus!
