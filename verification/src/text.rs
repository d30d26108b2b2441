//! Text as sequences of characters: trimming, folding of white space, lines and joining.
use vstd::prelude::*;

verus! {

/// `String::push` appends one character to the end of the string.
pub assume_specification[ String::push ](s: &mut String, c: char)
    ensures
        final(s)@ == old(s)@.push(c),
;

/// The characters with the Unicode property `White_Space`.
pub open spec fn is_space(c: char) -> bool {
    let n = c as u32;
    ||| 0x09 <= n <= 0x0d
    ||| n == 0x20
    ||| n == 0x85
    ||| n == 0xa0
    ||| n == 0x1680
    ||| 0x2000 <= n <= 0x200a
    ||| n == 0x2028
    ||| n == 0x2029
    ||| n == 0x202f
    ||| n == 0x205f
    ||| n == 0x3000
}

/// Whether a character is white space.
pub fn is_whitespace(c: char) -> (r: bool)
    ensures
        r == is_space(c),
{
    let n: u32 = c as u32;
    (0x09 <= n && n <= 0x0d) || n == 0x20 || n == 0x85 || n == 0xa0 || n == 0x1680 || (0x2000 <= n
        && n <= 0x200a) || n == 0x2028 || n == 0x2029 || n == 0x202f || n == 0x205f || n == 0x3000
}

/// The characters of a string, in order.
pub fn chars_of(s: &str) -> (r: Vec<char>)
    ensures
        r@ == s@,
{
    let mut out: Vec<char> = Vec::new();
    for c in it: s.chars()
        invariant
            out@ == s@.take(it.index() as int),
            it.seq() == s@,
    {
        proof {
            assert(s@.take(it.index() + 1) == s@.take(it.index() as int).push(s@[it.index() as int]));
        }
        out.push(c);
    }
    proof {
        assert(s@.take(s@.len() as int) == s@);
    }
    out
}

/// The string made of the characters from `from` up to `to`.
pub fn text_between(chars: &Vec<char>, from: usize, to: usize) -> (r: String)
    requires
        from <= to <= chars@.len(),
    ensures
        r@ == chars@.subrange(from as int, to as int),
{
    let mut out = String::new();
    let mut i: usize = from;
    while i < to
        invariant
            from <= i <= to <= chars@.len(),
            out@ == chars@.subrange(from as int, i as int),
        decreases to - i,
    {
        proof {
            assert(chars@.subrange(from as int, i + 1) == chars@.subrange(from as int, i as int).push(chars@[i as int]));
        }
        out.push(chars[i]);
        i += 1;
    }
    out
}

/// Whether two strings hold the same characters.
pub fn same_text(a: &str, b: &str) -> (r: bool)
    ensures
        r == (a@ == b@),
{
    let mut x = a.chars();
    let mut y = b.chars();
    let ghost mut n: int = 0;
    loop
        invariant
            0 <= n <= a@.len(),
            n <= b@.len(),
            a@.take(n) == b@.take(n),
            vstd::std_specs::iter::IteratorSpec::remaining(&x) == a@.skip(n),
            vstd::std_specs::iter::IteratorSpec::remaining(&y) == b@.skip(n),
        decreases a@.len() - n,
    {
        match (x.next(), y.next()) {
            (Some(c), Some(d)) => {
                if c != d {
                    return false;
                }
            },
            (None, None) => {
                proof {
                    assert(a@.take(n) == a@ && b@.take(n) == b@);
                }
                return true;
            },
            _ => {
                return false;
            },
        }
        proof {
            n = n + 1;
        }
    }
}

// ---------------------------------------------------------------------------------------------
// Trimming
// ---------------------------------------------------------------------------------------------
/// What is left of `s` without its leading white space.
pub open spec fn trim_start(s: Seq<char>) -> Seq<char>
    decreases s.len(),
{
    if s.len() > 0 && is_space(s[0]) {
        trim_start(s.drop_first())
    } else {
        s
    }
}

/// What is left of `s` without its trailing white space.
pub open spec fn trim_end(s: Seq<char>) -> Seq<char>
    decreases s.len(),
{
    if s.len() > 0 && is_space(s.last()) {
        trim_end(s.drop_last())
    } else {
        s
    }
}

/// `s` without white space at either end.
pub open spec fn trimmed(s: Seq<char>) -> Seq<char> {
    trim_end(trim_start(s))
}

/// Whether nothing but white space stands in `s`.
pub open spec fn is_blank(s: Seq<char>) -> bool {
    trimmed(s).len() == 0
}

/// `s` without the characters `c` at its end.
pub open spec fn trim_end_of(s: Seq<char>, c: char) -> Seq<char>
    decreases s.len(),
{
    if s.len() > 0 && s.last() == c {
        trim_end_of(s.drop_last(), c)
    } else {
        s
    }
}

/// `first` unless it is empty, and otherwise `second`.
pub open spec fn or_else(first: Seq<char>, second: Seq<char>) -> Seq<char> {
    if first.len() > 0 {
        first
    } else {
        second
    }
}

/// The string without white space at either end.
pub fn trim<'a>(s: &'a str) -> (r: &'a str)
    ensures
        r@ == trimmed(s@),
{
    let chars = chars_of(s);
    let mut from: usize = 0;
    proof {
        assert(s@.skip(0) == s@);
    }
    while from < chars.len() && is_whitespace(chars[from])
        invariant
            chars@ == s@,
            from <= chars@.len(),
            trim_start(s@) == trim_start(s@.skip(from as int)),
        decreases chars@.len() - from,
    {
        proof {
            assert(s@.skip(from as int).drop_first() == s@.skip(from + 1));
        }
        from += 1;
    }
    let mut to: usize = chars.len();
    proof {
        assert(trim_start(s@) == s@.skip(from as int));
        assert(s@.skip(from as int) == s@.subrange(from as int, to as int));
    }
    while from < to && is_whitespace(chars[to - 1])
        invariant
            chars@ == s@,
            from <= to <= chars@.len(),
            trimmed(s@) == trim_end(s@.subrange(from as int, to as int)),
        decreases to,
    {
        proof {
            assert(s@.subrange(from as int, to as int).drop_last() == s@.subrange(
                from as int,
                to - 1,
            ));
        }
        to -= 1;
    }
    s.substring_char(from, to)
}

/// Whether nothing but white space stands in the string.
pub fn blank(s: &str) -> (r: bool)
    ensures
        r == is_blank(s@),
{
    trim(s).is_empty()
}

/// The string without the characters `c` at its end.
pub fn trim_end_char<'a>(s: &'a str, c: char) -> (r: &'a str)
    ensures
        r@ == trim_end_of(s@, c),
{
    let chars = chars_of(s);
    let mut to: usize = chars.len();
    proof {
        assert(s@ == s@.take(to as int));
    }
    while to > 0 && chars[to - 1] == c
        invariant
            chars@ == s@,
            to <= chars@.len(),
            trim_end_of(s@, c) == trim_end_of(s@.take(to as int), c),
        decreases to,
    {
        proof {
            assert(s@.take(to as int).drop_last() == s@.take(to - 1));
        }
        to -= 1;
    }
    proof {
        assert(s@.take(to as int) == s@.subrange(0, to as int));
    }
    s.substring_char(0, to)
}

// ---------------------------------------------------------------------------------------------
// Folding of white space
// ---------------------------------------------------------------------------------------------
/// `s` with every run of white space between two words replaced by one space, and with none at
/// either end.
pub open spec fn folded(s: Seq<char>) -> Seq<char>
    decreases s.len(),
{
    if s.len() == 0 {
        s
    } else {
        let before = folded(s.drop_last());
        if is_space(s.last()) {
            before
        } else if before.len() > 0 && is_space(s[s.len() - 2]) {
            before.push(' ').push(s.last())
        } else {
            before.push(s.last())
        }
    }
}

/// `s` cut to its first `limit` characters, with three dots after them, where it is longer.
pub open spec fn clipped(s: Seq<char>, limit: nat) -> Seq<char> {
    if s.len() <= limit {
        s
    } else {
        s.take(limit as int) + "..."@
    }
}

/// The characters of the string with white space folded.
pub fn fold_whitespace(s: &str) -> (r: Vec<char>)
    ensures
        r@ == folded(s@),
{
    let chars = chars_of(s);
    let mut out: Vec<char> = Vec::new();
    let mut i: usize = 0;
    proof {
        assert(s@.take(0) == Seq::<char>::empty());
    }
    while i < chars.len()
        invariant
            chars@ == s@,
            i <= chars@.len(),
            out@ == folded(s@.take(i as int)),
        decreases chars@.len() - i,
    {
        let c: char = chars[i];
        proof {
            assert(s@.take(i + 1).drop_last() == s@.take(i as int));
            assert(s@.take(i + 1).last() == c);
            lemma_folded_empty(s@.take(i as int));
        }
        if !is_whitespace(c) {
            if out.len() > 0 && is_whitespace(chars[i - 1]) {
                out.push(' ');
            }
            out.push(c);
        }
        i += 1;
    }
    proof {
        assert(s@.take(i as int) == s@);
    }
    out
}

proof fn lemma_folded_empty(s: Seq<char>)
    ensures
        folded(s).len() > 0 ==> s.len() > 0,
{
}

/// The characters as a string, cut to the first `limit` of them, with three dots after them,
/// where there are more.
pub fn clip(chars: &Vec<char>, limit: usize) -> (r: String)
    ensures
        r@ == clipped(chars@, limit as nat),
{
    if chars.len() <= limit {
        proof {
            assert(chars@.subrange(0, chars@.len() as int) == chars@);
        }
        text_between(chars, 0, chars.len())
    } else {
        let mut out = text_between(chars, 0, limit);
        proof {
            assert(chars@.subrange(0, limit as int) == chars@.take(limit as int));
        }
        out.append("...");
        out
    }
}

// ---------------------------------------------------------------------------------------------
// Lines and joining
// ---------------------------------------------------------------------------------------------
/// The position of the first `c` in `s`, or the length of `s` where there is none.
pub open spec fn first_of(s: Seq<char>, c: char) -> int
    decreases s.len(),
{
    if s.len() == 0 || s[0] == c {
        0
    } else {
        1 + first_of(s.drop_first(), c)
    }
}

/// `s` without one carriage return at its end.
pub open spec fn without_return(s: Seq<char>) -> Seq<char> {
    if s.len() > 0 && s.last() == '\r' {
        s.drop_last()
    } else {
        s
    }
}

/// The lines of `s`: each ends at a line feed, which is left out together with a carriage return
/// before it; the last one needs no line feed.
pub open spec fn text_lines(s: Seq<char>) -> Seq<Seq<char>>
    decreases s.len(),
{
    if s.len() == 0 {
        Seq::empty()
    } else {
        let n = first_of(s, '\n');
        if 0 <= n < s.len() {
            seq![without_return(s.take(n))] + text_lines(s.skip(n + 1))
        } else {
            seq![s]
        }
    }
}

/// The parts, one after the other, with `sep` between them.
pub open spec fn joined(parts: Seq<Seq<char>>, sep: Seq<char>) -> Seq<char>
    decreases parts.len(),
{
    if parts.len() == 0 {
        Seq::empty()
    } else if parts.len() == 1 {
        parts[0]
    } else {
        joined(parts.drop_last(), sep) + sep + parts.last()
    }
}

pub proof fn lemma_first_of(s: Seq<char>, c: char, n: int)
    requires
        0 <= n <= s.len(),
        forall|i: int| 0 <= i < n ==> s[i] != c,
        n < s.len() ==> s[n] == c,
    ensures
        first_of(s, c) == n,
    decreases s.len(),
{
    if s.len() > 0 && s[0] != c {
        lemma_first_of(s.drop_first(), c, n - 1);
    }
}

/// The lines of the string.
pub fn lines(s: &str) -> (r: Vec<String>)
    ensures
        r.deep_view() == text_lines(s@),
{
    let chars = chars_of(s);
    let mut out: Vec<String> = Vec::new();
    let mut start: usize = 0;
    proof {
        assert(s@.skip(0) == s@);
        assert(out.deep_view() + text_lines(s@) == text_lines(s@));
    }
    while start < chars.len()
        invariant
            chars@ == s@,
            start <= chars@.len(),
            out.deep_view() + text_lines(s@.skip(start as int)) == text_lines(s@),
        decreases chars@.len() - start,
    {
        let mut end: usize = start;
        while end < chars.len() && chars[end] != '\n'
            invariant
                chars@ == s@,
                start <= end <= chars@.len(),
                forall|i: int| start <= i < end ==> s@[i] != '\n',
            decreases chars@.len() - end,
        {
            end += 1;
        }
        let ghost rest = s@.skip(start as int);
        let ghost n = end - start;
        proof {
            lemma_first_of(rest, '\n', n);
        }
        let ghost before = out.deep_view();
        if end < chars.len() {
            let stop: usize = if end > start && chars[end - 1] == '\r' {
                end - 1
            } else {
                end
            };
            out.push(text_between(&chars, start, stop));
            proof {
                assert(without_return(rest.take(n)) == s@.subrange(start as int, stop as int));
                assert(rest.skip(n + 1) == s@.skip(end + 1));
                assert(out.deep_view() == before.push(without_return(rest.take(n))));
                assert(out.deep_view() + text_lines(s@.skip(end + 1)) == before + text_lines(rest));
            }
            start = end + 1;
        } else {
            out.push(text_between(&chars, start, end));
            proof {
                assert(s@.subrange(start as int, end as int) == rest);
                assert(out.deep_view() == before.push(rest));
                assert(s@.skip(end as int).len() == 0);
                assert(out.deep_view() + text_lines(s@.skip(end as int)) == before + text_lines(
                    rest,
                ));
            }
            start = end;
        }
    }
    proof {
        assert(s@.skip(start as int).len() == 0);
        assert(out.deep_view() + text_lines(s@.skip(start as int)) == out.deep_view());
    }
    out
}

/// A file made of lines, each followed by a line feed.
pub fn join_lines(list: &Vec<String>) -> (r: String)
    ensures
        r@ == file_of(list.deep_view()),
{
    if list.len() == 0 {
        String::new()
    } else {
        let mut out = join(list, "\n");
        out.append("\n");
        out
    }
}

/// The parts, one after the other, with `sep` between them.
pub fn join(parts: &Vec<String>, sep: &str) -> (r: String)
    ensures
        r@ == joined(parts.deep_view(), sep@),
{
    let mut out = String::new();
    let mut i: usize = 0;
    while i < parts.len()
        invariant
            i <= parts@.len(),
            out@ == joined(parts.deep_view().take(i as int), sep@),
        decreases parts@.len() - i,
    {
        if i > 0 {
            out.append(sep);
        }
        out.append(parts[i].as_str());
        proof {
            assert(parts.deep_view().take(i + 1).drop_last() == parts.deep_view().take(i as int));
        }
        i += 1;
    }
    proof {
        assert(parts.deep_view().take(i as int) == parts.deep_view());
    }
    out
}

// ---------------------------------------------------------------------------------------------
// Laws
// ---------------------------------------------------------------------------------------------
/// Whether no line feed stands in `s`.
pub open spec fn one_line(s: Seq<char>) -> bool {
    forall|i: int| 0 <= i < s.len() ==> #[trigger] s[i] != '\n'
}

/// What is left after trimming has no white space at its ends, is no longer than the text, holds a
/// line feed only where the text does, and is not trimmed any further.
pub proof fn trimming_is_stable(s: Seq<char>)
    ensures
        trimmed(s).len() > 0 ==> !is_space(trimmed(s)[0]) && !is_space(trimmed(s).last()),
        trimmed(trimmed(s)) == trimmed(s),
        one_line(s) ==> one_line(trimmed(s)),
        trimmed(s).len() <= s.len(),
{
    lemma_trim_start(s);
    lemma_trim_end(trim_start(s));
    let t = trimmed(s);
    if t.len() > 0 {
        assert(t[0] == trim_start(s)[0]);
        assert(trim_start(t) == t);
        assert(trim_end(t) == t);
    }
}

proof fn lemma_trim_start(s: Seq<char>)
    ensures
        trim_start(s).len() <= s.len(),
        trim_start(s).len() > 0 ==> !is_space(trim_start(s)[0]),
        one_line(s) ==> one_line(trim_start(s)),
    decreases s.len(),
{
    if s.len() > 0 && is_space(s[0]) {
        lemma_trim_start(s.drop_first());
    }
}

proof fn lemma_trim_end(s: Seq<char>)
    ensures
        trim_end(s).len() <= s.len(),
        trim_end(s) == s.take(trim_end(s).len() as int),
        trim_end(s).len() > 0 ==> !is_space(trim_end(s).last()),
        one_line(s) ==> one_line(trim_end(s)),
    decreases s.len(),
{
    if s.len() > 0 && is_space(s.last()) {
        lemma_trim_end(s.drop_last());
        let n = trim_end(s).len() as int;
        assert(s.drop_last().take(n) == s.take(n));
    } else {
        assert(s.take(s.len() as int) == s);
    }
}

/// A text without white space at its ends is not changed by trimming.
pub proof fn lemma_trimmed_fixed(s: Seq<char>)
    requires
        s.len() > 0,
        !is_space(s[0]),
        !is_space(s.last()),
    ensures
        trimmed(s) == s,
{
}

/// No line feed stands in a line of a text.
pub proof fn lines_hold_no_line_feed(s: Seq<char>)
    ensures
        forall|i: int| 0 <= i < text_lines(s).len() ==> one_line(#[trigger] text_lines(s)[i]),
    decreases s.len(),
{
    if s.len() > 0 {
        let n = first_of(s, '\n');
        lemma_first_of_bounds(s, '\n');
        if n < s.len() {
            lines_hold_no_line_feed(s.skip(n + 1));
            let head = without_return(s.take(n));
            assert(one_line(head)) by {
                assert forall|i: int| 0 <= i < head.len() implies #[trigger] head[i] != '\n' by {
                    assert(head[i] == s[i]);
                }
            }
            let rest = text_lines(s.skip(n + 1));
            assert forall|i: int| 0 <= i < text_lines(s).len() implies one_line(
                #[trigger] text_lines(s)[i],
            ) by {
                if i > 0 {
                    assert(text_lines(s)[i] == rest[i - 1]);
                }
            }
        }
    }
}

proof fn lemma_first_of_bounds(s: Seq<char>, c: char)
    ensures
        0 <= first_of(s, c) <= s.len(),
        forall|i: int| 0 <= i < first_of(s, c) ==> s[i] != c,
        first_of(s, c) < s.len() ==> s[first_of(s, c)] == c,
    decreases s.len(),
{
    if s.len() > 0 && s[0] != c {
        lemma_first_of_bounds(s.drop_first(), c);
        assert forall|i: int| 0 <= i < first_of(s, c) implies s[i] != c by {
            if i > 0 {
                assert(s[i] == s.drop_first()[i - 1]);
            }
        }
    }
}

/// A file made of lines, each followed by a line feed.
pub open spec fn file_of(list: Seq<Seq<char>>) -> Seq<char> {
    if list.len() == 0 {
        Seq::empty()
    } else {
        joined(list, "\n"@) + "\n"@
    }
}

/// A file made of lines has those lines, unless one of them holds a line feed or ends with a
/// carriage return.
pub proof fn files_keep_their_lines(list: Seq<Seq<char>>)
    requires
        forall|i: int| 0 <= i < list.len() ==> one_line(#[trigger] list[i]),
        forall|i: int|
            0 <= i < list.len() && (#[trigger] list[i]).len() > 0 ==> list[i].last() != '\r',
    ensures
        text_lines(file_of(list)) == list,
    decreases list.len(),
{
    reveal_strlit("\n");
    if list.len() > 0 {
        let s = file_of(list);
        let head = list[0];
        let n = head.len() as int;
        let rest = list.drop_first();
        assert(one_line(list[0]));
        if list.len() == 1 {
            assert(s == head + "\n"@);
            assert(rest =~= Seq::empty());
        } else {
            lemma_joined_front(list, "\n"@);
            assert(s =~= head + "\n"@ + file_of(rest));
        }
        assert(s.len() > n && s[n] == '\n');
        assert forall|i: int| 0 <= i < n implies s[i] != '\n' by {
            assert(s[i] == head[i]);
        }
        lemma_first_of(s, '\n', n);
        assert(s.take(n) =~= head);
        assert(s.skip(n + 1) =~= file_of(rest));
        assert forall|i: int| 0 <= i < rest.len() implies one_line(#[trigger] rest[i]) by {
            assert(rest[i] == list[i + 1]);
        }
        assert forall|i: int| 0 <= i < rest.len() && (#[trigger] rest[i]).len() > 0 implies rest[i].last()
            != '\r' by {
            assert(rest[i] == list[i + 1]);
        }
        files_keep_their_lines(rest);
        assert(without_return(head) == head);
        assert(seq![head] + rest =~= list);
    }
}

proof fn lemma_joined_front(parts: Seq<Seq<char>>, sep: Seq<char>)
    requires
        parts.len() >= 2,
    ensures
        joined(parts, sep) == parts[0] + sep + joined(parts.drop_first(), sep),
    decreases parts.len(),
{
    let rest = parts.drop_first();
    if parts.len() == 2 {
        assert(parts.drop_last() =~= seq![parts[0]]);
        assert(joined(parts.drop_last(), sep) == parts[0]);
        assert(rest.len() == 1 && rest[0] == parts.last());
    } else {
        lemma_joined_front(parts.drop_last(), sep);
        assert(parts.drop_last().drop_first() =~= rest.drop_last());
        assert(rest.last() == parts.last());
        assert(joined(parts, sep) =~= parts[0] + sep + joined(rest, sep));
    }
}

/// Trimming takes away white space at the two ends of a text, all of it, and nothing else.
pub proof fn trimming_keeps_what_is_inside(s: Seq<char>)
    ensures
        exists|a: int, b: int|
            0 <= a <= b <= s.len() && #[trigger] s.subrange(a, b) == trimmed(s) && (forall|i: int|
                0 <= i < a ==> is_space(#[trigger] s[i])) && (forall|i: int|
                b <= i < s.len() ==> is_space(#[trigger] s[i])),
        trimmed(s).len() > 0 ==> !is_space(trimmed(s)[0]) && !is_space(trimmed(s).last()),
        is_blank(s) <==> forall|i: int| 0 <= i < s.len() ==> is_space(#[trigger] s[i]),
{
    trimming_is_stable(s);
    let a = lemma_trim_start_at(s);
    let t = trim_start(s);
    lemma_trim_end(t);
    let n = trim_end(t).len() as int;
    lemma_trim_end_spaces(t);
    assert(s.subrange(a, a + n) =~= trimmed(s));
    assert forall|i: int| a + n <= i < s.len() implies is_space(#[trigger] s[i]) by {
        assert(t[i - a] == s[i]);
    }
    if n > 0 {
        assert(!is_space(t[0]));
        assert(t[0] == s[a]);
    }
}

proof fn lemma_trim_start_at(s: Seq<char>) -> (a: int)
    ensures
        0 <= a <= s.len(),
        trim_start(s) == s.skip(a),
        forall|i: int| 0 <= i < a ==> is_space(#[trigger] s[i]),
    decreases s.len(),
{
    if s.len() > 0 && is_space(s[0]) {
        let rest = s.drop_first();
        let b = lemma_trim_start_at(rest);
        assert(rest.skip(b) =~= s.skip(b + 1));
        assert forall|i: int| 0 <= i < b + 1 implies is_space(#[trigger] s[i]) by {
            if i > 0 {
                assert(rest[i - 1] == s[i]);
            }
        }
        b + 1
    } else {
        assert(s.skip(0) =~= s);
        0
    }
}

proof fn lemma_trim_end_spaces(s: Seq<char>)
    ensures
        forall|i: int| trim_end(s).len() <= i < s.len() ==> is_space(#[trigger] s[i]),
    decreases s.len(),
{
    if s.len() > 0 && is_space(s.last()) {
        let before = s.drop_last();
        lemma_trim_end_spaces(before);
        assert forall|i: int| trim_end(s).len() <= i < s.len() implies is_space(#[trigger] s[i]) by {
            if i < before.len() {
                assert(before[i] == s[i]);
            }
        }
    }
}

/// Of the ASCII characters the space and the five from the tab to the carriage return are white space;
/// so are the space that does not break a line and the wide space, and no letter, digit or sign is.
pub proof fn white_space_is_what_it_is(c: char)
    ensures
        c as u32 <= 0x7f ==> (is_space(c) <==> c == ' ' || 9 <= c as u32 <= 13),
        c as u32 == 0xa0 || c as u32 == 0x3000 || c as u32 == 0x85 ==> is_space(c),
        c as u32 > 0x3000 ==> !is_space(c),
{
}

/// Folding leaves a text as it is where it has no white space, and puts one space in the place of any
/// white space between two parts of a text that are not blank.
pub proof fn folding_keeps_the_words(a: Seq<char>, c: char, b: Seq<char>)
    requires
        is_space(c),
    ensures
        (forall|i: int| 0 <= i < a.len() ==> !is_space(#[trigger] a[i])) ==> folded(a) == a,
        folded(a + seq![c] + b) == if folded(a).len() == 0 {
            folded(b)
        } else if folded(b).len() == 0 {
            folded(a)
        } else {
            folded(a) + seq![' '] + folded(b)
        },
{
    lemma_folded_plain(a);
    lemma_folded_two_parts(a, c, b);
}

proof fn lemma_folded_plain(a: Seq<char>)
    ensures
        (forall|i: int| 0 <= i < a.len() ==> !is_space(#[trigger] a[i])) ==> folded(a) == a,
    decreases a.len(),
{
    if a.len() > 0 && forall|i: int| 0 <= i < a.len() ==> !is_space(#[trigger] a[i]) {
        let before = a.drop_last();
        assert forall|i: int| 0 <= i < before.len() implies !is_space(#[trigger] before[i]) by {
            assert(before[i] == a[i]);
        }
        lemma_folded_plain(before);
        assert(!is_space(a[a.len() - 1]));
        if a.len() > 1 {
            assert(!is_space(a[a.len() - 2]));
        }
        assert(before.push(a.last()) =~= a);
    }
}

proof fn lemma_folded_two_parts(a: Seq<char>, c: char, b: Seq<char>)
    requires
        is_space(c),
    ensures
        folded(a + seq![c] + b) == if folded(a).len() == 0 {
            folded(b)
        } else if folded(b).len() == 0 {
            folded(a)
        } else {
            folded(a) + seq![' '] + folded(b)
        },
    decreases b.len(),
{
    let s = a + seq![c] + b;
    if b.len() == 0 {
        assert(s.drop_last() =~= a);
        assert(folded(b).len() == 0);
        assert(folded(b) =~= Seq::<char>::empty());
        if folded(a).len() == 0 {
            assert(folded(a) =~= folded(b));
        }
    } else {
        let before = b.drop_last();
        let x = b.last();
        lemma_folded_two_parts(a, c, before);
        assert(s.drop_last() =~= a + seq![c] + before);
        assert(s.last() == x);
        if before.len() == 0 {
            assert(s[s.len() - 2] == c);
            assert(folded(before).len() == 0);
            if !is_space(x) {
                assert(folded(b) =~= seq![x]);
                assert(folded(s) =~= if folded(a).len() == 0 {
                    folded(b)
                } else {
                    folded(a) + seq![' '] + folded(b)
                });
            }
        } else {
            assert(s[s.len() - 2] == b[b.len() - 2]);
            if !is_space(x) {
                lemma_folded_silent(before);
                assert(folded(s) =~= if folded(a).len() == 0 {
                    folded(b)
                } else {
                    folded(a) + seq![' '] + folded(b)
                });
            }
        }
    }
}

proof fn lemma_folded_silent(s: Seq<char>)
    ensures
        s.len() > 0 && folded(s).len() == 0 ==> is_space(s.last()),
{
}

/// A text that is cut keeps its first characters and gets three dots behind them; one that is short
/// enough is not cut.
pub proof fn cut_texts_begin_alike(s: Seq<char>, limit: nat)
    ensures
        s.len() <= limit ==> clipped(s, limit) == s,
        s.len() > limit ==> clipped(s, limit).len() == limit + 3 && (forall|i: int|
            0 <= i < limit ==> #[trigger] clipped(s, limit)[i] == s[i]) && (forall|i: int|
            limit <= i < limit + 3 ==> #[trigger] clipped(s, limit)[i] == '.'),
{
    reveal_strlit("...");
}

/// Parts that are joined stand one behind the other, with the separator between any two of them and
/// nowhere else.
pub proof fn joined_parts_stand_in_order(a: Seq<Seq<char>>, b: Seq<Seq<char>>, sep: Seq<char>)
    ensures
        a.len() == 0 ==> joined(a, sep).len() == 0,
        a.len() == 1 ==> joined(a, sep) == a[0],
        a.len() > 0 && b.len() > 0 ==> joined(a + b, sep) == joined(a, sep) + sep + joined(b, sep),
    decreases b.len(),
{
    if a.len() > 0 && b.len() > 0 {
        assert((a + b).drop_last() =~= a + b.drop_last());
        assert((a + b).last() == b.last());
        if b.len() == 1 {
            assert(a + b.drop_last() =~= a);
        } else {
            joined_parts_stand_in_order(a, b.drop_last(), sep);
            assert(joined(a + b, sep) =~= joined(a, sep) + sep + joined(b, sep));
        }
    }
}

/// A line ends at the first line feed; a carriage return before it is no part of the line, and what
/// follows it are the other lines.
pub proof fn lines_end_at_line_feeds(line: Seq<char>, rest: Seq<char>)
    requires
        one_line(line),
    ensures
        text_lines(line + seq!['\n'] + rest) == seq![
            if line.len() > 0 && line.last() == '\r' {
                line.drop_last()
            } else {
                line
            },
        ] + text_lines(rest),
        line.len() > 0 ==> text_lines(line) == seq![line],
{
    let s = line + seq!['\n'] + rest;
    let n = line.len() as int;
    assert forall|i: int| 0 <= i < n implies s[i] != '\n' by {
        assert(s[i] == line[i]);
    }
    lemma_first_of(s, '\n', n);
    assert(s.take(n) =~= line);
    assert(s.skip(n + 1) =~= rest);
    lemma_first_of(line, '\n', n);
}

/// Characters that are taken from the end of a text are all those at its end, and no others.
pub proof fn only_the_end_is_taken(s: Seq<char>, c: char)
    ensures
        trim_end_of(s, c).len() <= s.len(),
        s.take(trim_end_of(s, c).len() as int) == trim_end_of(s, c),
        trim_end_of(s, c).len() > 0 ==> trim_end_of(s, c).last() != c,
        forall|i: int| trim_end_of(s, c).len() <= i < s.len() ==> #[trigger] s[i] == c,
    decreases s.len(),
{
    if s.len() > 0 && s.last() == c {
        let before = s.drop_last();
        only_the_end_is_taken(before, c);
        let n = trim_end_of(s, c).len() as int;
        assert(before.take(n) =~= s.take(n));
        assert forall|i: int| n <= i < s.len() implies #[trigger] s[i] == c by {
            if i < before.len() {
                assert(before[i] == s[i]);
            }
        }
    } else {
        assert(s.take(s.len() as int) =~= s);
    }
}

} // verus!
