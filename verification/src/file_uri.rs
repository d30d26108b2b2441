//! Addresses of files, as the database takes them.
use vstd::prelude::*;
use vstd::utf8::{encode_utf8, is_ascii_chars, is_ascii_chars_encode_utf8};

use crate::search::{ascii_upper, ends, holds, stands_at, starts};

verus! {

/// Whether a query stands in an address as it is: ASCII letters and digits, and the equals sign.
pub open spec fn is_plain_query(query: Seq<char>) -> bool {
    forall|i: int|
        0 <= i < query.len() ==> {
            ||| 'a' <= #[trigger] query[i] <= 'z'
            ||| 'A' <= query[i] <= 'Z'
            ||| '0' <= query[i] <= '9'
            ||| query[i] == '='
        }
}

/// Whether a path stands in an address as it is: it begins with a slash, holds nothing but slashes,
/// ASCII letters and digits, the hyphen, the underscore and the full stop, and none of its parts is
/// empty or a single full stop.
pub open spec fn is_plain_path(path: Seq<char>) -> bool {
    &&& path.len() >= 2
    &&& path[0] == '/'
    &&& path.last() != '/'
    &&& forall|i: int|
        0 <= i < path.len() ==> {
            ||| 'a' <= #[trigger] path[i] <= 'z'
            ||| 'A' <= path[i] <= 'Z'
            ||| '0' <= path[i] <= '9'
            ||| path[i] == '/'
            ||| path[i] == '-'
            ||| path[i] == '_'
            ||| path[i] == '.'
        }
    &&& !holds(path, "//"@)
    &&& !holds(path, "/./"@)
    &&& !ends(path, "/."@)
}

/// Whether a character parts the names in a path that begins with a drive.
pub open spec fn is_separator(c: char) -> bool {
    c == '/' || c == '\\'
}

/// Whether a path is relative on every platform: it begins with no slash or backslash and names no
/// drive.
pub open spec fn is_relative_path(path: Seq<char>) -> bool {
    &&& path.len() > 0 ==> !is_separator(path[0])
    &&& forall|i: int| 0 <= i < path.len() ==> #[trigger] path[i] != ':'
}

/// Whether a path begins with a drive and its root, such as `C:\`.
pub open spec fn begins_with_drive(path: Seq<char>) -> bool {
    path.len() >= 3 && !is_separator(path[0]) && path[1] == ':' && is_separator(path[2])
}

/// Whether a path begins with two slashes or backslashes, as those of network shares do.
pub open spec fn begins_with_share(path: Seq<char>) -> bool {
    path.len() >= 2 && is_separator(path[0]) && is_separator(path[1])
}

/// Where the first slash stands, or the first backslash where backslashes part names too; the length
/// of the path where there is none.
pub open spec fn name_end(path: Seq<char>, backslashes: bool) -> nat
    decreases path.len(),
{
    if path.len() == 0 {
        0
    } else if path[0] == '/' || backslashes && path[0] == '\\' {
        0
    } else {
        1 + name_end(path.drop_first(), backslashes)
    }
}

/// The names in a path, in order. Slashes part them, and backslashes where they do too; nothing
/// between two of those, and a single full stop, is no name.
pub open spec fn path_names(path: Seq<char>, backslashes: bool) -> Seq<Seq<char>>
    decreases path.len(),
{
    if path.len() == 0 {
        Seq::empty()
    } else {
        let end = name_end(path, backslashes) as int;
        if end >= path.len() {
            named_part(path)
        } else {
            named_part(path.take(end)) + path_names(path.skip(end + 1), backslashes)
        }
    }
}

/// What stands between two separators, as the one name that it is or as none.
pub open spec fn named_part(part: Seq<char>) -> Seq<Seq<char>> {
    if part.len() == 0 || part == "."@ {
        Seq::empty()
    } else {
        seq![part]
    }
}

/// Whether a byte of a name stands in an address as it is: the visible characters of ASCII but for
/// those that mean something in an address.
pub open spec fn is_kept(b: u8) -> bool {
    &&& 0x21 <= b <= 0x7e
    &&& b != '"' as u8
    &&& b != '#' as u8
    &&& b != '%' as u8
    &&& b != '/' as u8
    &&& b != '<' as u8
    &&& b != '>' as u8
    &&& b != '?' as u8
    &&& b != '\\' as u8
    &&& b != '`' as u8
    &&& b != '{' as u8
    &&& b != '}' as u8
}

/// A number below 16 as a hexadecimal digit, in upper case.
pub open spec fn hex_digit(n: int) -> char {
    if n < 10 {
        (48 + n) as char
    } else {
        (55 + n) as char
    }
}

/// Bytes as an address writes them: those that are kept as they are, and any other as a percent sign
/// and two hexadecimal digits.
pub open spec fn encoded(bytes: Seq<u8>) -> Seq<char>
    decreases bytes.len(),
{
    if bytes.len() == 0 {
        Seq::empty()
    } else {
        let b = bytes.last();
        let before = encoded(bytes.drop_last());
        if is_kept(b) {
            before.push(b as char)
        } else {
            before + seq!['%', hex_digit(b as int / 16), hex_digit(b as int % 16)]
        }
    }
}

/// Names as an address writes them, each behind a slash.
pub open spec fn encoded_names(names: Seq<Seq<char>>) -> Seq<char>
    decreases names.len(),
{
    if names.len() == 0 {
        Seq::empty()
    } else {
        "/"@ + encoded(encode_utf8(names[0])) + encoded_names(names.drop_first())
    }
}

/// The names below a root as an address writes them: a single slash where there are none.
pub open spec fn encoded_path(names: Seq<Seq<char>>) -> Seq<char> {
    if names.len() == 0 {
        "/"@
    } else {
        encoded_names(names)
    }
}

/// The address of a path that begins with a slash.
pub open spec fn slash_address(path: Seq<char>) -> Seq<char> {
    "file://"@ + encoded_path(path_names(path, false))
}

/// The address of a path below the root of a drive.
pub open spec fn drive_address(letter: char, below: Seq<char>) -> Seq<char> {
    "file:///"@ + seq![letter, ':'] + encoded_path(path_names(below, true))
}

/// The address that the path of a network share has, with a query behind it, on a platform that knows
/// network shares.
pub uninterp spec fn share_address(path: Seq<char>, query: Seq<char>) -> Seq<char>;

/// Whether a text is the address of a path, with a query behind it. Only a path that begins with a
/// slash, with a drive and its root, or like that of a network share has one. A drive may be written
/// in upper case. `share` is the address that the path has as that of a network share.
pub open spec fn is_address(
    text: Seq<char>,
    path: Seq<char>,
    query: Seq<char>,
    share: Seq<char>,
) -> bool {
    let end = "?"@ + query;
    if begins_with_drive(path) {
        ||| text == drive_address(path[0], path.skip(2)) + end
        ||| text == drive_address(ascii_upper(path[0]), path.skip(2)) + end
    } else if begins_with_share(path) {
        ||| text == share
        ||| path[0] == '/' && text == slash_address(path) + end
    } else {
        path.len() > 0 && path[0] == '/' && text == slash_address(path) + end
    }
}

/// `url::Url::from_file_path` and `url::Url::set_query`: the address of a file with a query behind
/// it, where the path has an address, as it is written. The address is one of the scheme `file` and
/// ends with the query. It follows from the path: the names in the path, which are those that
/// `std::path::Path::components` finds, stand in it one behind the other, percent-encoded. That of a
/// network share, which holds the name of a host, depends on the path and the query alone, and no
/// more is said of it. Whether a path has an address depends on the platform: one that begins with a
/// slash has one on Unix, and one that begins with a drive has one on Windows. A path must not be so
/// long that its address passes four gigabytes.
#[verifier::external_body]
fn file_address(path: &str, query: &str) -> (r: Option<String>)
    requires
        path@.len() + query@.len() <= 100_000_000,
        is_plain_query(query@),
    ensures
        r matches Some(text) ==> {
            &&& is_address(text@, path@, query@, share_address(path@, query@))
            &&& starts(text@, "file://"@)
            &&& ends(text@, "?"@ + query@)
        },
{
    let mut address = url::Url::from_file_path(path).ok()?;
    address.set_query(Some(query));
    Some(address.as_str().to_string())
}

/// The message about a path that has no address.
pub open spec fn no_address_message(path: Seq<char>) -> Seq<char> {
    "Failed to build readonly URI for "@ + path
}

/// What is made of the address of a database: the address, or a message where the path has none.
pub fn accept_readonly_uri(db_path: &str, address: Option<String>) -> (r: Result<String, String>)
    ensures
        match (address, r) {
            (Some(a), Ok(text)) => text@ == a@,
            (None, Err(message)) => message@ == no_address_message(db_path@),
            _ => false,
        },
{
    match address {
        Some(a) => Ok(a),
        None => {
            let mut message = "Failed to build readonly URI for ".to_owned();
            message.append(db_path);
            Err(message)
        },
    }
}

/// The address at which a database is opened for reading only.
pub fn readonly_uri(db_path: &str) -> (r: Result<String, String>)
    requires
        db_path@.len() <= 99_999_992,
    ensures
        is_relative_path(db_path@) ==> r is Err,
        match r {
            Ok(text) => {
                &&& is_address(
                    text@,
                    db_path@,
                    "mode=ro"@,
                    share_address(db_path@, "mode=ro"@),
                )
                &&& starts(text@, "file://"@)
                &&& ends(text@, "?"@ + "mode=ro"@)
                &&& is_plain_path(db_path@) ==> text@ == "file://"@ + db_path@ + "?"@ + "mode=ro"@
            },
            Err(message) => message@ == no_address_message(db_path@),
        },
{
    proof {
        reveal_strlit("mode=ro");
        assert(is_plain_query("mode=ro"@));
        if is_plain_path(db_path@) {
            plain_paths_stand_as_they_are(db_path@);
            assert("file://"@ + db_path@ + ("?"@ + "mode=ro"@) =~= "file://"@ + db_path@ + "?"@
                + "mode=ro"@);
        }
    }
    accept_readonly_uri(db_path, file_address(db_path, "mode=ro"))
}

// ---------------------------------------------------------------------------------------------
// Laws
// ---------------------------------------------------------------------------------------------
/// Whether a plain character or a slash stands everywhere, and a name other than a single full stop
/// behind every slash.
spec fn is_tidy(s: Seq<char>) -> bool {
    &&& forall|i: int|
        0 <= i < s.len() ==> {
            ||| 'a' <= #[trigger] s[i] <= 'z'
            ||| 'A' <= s[i] <= 'Z'
            ||| '0' <= s[i] <= '9'
            ||| s[i] == '/'
            ||| s[i] == '-'
            ||| s[i] == '_'
            ||| s[i] == '.'
        }
    &&& forall|i: int|
        0 <= i < s.len() && #[trigger] s[i] == '/' ==> {
            &&& i + 1 < s.len()
            &&& s[i + 1] != '/'
            &&& s[i + 1] == '.' ==> i + 2 < s.len() && s[i + 2] != '/'
        }
}

proof fn lemma_plain_is_tidy(path: Seq<char>)
    requires
        is_plain_path(path),
    ensures
        is_tidy(path),
{
    reveal_strlit("//");
    reveal_strlit("/./");
    reveal_strlit("/.");
    assert forall|i: int| 0 <= i < path.len() && #[trigger] path[i] == '/' implies {
        &&& i + 1 < path.len()
        &&& path[i + 1] != '/'
        &&& path[i + 1] == '.' ==> i + 2 < path.len() && path[i + 2] != '/'
    } by {
        if path[i + 1] == '/' {
            assert(path.subrange(i, i + 2) =~= "//"@);
            assert(stands_at(path, "//"@, i));
        }
        if path[i + 1] == '.' {
            if i + 2 >= path.len() {
                assert(path.subrange(i, i + 2) =~= "/."@);
            } else if path[i + 2] == '/' {
                assert(path.subrange(i, i + 3) =~= "/./"@);
                assert(stands_at(path, "/./"@, i));
            }
        }
    }
}

proof fn lemma_name_end(path: Seq<char>)
    ensures
        name_end(path, false) <= path.len(),
        name_end(path, false) < path.len() ==> path[name_end(path, false) as int] == '/',
        forall|i: int| 0 <= i < name_end(path, false) ==> #[trigger] path[i] != '/',
    decreases path.len(),
{
    if path.len() > 0 && path[0] != '/' {
        lemma_name_end(path.drop_first());
        assert forall|i: int| 0 <= i < name_end(path, false) implies #[trigger] path[i] != '/' by {
            if i > 0 {
                assert(path.drop_first()[i - 1] != '/');
            }
        }
    }
}

proof fn lemma_kept_bytes(name: Seq<char>, bytes: Seq<u8>)
    requires
        name.len() == bytes.len(),
        forall|i: int|
            0 <= i < name.len() ==> is_kept(#[trigger] bytes[i]) && bytes[i] as char == name[i],
    ensures
        encoded(bytes) == name,
    decreases name.len(),
{
    if name.len() > 0 {
        let before = bytes.drop_last();
        assert forall|i: int| 0 <= i < before.len() implies is_kept(#[trigger] before[i])
            && before[i] as char == name.drop_last()[i] by {
            assert(before[i] == bytes[i]);
        }
        lemma_kept_bytes(name.drop_last(), before);
        assert(is_kept(bytes[bytes.len() - 1]));
        assert(name.drop_last().push(name.last()) =~= name);
    } else {
        assert(encoded(bytes) =~= name);
    }
}

proof fn lemma_name_stands(name: Seq<char>)
    requires
        is_tidy(name),
        forall|i: int| 0 <= i < name.len() ==> #[trigger] name[i] != '/',
    ensures
        encoded(encode_utf8(name)) == name,
{
    assert(is_ascii_chars(name));
    is_ascii_chars_encode_utf8(name);
    let bytes = encode_utf8(name);
    assert forall|i: int| 0 <= i < name.len() implies is_kept(#[trigger] bytes[i]) && bytes[i] as char
        == name[i] by {
        assert(name[i] as u8 == bytes[i]);
    }
    lemma_kept_bytes(name, bytes);
}

proof fn lemma_tidy_names(path: Seq<char>)
    requires
        is_tidy(path),
        path.len() > 0,
        path[0] == '/',
    ensures
        path_names(path, false).len() > 0,
        encoded_names(path_names(path, false)) == path,
    decreases path.len(),
{
    reveal_strlit(".");
    reveal_strlit("/");
    let inner = path.skip(1);
    let end = name_end(inner, false) as int;
    lemma_name_end(inner);
    let name = inner.take(end);
    let rest = inner.skip(end);
    assert(path[1] != '/' && inner[0] == path[1]);
    assert(end > 0);
    assert(name != "."@) by {
        if name == "."@ {
            assert(name.len() == 1 && name[0] == '.');
            assert(path[1] == '.');
            assert(path[2] == inner[1]);
        }
    }
    assert forall|i: int| 0 <= i < name.len() implies #[trigger] name[i] != '/' by {
        assert(inner[i] != '/');
    }
    assert(is_tidy(name)) by {
        assert forall|i: int| 0 <= i < name.len() implies #[trigger] name[i] == path[i + 1] by {}
    }
    lemma_name_stands(name);
    assert(named_part(path.take(0)) =~= Seq::<Seq<char>>::empty());
    assert(path_names(path, false) =~= path_names(inner, false));
    if end < inner.len() {
        assert(rest[0] == '/');
        assert forall|i: int| 0 <= i < rest.len() implies #[trigger] rest[i] == path[i + 1 + end] by {}
        assert(is_tidy(rest)) by {
            assert forall|i: int| 0 <= i < rest.len() && #[trigger] rest[i] == '/' implies {
                &&& i + 1 < rest.len()
                &&& rest[i + 1] != '/'
                &&& rest[i + 1] == '.' ==> i + 2 < rest.len() && rest[i + 2] != '/'
            } by {
                assert(path[i + 1 + end] == '/');
            }
        }
        lemma_tidy_names(rest);
        assert(named_part(rest.take(0)) =~= Seq::<Seq<char>>::empty());
        assert(rest.skip(1) =~= inner.skip(end + 1));
        assert(path_names(rest, false) =~= path_names(inner.skip(end + 1), false));
        assert(path_names(path, false) =~= seq![name] + path_names(rest, false));
        assert(path_names(path, false).drop_first() =~= path_names(rest, false));
    } else {
        assert(name =~= inner);
        assert(path_names(path, false) =~= seq![name]);
        assert(path_names(path, false).drop_first() =~= Seq::<Seq<char>>::empty());
        assert(rest =~= Seq::<char>::empty());
    }
    assert(path_names(path, false)[0] == name);
    assert(encoded_names(path_names(path, false).drop_first()) =~= rest);
    assert("/"@ + name + rest =~= path);
}

/// A plain path stands in its address as it is.
pub proof fn plain_paths_stand_as_they_are(path: Seq<char>)
    requires
        is_plain_path(path),
    ensures
        slash_address(path) == "file://"@ + path,
        forall|text: Seq<char>, query: Seq<char>, share: Seq<char>| #[trigger]
            is_address(text, path, query, share) ==> text == "file://"@ + path + ("?"@ + query),
{
    lemma_plain_is_tidy(path);
    lemma_tidy_names(path);
    assert(path[1] != '/');
    assert(path[1] != '\\');
}

/// The message about a path that has no address names the path.
pub proof fn messages_name_the_path(path: Seq<char>)
    ensures
        no_address_message(path) == "Failed to build readonly URI for "@ + path,
{
}

} // verus!
