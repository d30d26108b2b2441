//! Names made from other names: file names, paths, and identifiers in SQL.
use vstd::prelude::*;

use crate::text::chars_of;

verus! {

// ---------------------------------------------------------------------------------------------
// File names
// ---------------------------------------------------------------------------------------------
/// Whether a character may stand in a file name as it is: ASCII letters and digits, the hyphen and
/// the underscore.
pub open spec fn is_plain(c: char) -> bool {
    ||| 'a' <= c <= 'z'
    ||| 'A' <= c <= 'Z'
    ||| '0' <= c <= '9'
    ||| c == '-'
    ||| c == '_'
}

/// A text with an underscore in place of every character that may not stand in a file name.
pub open spec fn file_safe(value: Seq<char>) -> Seq<char> {
    value.map_values(
        |c: char|
            if is_plain(c) {
                c
            } else {
                '_'
            },
    )
}

/// The text with an underscore in place of every character that may not stand in a file name.
pub fn sanitize_for_file_name(value: &str) -> (r: String)
    ensures
        r@ == file_safe(value@),
{
    let chars = chars_of(value);
    let mut out = String::new();
    let mut i: usize = 0;
    while i < chars.len()
        invariant
            chars@ == value@,
            i <= chars@.len(),
            out@ == file_safe(value@).take(i as int),
        decreases chars@.len() - i,
    {
        let c: char = chars[i];
        let plain = ('a' <= c && c <= 'z') || ('A' <= c && c <= 'Z') || ('0' <= c && c <= '9') || c
            == '-' || c == '_';
        let d: char = if plain {
            c
        } else {
            '_'
        };
        out.push(d);
        proof {
            assert(file_safe(value@).take(i + 1) == file_safe(value@).take(i as int).push(d));
        }
        i += 1;
    }
    proof {
        assert(file_safe(value@).take(i as int) == file_safe(value@));
    }
    out
}

/// A file name made from any text is as long as the text, holds only plain characters, so that it
/// names no other directory, and is made from itself.
pub proof fn file_names_are_plain(value: Seq<char>)
    ensures
        file_safe(value).len() == value.len(),
        forall|i: int| 0 <= i < value.len() ==> is_plain(#[trigger] file_safe(value)[i]),
        file_safe(file_safe(value)) == file_safe(value),
{
}

/// ASCII letters and digits, hyphens and underscores stand in a file name as they are, and an underscore
/// stands for anything else.
pub proof fn file_names_keep_letters_and_digits(value: Seq<char>, i: int)
    requires
        0 <= i < value.len(),
    ensures
        ({
            let c = value[i];
            let kept = 'a' <= c <= 'z' || 'A' <= c <= 'Z' || '0' <= c <= '9' || c == '-' || c == '_';
            file_safe(value)[i] == if kept {
                c
            } else {
                '_'
            }
        }),
{
}

/// The directory that the backups of all favorites lie in, below the home directory.
pub open spec fn favorite_root() -> Seq<Seq<char>> {
    seq![".codex"@, "cockpit-tools-session-favorites"@]
}

/// The directory that the backup of a favorite lies in: the names that lead to it from the home
/// directory.
pub open spec fn favorite_path(instance_id: Seq<char>, session_id: Seq<char>) -> Seq<Seq<char>> {
    favorite_root() + seq![file_safe(instance_id), file_safe(session_id)]
}

/// The directory that the backups of all favorites lie in: the names that lead to it, the home
/// directory first.
pub fn get_session_backup_base_dir(home: Option<&str>) -> (r: Result<Vec<String>, String>)
    ensures
        match (home, r) {
            (Some(h), Ok(names)) => names.deep_view() == seq![h@] + favorite_root(),
            (None, Err(e)) => e@ == "Failed to resolve home directory."@,
            _ => false,
        },
{
    match home {
        Some(h) => {
            let mut names: Vec<String> = Vec::new();
            names.push(h.to_owned());
            names.push(".codex".to_owned());
            names.push("cockpit-tools-session-favorites".to_owned());
            proof {
                assert(names.deep_view() =~= seq![h@] + favorite_root());
            }
            Ok(names)
        },
        None => Err("Failed to resolve home directory.".to_owned()),
    }
}

/// The directory that the backup of a favorite lies in: the names that lead to it, the home
/// directory first.
pub fn get_session_favorite_dir(home: Option<&str>, instance_id: &str, session_id: &str) -> (r: Result<
    Vec<String>,
    String,
>)
    ensures
        match (home, r) {
            (Some(h), Ok(names)) => names.deep_view() == seq![h@] + favorite_path(
                instance_id@,
                session_id@,
            ),
            (None, Err(e)) => e@ == "Failed to resolve home directory."@,
            _ => false,
        },
{
    match get_session_backup_base_dir(home) {
        Ok(base) => {
            let mut names = base;
            let ghost root = names.deep_view();
            names.push(sanitize_for_file_name(instance_id));
            names.push(sanitize_for_file_name(session_id));
            proof {
                assert(names.deep_view() =~= root + seq![
                    file_safe(instance_id@),
                    file_safe(session_id@),
                ]);
            }
            Ok(names)
        },
        Err(e) => Err(e),
    }
}

/// Whether a session is a favorite: the directory of its backup is known and exists.
pub fn is_session_favorited(favorite_dir: &Result<Vec<String>, String>, exists_on_disk: bool) -> (r:
    bool)
    ensures
        r == (*favorite_dir is Ok && exists_on_disk),
{
    match favorite_dir {
        Ok(_) => exists_on_disk,
        Err(_) => false,
    }
}

/// The backup of every favorite lies below one directory of the home directory, two names deep, and
/// those two names hold only plain characters, whatever the identifiers hold.
pub proof fn favorites_stay_below_their_root(instance_id: Seq<char>, session_id: Seq<char>)
    ensures
        favorite_path(instance_id, session_id).len() == favorite_root().len() + 2,
        favorite_path(instance_id, session_id).take(2) == favorite_root(),
        forall|n: int, i: int|
            2 <= n < 4 && 0 <= i < favorite_path(instance_id, session_id)[n].len() ==> is_plain(
                #[trigger] favorite_path(instance_id, session_id)[n][i],
            ),
{
    let p = favorite_path(instance_id, session_id);
    assert(p.take(2) =~= favorite_root());
    assert forall|n: int, i: int| 2 <= n < 4 && 0 <= i < p[n].len() implies is_plain(
        #[trigger] p[n][i],
    ) by {
        file_names_are_plain(instance_id);
        file_names_are_plain(session_id);
        if n == 2 {
            assert(p[n] == file_safe(instance_id));
        } else {
            assert(p[n] == file_safe(session_id));
        }
    }
}

/// The backup of a favorite lies in a directory named after the instance and the session, below the
/// directory of all favorites.
pub proof fn favorites_are_named_after_their_session(instance_id: Seq<char>, session_id: Seq<char>)
    ensures
        favorite_path(instance_id, session_id) == seq![
            ".codex"@,
            "cockpit-tools-session-favorites"@,
            file_safe(instance_id),
            file_safe(session_id),
        ],
{
}

/// Whether a text holds only characters that may stand in a file name.
pub open spec fn all_plain(value: Seq<char>) -> bool {
    forall|i: int| 0 <= i < value.len() ==> is_plain(#[trigger] value[i])
}

/// The backups of two sessions lie in two directories, as long as the identifiers hold only characters
/// that may stand in a file name.
pub proof fn favorites_have_their_own_directory(
    instance_a: Seq<char>,
    session_a: Seq<char>,
    instance_b: Seq<char>,
    session_b: Seq<char>,
)
    requires
        all_plain(instance_a),
        all_plain(session_a),
        all_plain(instance_b),
        all_plain(session_b),
    ensures
        favorite_path(instance_a, session_a) == favorite_path(instance_b, session_b) <==> (instance_a
            == instance_b && session_a == session_b),
{
    assert(file_safe(instance_a) =~= instance_a);
    assert(file_safe(session_a) =~= session_a);
    assert(file_safe(instance_b) =~= instance_b);
    assert(file_safe(session_b) =~= session_b);
    let a = favorite_path(instance_a, session_a);
    let b = favorite_path(instance_b, session_b);
    assert(a[2] == instance_a && a[3] == session_a);
    assert(b[2] == instance_b && b[3] == session_b);
}

// ---------------------------------------------------------------------------------------------
// The files of a database
// ---------------------------------------------------------------------------------------------
/// The write-ahead log beside a database.
pub fn wal_path(db_path: &str) -> (r: String)
    ensures
        r@ == db_path@ + "-wal"@,
{
    let mut out = db_path.to_owned();
    out.append("-wal");
    out
}

/// The shared memory file beside a database.
pub fn shm_path(db_path: &str) -> (r: String)
    ensures
        r@ == db_path@ + "-shm"@,
{
    let mut out = db_path.to_owned();
    out.append("-shm");
    out
}

// ---------------------------------------------------------------------------------------------
// Identifiers in SQL
// ---------------------------------------------------------------------------------------------
/// A text with every quotation mark doubled.
pub open spec fn doubled_quotes(value: Seq<char>) -> Seq<char>
    decreases value.len(),
{
    if value.len() == 0 {
        value
    } else if value.last() == '"' {
        doubled_quotes(value.drop_last()).push('"').push('"')
    } else {
        doubled_quotes(value.drop_last()).push(value.last())
    }
}

/// A name as SQL writes it between quotation marks.
pub open spec fn quoted(value: Seq<char>) -> Seq<char> {
    seq!['"'] + doubled_quotes(value) + seq!['"']
}

/// The name as SQL writes it between quotation marks.
pub fn quote_identifier(value: &str) -> (r: String)
    ensures
        r@ == quoted(value@),
{
    let chars = chars_of(value);
    let mut out = String::new();
    out.push('"');
    let mut i: usize = 0;
    proof {
        assert(value@.take(0).len() == 0);
        assert(out@ == seq!['"'] + doubled_quotes(value@.take(0)));
    }
    while i < chars.len()
        invariant
            chars@ == value@,
            i <= chars@.len(),
            out@ == seq!['"'] + doubled_quotes(value@.take(i as int)),
        decreases chars@.len() - i,
    {
        let c: char = chars[i];
        if c == '"' {
            out.push('"');
        }
        out.push(c);
        proof {
            assert(value@.take(i + 1).drop_last() == value@.take(i as int));
            assert(out@ == seq!['"'] + doubled_quotes(value@.take(i + 1)));
        }
        i += 1;
    }
    out.push('"');
    proof {
        assert(value@.take(i as int) == value@);
        assert(out@ == quoted(value@));
    }
    out
}

/// What SQL reads behind an opening quotation mark: the name up to the first quotation mark that is
/// not doubled, and what follows that mark.
pub open spec fn read_quoted(s: Seq<char>) -> Option<(Seq<char>, Seq<char>)>
    decreases s.len(),
{
    if s.len() == 0 {
        None
    } else if s[0] != '"' {
        match read_quoted(s.drop_first()) {
            Some((name, rest)) => Some((seq![s[0]] + name, rest)),
            None => None,
        }
    } else if s.len() > 1 && s[1] == '"' {
        match read_quoted(s.skip(2)) {
            Some((name, rest)) => Some((seq!['"'] + name, rest)),
            None => None,
        }
    } else {
        Some((Seq::empty(), s.skip(1)))
    }
}

/// A quoted name begins with a quotation mark, and is read as that name and no more, whatever it
/// holds and whatever follows it but another quotation mark.
pub proof fn quoted_names_read_back(value: Seq<char>, rest: Seq<char>)
    requires
        rest.len() == 0 || rest[0] != '"',
    ensures
        quoted(value)[0] == '"',
        read_quoted((quoted(value) + rest).skip(1)) == Some((value, rest)),
{
    let tail = seq!['"'] + rest;
    assert((quoted(value) + rest).skip(1) == doubled_quotes(value) + tail);
    lemma_read_doubled(value, tail);
    assert(tail.skip(1) == rest);
    assert(read_quoted(tail) == Some((Seq::<char>::empty(), rest)));
    assert(value + Seq::<char>::empty() == value);
}

proof fn lemma_read_doubled(value: Seq<char>, tail: Seq<char>)
    requires
        read_quoted(tail) is Some,
    ensures
        read_quoted(doubled_quotes(value) + tail) == Some(
            (value + (read_quoted(tail)->0).0, (read_quoted(tail)->0).1),
        ),
    decreases value.len(),
{
    if value.len() == 0 {
        assert(doubled_quotes(value) + tail == tail);
        assert(value + (read_quoted(tail)->0).0 == (read_quoted(tail)->0).0);
    } else {
        let before = value.drop_last();
        let c = value.last();
        let next = if c == '"' {
            seq!['"', '"'] + tail
        } else {
            seq![c] + tail
        };
        assert(doubled_quotes(value) + tail == doubled_quotes(before) + next);
        if c == '"' {
            assert(next.skip(2) == tail);
        } else {
            assert(next.drop_first() == tail);
        }
        assert(read_quoted(next) == Some(
            (seq![c] + (read_quoted(tail)->0).0, (read_quoted(tail)->0).1),
        ));
        lemma_read_doubled(before, next);
        assert(before + (seq![c] + (read_quoted(tail)->0).0) == value + (read_quoted(tail)->0).0);
    }
}

} // verus!
