//! File system paths, as text.
//!
//! Platforms read paths in two ways. All of them take a slash for a separator. Some also take a
//! backslash for one, a letter and a colon at the start for a drive, and two separators at the start
//! for a network share; there, behind two backslashes and a question mark, names are taken as they
//! stand.
use crate::engine::command;
use crate::split;
use crate::text;
use vstd::prelude::*;

verus! {

// ---------------------------------------------------------------------------
// Names
// ---------------------------------------------------------------------------
/// A slash or a backslash.
pub open spec fn separator(c: char) -> bool {
    c == '/' || c == '\\'
}

/// The path starts with two separators, which some platforms take for the name of a network share.
pub open spec fn shared(path: Seq<char>) -> bool {
    path.len() >= 2 && separator(path[0]) && separator(path[1])
}

/// The path starts like one with a drive.
pub open spec fn drive(path: Seq<char>) -> bool {
    path.len() >= 2 && path[1] == ':'
}

/// The path starts with two backslashes and a question mark, behind which some platforms take names
/// as they stand.
pub open spec fn verbatim(path: Seq<char>) -> bool {
    path.len() >= 3 && path[0] == '\\' && path[1] == '\\' && path[2] == '?'
}

/// A path that means the same on every platform: no backslash, no drive and no network share.
pub open spec fn portable(path: Seq<char>) -> bool {
    &&& !path.contains('\\')
    &&& !drive(path)
    &&& !(path.len() >= 2 && path[0] == '/' && path[1] == '/')
}

/// The path with slashes for backslashes.
pub open spec fn slashed(path: Seq<char>) -> Seq<char> {
    path.map_values(
        |c: char|
            if c == '\\' {
                '/'
            } else {
                c
            },
    )
}

/// The names that a path consists of, where only slashes separate them. Repeated slashes, slashes at
/// the ends, and dots that stand for the same directory add no name.
pub open spec fn components(path: Seq<char>) -> Seq<Seq<char>>
    decreases path.len(),
{
    if path.len() == 0 {
        seq![]
    } else {
        let n = text::first_where(path, text::is_char('/'));
        let head = path.take(n);
        let tail = if 0 <= n < path.len() {
            components(path.skip(n + 1))
        } else {
            seq![]
        };
        if head.len() == 0 || head == seq!['.'] {
            tail
        } else {
            seq![head] + tail
        }
    }
}

/// The last name of a path, unless that leads to the parent directory.
pub open spec fn last_name(names: Seq<Seq<char>>) -> Option<Seq<char>> {
    if names.len() > 0 && names.last() != seq!['.', '.'] {
        Some(names.last())
    } else {
        None
    }
}

/// The first `n` characters can be the drive or the network share of the path. A drive is a letter
/// and a colon. A share has two names at most, and ends where a name ends.
pub open spec fn rooted_at(path: Seq<char>, n: int) -> bool {
    if shared(path) {
        &&& 0 <= n <= path.len()
        &&& n < path.len() ==> separator(path[n])
        &&& components(slashed(path.take(n))).len() <= 2
    } else if drive(path) {
        ||| n == 2
        ||| n == 0 && !('a' <= path[0] && path[0] <= 'z') && !('A' <= path[0] && path[0] <= 'Z')
    } else {
        n == 0
    }
}

/// The names of the path behind its first `n` characters, where backslashes separate them too.
pub open spec fn names_behind(path: Seq<char>, n: int) -> Seq<Seq<char>> {
    components(slashed(path.skip(n)))
}

/// `name` is a piece of the path without backslashes.
pub open spec fn piece(path: Seq<char>, name: Seq<char>) -> bool {
    &&& name.len() > 0
    &&& !name.contains('\\')
    &&& exists|a: int, b: int| 0 <= a <= b <= path.len() && name == #[trigger] path.subrange(a, b)
}

/// `name` is the last name of the path, in one of the ways to read it.
pub open spec fn named(path: Seq<char>, name: Option<Seq<char>>) -> bool {
    ||| name == last_name(components(path))
    ||| exists|n: int| #[trigger] rooted_at(path, n) && name == last_name(names_behind(path, n))
    ||| verbatim(path) && (name matches Some(s) ==> piece(path, s))
}

/// The last name of a path, or else the whole path.
pub open spec fn base_name(path: Seq<char>) -> Seq<char> {
    match last_name(components(path)) {
        Some(name) => name,
        None => path,
    }
}

/// `base` is the last name of the path, or else the whole path, in one of the ways to read it.
pub open spec fn called(path: Seq<char>, base: Seq<char>) -> bool {
    exists|name: Option<Seq<char>>| #[trigger]
        named(path, name) && base == (match name {
            Some(s) => s,
            None => path,
        })
}

/// A portable path is read in one way only.
pub proof fn lemma_portable(path: Seq<char>)
    requires
        portable(path),
    ensures
        !verbatim(path),
        forall|n: int| #[trigger] rooted_at(path, n) ==> n == 0,
        path.skip(0) == path,
        names_behind(path, 0) == components(path),
{
    assert forall|i: int| 0 <= i < path.len() implies #[trigger] path[i] != '\\' by {
        assert(path.contains(path[i]));
    }
    assert(path.skip(0) =~= path);
    assert(slashed(path) =~= path);
}

/// What a portable path starts with is portable.
pub proof fn lemma_portable_start(path: Seq<char>, n: int)
    requires
        portable(path),
        0 <= n <= path.len(),
    ensures
        portable(path.take(n)),
{
    let start = path.take(n);
    assert forall|i: int| 0 <= i < start.len() implies #[trigger] start[i] != '\\' by {
        assert(path.contains(path[i]));
    }
}

/// `Path::file_name`: the final component of the path, if there is one. How the path is read depends
/// on the platform.
#[verifier::external_body]
pub(crate) fn file_name(path: &str) -> (r: Option<String>)
    ensures
        named(path@, command::maybe(r)),
{
    std::path::Path::new(path).file_name().map(|name| name.to_string_lossy().into_owned())
}

/// What `path` is called: its last name, or else the whole path.
pub fn name_of(path: &str) -> (r: String)
    ensures
        called(path@, r@),
        portable(path@) ==> r@ == base_name(path@),
{
    let name: Option<String> = file_name(path);
    proof {
        assert(named(path@, command::maybe(name)));
        if portable(path@) {
            lemma_portable(path@);
        }
    }
    match name {
        Some(s) => s,
        None => path.to_owned(),
    }
}

// ---------------------------------------------------------------------------
// Parents
// ---------------------------------------------------------------------------
/// `up` are the names of the parent of a path with the given names. A path without names may or may
/// not have a parent, which then has no names either.
pub open spec fn leads_up(names: Seq<Seq<char>>, up: Option<Seq<Seq<char>>>) -> bool {
    &&& names.len() > 0 ==> up is Some
    &&& up matches Some(upper) ==> upper == (if names.len() > 0 {
        names.drop_last()
    } else {
        names
    })
}

/// `up` is the parent of the path, in one of the ways to read them: the path starts with it.
pub open spec fn above(path: Seq<char>, up: Option<Seq<char>>) -> bool {
    &&& up matches Some(dir) ==> dir.len() <= path.len() && dir == path.take(dir.len() as int)
    &&& {
        ||| leads_up(
            components(path),
            match up {
                Some(dir) => Some(components(dir)),
                None => None,
            },
        )
        ||| exists|n: int| #[trigger]
            rooted_at(path, n) && (up matches Some(dir) ==> n <= dir.len()) && leads_up(
                names_behind(path, n),
                match up {
                    Some(dir) => Some(names_behind(dir, n)),
                    None => None,
                },
            )
        ||| verbatim(path)
    }
}

/// `Path::parent`: the path without its final component, if there is one. How the path is read
/// depends on the platform.
#[verifier::external_body]
pub(crate) fn parent(path: &str) -> (r: Option<String>)
    ensures
        above(path@, command::maybe(r)),
{
    std::path::Path::new(path).parent().map(|up| up.to_string_lossy().into_owned())
}

// ---------------------------------------------------------------------------
// Paths below others
// ---------------------------------------------------------------------------
/// `joined` is `relative` below `base`, with one separator between them. Behind a backslash or a
/// colon it depends on the platform whether there is one.
pub open spec fn put_below(base: Seq<char>, relative: Seq<char>, joined: Seq<char>) -> bool {
    if base.len() == 0 || base.last() == '/' {
        joined == base + relative
    } else {
        ||| joined == base + seq!['/'] + relative
        ||| joined == base + seq!['\\'] + relative
        ||| (base.last() == '\\' || base.last() == ':') && joined == base + relative
    }
}

/// `joined` is `relative` in place of `base`, of which at most the drive or the network share is
/// kept.
pub open spec fn put_instead(base: Seq<char>, relative: Seq<char>, joined: Seq<char>) -> bool {
    ||| joined == relative
    ||| drive(base) && joined == base.take(2) + relative
    ||| shared(base) && exists|n: int|
        2 <= n <= base.len() && joined == #[trigger] base.take(n) + relative
}

/// `joined` is `relative` tidied up behind a base below which names are taken as they stand: unless
/// they lead to parent directories, the names of `relative` end it, with backslashes between them.
pub open spec fn put_tidied(base: Seq<char>, relative: Seq<char>, joined: Seq<char>) -> bool {
    let names = components(slashed(relative));
    let end = split::joined(names, seq!['\\']);
    &&& verbatim(base)
    &&& verbatim(joined)
    &&& !names.contains(seq!['.', '.']) ==> end.len() <= joined.len() && joined.skip(
        joined.len() - end.len(),
    ) == end
}

/// `joined` is `relative` below `base`, or in place of it where `relative` is absolute. What starts
/// with a backslash or a drive is absolute on some platforms only.
pub open spec fn joins(base: Seq<char>, relative: Seq<char>, joined: Seq<char>) -> bool {
    ||| put_tidied(base, relative, joined)
    ||| if relative.len() > 0 && relative[0] == '/' {
        put_instead(base, relative, joined)
    } else if relative.len() > 0 && relative[0] == '\\' || drive(relative) {
        put_instead(base, relative, joined) || put_below(base, relative, joined)
    } else {
        put_below(base, relative, joined)
    }
}

/// `Path::join`: the second path adjoined to the first, or in place of it where it is absolute. How
/// the paths are read depends on the platform.
#[verifier::external_body]
pub(crate) fn join(base: &str, relative: &str) -> (r: String)
    ensures
        joins(base@, relative@, r@),
{
    std::path::Path::new(base).join(relative).to_string_lossy().into_owned()
}

} // verus!
