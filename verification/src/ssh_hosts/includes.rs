//! The files that an `ssh` configuration file includes.
use crate::engine::command;
use crate::order;
use crate::paths;
use crate::split;
use crate::ssh_hosts::config;
use crate::text;
use vstd::prelude::*;

verus! {

// ---------------------------------------------------------------------------
// Patterns
// ---------------------------------------------------------------------------
/// The patterns that a line includes.
pub open spec fn line_patterns(line: Seq<char>) -> Seq<Seq<char>> {
    match config::key_value(line) {
        Some((key, value)) => if text::caseless(key, "include"@) {
            split::words(value)
        } else {
            seq![]
        },
        None => seq![],
    }
}

/// The patterns that some lines include.
pub open spec fn patterns(lines: Seq<Seq<char>>) -> Seq<Seq<char>>
    decreases lines.len(),
{
    if lines.len() == 0 {
        seq![]
    } else {
        patterns(lines.drop_last()) + line_patterns(lines.last())
    }
}

/// The patterns that the configuration file with the text `text` includes.
pub fn include_patterns(text: &str) -> (r: Vec<String>)
    ensures
        split::views(r@) == patterns(split::lines(text@)),
{
    let list: Vec<String> = split::lines_of(text);
    let ghost all = split::views(list@);
    let mut r: Vec<String> = Vec::new();
    let mut i: usize = 0;
    proof {
        assert(split::views(r@) =~= seq![]);
    }
    while i < list.len()
        invariant
            i <= list@.len(),
            all == split::views(list@),
            split::views(r@) == patterns(all.take(i as int)),
        decreases list.len() - i,
    {
        let ghost before = r@;
        proof {
            let next = all.take(i + 1);
            assert(next.drop_last() =~= all.take(i as int));
            assert(next.last() == list@[i as int]@);
            assert(split::views(before) + seq![] =~= split::views(before));
        }
        if let Some((key, value)) = config::keyword(list[i].as_str()) {
            if text::same_caseless(key, "include") {
                let mut found: Vec<String> = split::words_of(value);
                let ghost words = found@;
                r.append(&mut found);
                proof {
                    assert(split::views(r@) =~= split::views(before) + split::views(words));
                }
            }
        }
        i = i + 1;
    }
    proof {
        assert(all.take(i as int) =~= all);
    }
    r
}

// ---------------------------------------------------------------------------
// Places
// ---------------------------------------------------------------------------
/// `s` without the slashes that it starts with.
pub open spec fn drop_slashes(s: Seq<char>) -> Seq<char>
    decreases s.len(),
{
    if s.len() > 0 && s[0] == '/' {
        drop_slashes(s.drop_first())
    } else {
        s
    }
}

/// What a place stands for.
#[derive(Debug)]
pub enum IncludeTarget {
    /// The files in a directory whose names start with a prefix.
    Files { dir: String, prefix: String },
    /// One file.
    File(String),
}

/// What an [`IncludeTarget`] says.
pub enum TargetView {
    Files { dir: Seq<char>, prefix: Seq<char> },
    File(Seq<char>),
}

impl View for IncludeTarget {
    type V = TargetView;

    open spec fn view(&self) -> TargetView {
        match self {
            IncludeTarget::Files { dir, prefix } => TargetView::Files { dir: dir@, prefix: prefix@ },
            IncludeTarget::File(path) => TargetView::File(path@),
        }
    }
}

/// What a place stands for: with a star, the files in the directory ahead of the last one, and
/// else the file there.
pub open spec fn target_of(place: Seq<char>) -> TargetView {
    match split::last_halves(place, '*') {
        Some((dir, rest)) => TargetView::Files { dir: dir, prefix: drop_slashes(rest) },
        None => TargetView::File(place),
    }
}

/// `s` without the slashes that it starts with.
fn strip_slashes(s: &str) -> (r: String)
    ensures
        r@ == drop_slashes(s@),
{
    let chars: Vec<char> = text::chars_of(s);
    let mut i: usize = 0;
    proof {
        assert(s@.skip(0) =~= s@);
    }
    while i < chars.len() && chars[i] == '/'
        invariant
            i <= chars@.len(),
            chars@ == s@,
            drop_slashes(s@) == drop_slashes(s@.skip(i as int)),
        decreases chars.len() - i,
    {
        proof {
            assert(s@.skip(i as int).drop_first() =~= s@.skip(i + 1));
        }
        i = i + 1;
    }
    let r: String = text::string_of(&chars, i, chars.len());
    proof {
        assert(r@ =~= s@.skip(i as int));
    }
    r
}

/// What `place` stands for.
fn include_target(place: &str) -> (r: IncludeTarget)
    ensures
        r@ == target_of(place@),
{
    match split::rsplit_once(place, '*') {
        Some((dir, rest)) => IncludeTarget::Files { dir, prefix: strip_slashes(rest.as_str()) },
        None => IncludeTarget::File(place.to_owned()),
    }
}

/// The place is that of the pattern: below the home directory where the pattern starts with a tilde
/// and a slash, and else below the directory of `ssh`, unless the pattern is absolute.
pub open spec fn placed(
    pattern: Seq<char>,
    home: Seq<char>,
    ssh_dir: Seq<char>,
    place: Seq<char>,
) -> bool {
    if split::starts(pattern, "~/"@) {
        paths::joins(home, pattern.skip(2), place)
    } else {
        paths::joins(ssh_dir, pattern, place)
    }
}

/// The place of `pattern`.
fn include_place(pattern: &str, home: &str, ssh_dir: &str) -> (r: String)
    ensures
        placed(pattern@, home@, ssh_dir@, r@),
{
    proof {
        reveal_strlit("~/");
    }
    match split::strip_prefix(pattern, "~/") {
        Some(rest) => paths::join(home, rest.as_str()),
        None => paths::join(ssh_dir, pattern),
    }
}

/// What `pattern` stands for, with the home directory `home` and the directory `ssh_dir` of `ssh`.
/// One star is supported, and what follows it is what the names of the files start with.
pub fn expand_include(pattern: &str, home: &str, ssh_dir: &str) -> (r: IncludeTarget)
    ensures
        exists|place: Seq<char>| #[trigger]
            placed(pattern@, home@, ssh_dir@, place) && r@ == target_of(place),
{
    let place: String = include_place(pattern, home, ssh_dir);
    include_target(place.as_str())
}

// ---------------------------------------------------------------------------
// Files of a directory
// ---------------------------------------------------------------------------
/// An entry of a directory. A name that is not text is missing.
#[derive(Debug)]
pub struct DirEntry {
    pub name: Option<String>,
    pub is_file: bool,
}

/// The name of an entry, where it is a file whose name starts with the prefix.
pub open spec fn picked_name(entry: DirEntry, prefix: Seq<char>) -> Seq<Seq<char>> {
    match entry.name {
        Some(name) => if entry.is_file && split::starts(name@, prefix) {
            seq![name@]
        } else {
            seq![]
        },
        None => seq![],
    }
}

/// The names of the files whose names start with the prefix.
pub open spec fn picked(entries: Seq<DirEntry>, prefix: Seq<char>) -> Seq<Seq<char>>
    decreases entries.len(),
{
    if entries.len() == 0 {
        seq![]
    } else {
        picked(entries.drop_last(), prefix) + picked_name(entries.last(), prefix)
    }
}

/// The names of the files among `entries` that start with `prefix`, in order.
pub fn select_includes(entries: &Vec<DirEntry>, prefix: &str) -> (r: Vec<String>)
    ensures
        split::views(r@) == order::sorted(picked(entries@, prefix@)),
{
    let mut names: Vec<String> = Vec::new();
    let mut i: usize = 0;
    proof {
        assert(split::views(names@) =~= seq![]);
    }
    while i < entries.len()
        invariant
            i <= entries@.len(),
            split::views(names@) == picked(entries@.take(i as int), prefix@),
        decreases entries.len() - i,
    {
        let entry: &DirEntry = &entries[i];
        let ghost before = split::views(names@);
        proof {
            let next = entries@.take(i + 1);
            assert(next.drop_last() =~= entries@.take(i as int));
            assert(next.last() == *entry);
        }
        if let Some(name) = &entry.name {
            if entry.is_file && split::starts_with(name.as_str(), prefix) {
                command::push_arg(&mut names, name.as_str());
            }
        }
        proof {
            assert(split::views(names@) =~= before + picked_name(*entry, prefix@));
        }
        i = i + 1;
    }
    proof {
        assert(entries@.take(i as int) =~= entries@);
    }
    order::sort(&names)
}

// ---------------------------------------------------------------------------
// Texts
// ---------------------------------------------------------------------------
/// The texts that could be read.
pub open spec fn readable(texts: Seq<Option<String>>) -> Seq<Seq<char>>
    decreases texts.len(),
{
    if texts.len() == 0 {
        seq![]
    } else {
        match texts.last() {
            Some(text) => readable(texts.drop_last()).push(text@),
            None => readable(texts.drop_last()),
        }
    }
}

/// The texts of a configuration: the text of its main file, and those of the files that this one
/// names. A file that cannot be read has none, and without the main file there is no configuration.
pub fn config_texts(main: Option<String>, included: Vec<Option<String>>) -> (r: Vec<String>)
    ensures
        split::views(r@) == (match main {
            Some(text) => seq![text@] + readable(included@),
            None => seq![],
        }),
{
    let mut r: Vec<String> = Vec::new();
    let main_text: String = match main {
        Some(text) => text,
        None => {
            proof {
                assert(split::views(r@) =~= seq![]);
            }
            return r;
        },
    };
    let ghost head = main_text@;
    r.push(main_text);
    let mut i: usize = 0;
    proof {
        assert(split::views(r@) =~= seq![head] + readable(included@.take(0)));
    }
    while i < included.len()
        invariant
            i <= included@.len(),
            split::views(r@) == seq![head] + readable(included@.take(i as int)),
        decreases included.len() - i,
    {
        let ghost before = split::views(r@);
        if let Some(text) = &included[i] {
            command::push_arg(&mut r, text.as_str());
        }
        proof {
            let next = included@.take(i + 1);
            assert(next.drop_last() =~= included@.take(i as int));
            assert(next.last() == included@[i as int]);
            assert(split::views(r@) =~= seq![head] + readable(next));
        }
        i = i + 1;
    }
    proof {
        assert(included@.take(i as int) =~= included@);
    }
    r
}

} // verus!
