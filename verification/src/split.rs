//! Cutting text into lines, words and halves, and putting pieces together.
use crate::text;
use vstd::prelude::*;

verus! {

/// The characters of each string of a list.
pub open spec fn views(list: Seq<String>) -> Seq<Seq<char>> {
    list.map_values(|s: String| s@)
}

pub proof fn lemma_views_push(list: Seq<String>, s: String)
    ensures
        views(list.push(s)) == views(list).push(s@),
{
    assert(views(list.push(s)) =~= views(list).push(s@));
}

// ---------------------------------------------------------------------------
// Lines
// ---------------------------------------------------------------------------
/// `s` without one carriage return at its end.
pub open spec fn drop_cr(s: Seq<char>) -> Seq<char> {
    if s.len() > 0 && s.last() == '\r' {
        s.drop_last()
    } else {
        s
    }
}

/// The lines of `s`: each ends at a line feed, which is not part of the line, nor is a carriage
/// return just before it. The last line needs no line feed.
pub open spec fn lines(s: Seq<char>) -> Seq<Seq<char>>
    decreases s.len(),
{
    let n = text::first_where(s, text::is_char('\n'));
    if s.len() == 0 {
        seq![]
    } else if 0 <= n < s.len() {
        seq![drop_cr(s.take(n))] + lines(s.skip(n + 1))
    } else {
        seq![s]
    }
}

/// A line behind complete lines is one more line.
pub proof fn lemma_lines_push(s: Seq<char>, line: Seq<char>)
    requires
        s.len() > 0 ==> s.last() == '\n',
        forall|i: int| 0 <= i < line.len() ==> #[trigger] line[i] != '\n',
    ensures
        lines(s + line.push('\n')) == lines(s).push(drop_cr(line)),
    decreases s.len(),
{
    let whole = s + line.push('\n');
    let feed = text::is_char('\n');
    if s.len() == 0 {
        assert(whole =~= line.push('\n'));
        text::lemma_first_where_is(whole, feed, line.len() as int);
        assert(whole.take(line.len() as int) =~= line);
        assert(whole.skip(line.len() as int + 1) =~= s);
        assert(lines(s) =~= seq![]);
        assert(lines(whole) =~= lines(s).push(drop_cr(line)));
    } else {
        text::lemma_first_where(s, feed);
        let n = text::first_where(s, feed);
        if n == s.len() {
            assert(!feed(s[s.len() - 1]));
        }
        assert forall|j: int| 0 <= j < n implies !feed(#[trigger] whole[j]) by {
            assert(!feed(s[j]));
        }
        text::lemma_first_where_is(whole, feed, n);
        let rest = s.skip(n + 1);
        assert(whole.skip(n + 1) =~= rest + line.push('\n'));
        assert(whole.take(n) =~= s.take(n));
        lemma_lines_push(rest, line);
        assert(lines(whole) =~= lines(s).push(drop_cr(line)));
    }
}

/// The lines of a text hold characters of the text, and no line feed.
pub proof fn lemma_lines(s: Seq<char>)
    ensures
        forall|i: int, k: int|
            0 <= i < lines(s).len() && 0 <= k < lines(s)[i].len() ==> (#[trigger] lines(s)[i][k])
                != '\n' && s.contains(lines(s)[i][k]),
    decreases s.len(),
{
    let feed = text::is_char('\n');
    text::lemma_first_where(s, feed);
    let n = text::first_where(s, feed);
    if s.len() > 0 && n < s.len() {
        let rest = s.skip(n + 1);
        let head = drop_cr(s.take(n));
        lemma_lines(rest);
        assert forall|i: int, k: int|
            0 <= i < lines(s).len() && 0 <= k < lines(s)[i].len() implies (
        #[trigger] lines(s)[i][k]) != '\n' && s.contains(lines(s)[i][k]) by {
            if i == 0 {
                assert(lines(s)[i] == head);
                assert(head[k] == s[k]);
                assert(!feed(s[k]));
            } else {
                assert(lines(s)[i] == lines(rest)[i - 1]);
                let c = lines(rest)[i - 1][k];
                assert(rest.contains(c));
                let m = choose|m: int| 0 <= m < rest.len() && rest[m] == c;
                assert(s[m + n + 1] == c);
            }
        }
    } else if s.len() > 0 {
        assert forall|i: int, k: int|
            0 <= i < lines(s).len() && 0 <= k < lines(s)[i].len() implies (
        #[trigger] lines(s)[i][k]) != '\n' && s.contains(lines(s)[i][k]) by {
            assert(lines(s)[i] == s);
            assert(!feed(s[k]));
        }
    }
}

/// The lines of `s`, as `str::lines` cuts them.
pub fn lines_of(s: &str) -> (r: Vec<String>)
    ensures
        views(r@) == lines(s@),
        r@.len() <= s@.len(),
{
    let chars: Vec<char> = text::chars_of(s);
    let n: usize = chars.len();
    let mut r: Vec<String> = Vec::new();
    let mut start: usize = 0;
    proof {
        assert(s@.skip(0) =~= s@);
        assert(views(r@) =~= seq![]);
        assert(views(r@) + lines(s@) =~= lines(s@));
    }
    while start < n
        invariant
            start <= n == chars@.len(),
            chars@ == s@,
            r@.len() <= start,
            views(r@) + lines(s@.skip(start as int)) == lines(s@),
        decreases n - start,
    {
        let end: usize = text::find_char(&chars, start, '\n');
        let ghost rest = s@.skip(start as int);
        let ghost before = r@;
        if end < n {
            let stop: usize = if end > start && chars[end - 1] == '\r' {
                end - 1
            } else {
                end
            };
            r.push(text::string_of(&chars, start, stop));
            proof {
                lemma_views_push(before, r@.last());
                let k = end - start;
                assert(rest.take(k) =~= s@.subrange(start as int, end as int));
                assert(drop_cr(rest.take(k)) =~= s@.subrange(start as int, stop as int));
                assert(rest.skip(k + 1) =~= s@.skip(end + 1));
                assert(views(r@) + lines(s@.skip(end + 1)) =~= views(before) + (seq![
                    drop_cr(rest.take(k)),
                ] + lines(rest.skip(k + 1))));
            }
            start = end + 1;
        } else {
            r.push(text::string_of(&chars, start, n));
            proof {
                lemma_views_push(before, r@.last());
                assert(s@.subrange(start as int, n as int) =~= rest);
                assert(views(r@) + lines(s@.skip(n as int)) =~= views(before) + seq![rest]);
            }
            start = n;
        }
    }
    proof {
        assert(views(r@) + lines(s@.skip(n as int)) =~= views(r@));
    }
    r
}

// ---------------------------------------------------------------------------
// Words
// ---------------------------------------------------------------------------
/// The runs of characters between white space.
pub open spec fn words(s: Seq<char>) -> Seq<Seq<char>>
    decreases s.len(),
{
    let n = text::first_where(s, text::is_space());
    if s.len() == 0 {
        seq![]
    } else if text::white(s[0]) {
        words(s.drop_first())
    } else if 0 < n <= s.len() {
        seq![s.take(n)] + words(s.skip(n))
    } else {
        seq![]
    }
}

/// The words of `s`, as `str::split_whitespace` cuts them.
pub fn words_of(s: &str) -> (r: Vec<String>)
    ensures
        views(r@) == words(s@),
{
    let chars: Vec<char> = text::chars_of(s);
    let n: usize = chars.len();
    let mut r: Vec<String> = Vec::new();
    let mut start: usize = 0;
    proof {
        assert(s@.skip(0) =~= s@);
        assert(views(r@) + words(s@) =~= words(s@));
    }
    while start < n
        invariant
            start <= n == chars@.len(),
            chars@ == s@,
            views(r@) + words(s@.skip(start as int)) == words(s@),
        decreases n - start,
    {
        let ghost rest = s@.skip(start as int);
        if text::is_white(chars[start]) {
            proof {
                assert(rest.drop_first() =~= s@.skip(start + 1));
            }
            start = start + 1;
        } else {
            let mut end: usize = start + 1;
            while end < n && !text::is_white(chars[end])
                invariant
                    start < end <= n == chars@.len(),
                    forall|j: int| start <= j < end ==> !text::white(#[trigger] chars@[j]),
                decreases n - end,
            {
                end = end + 1;
            }
            let ghost before = r@;
            r.push(text::string_of(&chars, start, end));
            proof {
                lemma_views_push(before, r@.last());
                let k = end - start;
                assert forall|j: int| 0 <= j < k implies !text::is_space()(#[trigger] rest[j]) by {
                    assert(rest[j] == chars@[j + start]);
                }
                text::lemma_first_where_is(rest, text::is_space(), k);
                assert(rest.take(k) =~= s@.subrange(start as int, end as int));
                assert(rest.skip(k) =~= s@.skip(end as int));
                assert(views(r@) + words(s@.skip(end as int)) =~= views(before) + (seq![
                    rest.take(k),
                ] + words(rest.skip(k))));
            }
            start = end;
        }
    }
    proof {
        assert(views(r@) + words(s@.skip(n as int)) =~= views(r@));
    }
    r
}

// ---------------------------------------------------------------------------
// Halves
// ---------------------------------------------------------------------------
/// What stands before and after the first `c`.
pub open spec fn halves(s: Seq<char>, c: char) -> Option<(Seq<char>, Seq<char>)> {
    let n = text::first_where(s, text::is_char(c));
    if n < s.len() {
        Some((s.take(n), s.skip(n + 1)))
    } else {
        None
    }
}

/// The two parts of `s` around the first `c`, as `str::split_once` cuts it.
pub fn split_once(s: &str, c: char) -> (r: Option<(String, String)>)
    ensures
        match r {
            Some(parts) => halves(s@, c) == Some((parts.0@, parts.1@)),
            None => halves(s@, c) is None,
        },
{
    let chars: Vec<char> = text::chars_of(s);
    let n: usize = text::find_char(&chars, 0, c);
    proof {
        assert(s@.skip(0) =~= s@);
    }
    if n < chars.len() {
        let left: String = text::string_of(&chars, 0, n);
        let right: String = text::string_of(&chars, n + 1, chars.len());
        proof {
            assert(left@ =~= s@.take(n as int));
            assert(right@ =~= s@.skip(n + 1));
        }
        Some((left, right))
    } else {
        None
    }
}

/// The position of the last `c`, or -1.
pub open spec fn last_index(s: Seq<char>, c: char) -> int
    decreases s.len(),
{
    if s.len() == 0 {
        -1
    } else if s.last() == c {
        s.len() - 1
    } else {
        last_index(s.drop_last(), c)
    }
}

/// What stands before and after the last `c`.
pub open spec fn last_halves(s: Seq<char>, c: char) -> Option<(Seq<char>, Seq<char>)> {
    let n = last_index(s, c);
    if n >= 0 {
        Some((s.take(n), s.skip(n + 1)))
    } else {
        None
    }
}

/// The two parts of `s` around the last `c`, as `str::rsplit_once` cuts it.
pub fn rsplit_once(s: &str, c: char) -> (r: Option<(String, String)>)
    ensures
        match r {
            Some(parts) => last_halves(s@, c) == Some((parts.0@, parts.1@)),
            None => last_halves(s@, c) is None,
        },
{
    let chars: Vec<char> = text::chars_of(s);
    let mut n: usize = chars.len();
    proof {
        assert(s@.take(n as int) =~= s@);
    }
    while n > 0
        invariant
            n <= chars@.len(),
            chars@ == s@,
            last_index(s@.take(n as int), c) == last_index(s@, c),
        decreases n,
    {
        if chars[n - 1] == c {
            let left: String = text::string_of(&chars, 0, n - 1);
            let right: String = text::string_of(&chars, n, chars.len());
            proof {
                assert(s@.take(n as int).last() == c);
                assert(left@ =~= s@.take(n - 1));
                assert(right@ =~= s@.skip(n as int));
            }
            return Some((left, right));
        }
        proof {
            assert(s@.take(n as int).drop_last() =~= s@.take(n - 1));
        }
        n = n - 1;
    }
    proof {
        assert(s@.take(0).len() == 0);
    }
    None
}

// ---------------------------------------------------------------------------
// Prefixes
// ---------------------------------------------------------------------------
/// `s` starts with `prefix`.
pub open spec fn starts(s: Seq<char>, prefix: Seq<char>) -> bool {
    prefix.len() <= s.len() && s.take(prefix.len() as int) == prefix
}

/// Tells whether `s` starts with `prefix`.
pub fn starts_with(s: &str, prefix: &str) -> (r: bool)
    ensures
        r == starts(s@, prefix@),
{
    let x: Vec<char> = text::chars_of(s);
    let y: Vec<char> = text::chars_of(prefix);
    if y.len() > x.len() {
        return false;
    }
    let mut i: usize = 0;
    while i < y.len()
        invariant
            i <= y@.len() <= x@.len(),
            x@ == s@,
            y@ == prefix@,
            forall|j: int| 0 <= j < i ==> x@[j] == y@[j],
        decreases y.len() - i,
    {
        if x[i] != y[i] {
            proof {
                assert(s@.take(prefix@.len() as int)[i as int] != prefix@[i as int]);
            }
            return false;
        }
        i = i + 1;
    }
    proof {
        assert(s@.take(prefix@.len() as int) =~= prefix@);
    }
    true
}

/// What follows `prefix` in `s`, where `s` starts with it.
pub fn strip_prefix(s: &str, prefix: &str) -> (r: Option<String>)
    ensures
        match r {
            Some(rest) => starts(s@, prefix@) && rest@ == s@.skip(prefix@.len() as int),
            None => !starts(s@, prefix@),
        },
{
    if starts_with(s, prefix) {
        let x: Vec<char> = text::chars_of(s);
        let n: usize = prefix.unicode_len();
        let rest: String = text::string_of(&x, n, x.len());
        proof {
            assert(rest@ =~= s@.skip(prefix@.len() as int));
        }
        Some(rest)
    } else {
        None
    }
}

// ---------------------------------------------------------------------------
// Joining
// ---------------------------------------------------------------------------
/// The pieces with `sep` between each two of them.
pub open spec fn joined(list: Seq<Seq<char>>, sep: Seq<char>) -> Seq<char>
    decreases list.len(),
{
    if list.len() == 0 {
        seq![]
    } else if list.len() == 1 {
        list[0]
    } else {
        joined(list.drop_last(), sep) + sep + list.last()
    }
}

/// The pieces of `list` with `sep` between each two of them.
pub fn join(list: &Vec<String>, sep: &str) -> (r: String)
    ensures
        r@ == joined(views(list@), sep@),
{
    let mut r: String = String::new();
    let mut i: usize = 0;
    let ghost all = views(list@);
    while i < list.len()
        invariant
            i <= list@.len(),
            all == views(list@),
            r@ == joined(all.take(i as int), sep@),
        decreases list.len() - i,
    {
        if i > 0 {
            r.append(sep);
        }
        r.append(list[i].as_str());
        proof {
            let next = all.take(i + 1);
            assert(next.drop_last() =~= all.take(i as int));
            assert(next.last() == list@[i as int]@);
            if i == 0 {
                assert(r@ =~= list@[0]@);
            }
        }
        i = i + 1;
    }
    proof {
        assert(all.take(list@.len() as int) =~= all);
    }
    r
}

} // verus!
