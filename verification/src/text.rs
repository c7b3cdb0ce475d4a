//! Plain text: the character-level operations that the parsers are built from.
use vstd::prelude::*;
#[allow(unused_imports)]
use vstd::utf8::*;

verus! {

/// `String::push` appends one character to the end of the string.
pub assume_specification[ String::push ](s: &mut String, c: char)
    ensures
        final(s)@ == old(s)@.push(c),
;

// ---------------------------------------------------------------------------
// Characters
// ---------------------------------------------------------------------------
/// The Unicode `White_Space` property.
pub open spec fn white(c: char) -> bool {
    ||| '\u{9}' <= c && c <= '\u{d}'
    ||| c == ' '
    ||| c == '\u{85}'
    ||| c == '\u{a0}'
    ||| c == '\u{1680}'
    ||| '\u{2000}' <= c && c <= '\u{200a}'
    ||| c == '\u{2028}'
    ||| c == '\u{2029}'
    ||| c == '\u{202f}'
    ||| c == '\u{205f}'
    ||| c == '\u{3000}'
}

/// Tells whether `c` has the Unicode `White_Space` property.
pub fn is_white(c: char) -> (r: bool)
    ensures
        r == white(c),
{
    ('\u{9}' <= c && c <= '\u{d}') || c == ' ' || c == '\u{85}' || c == '\u{a0}' || c == '\u{1680}'
        || ('\u{2000}' <= c && c <= '\u{200a}') || c == '\u{2028}' || c == '\u{2029}' || c
        == '\u{202f}' || c == '\u{205f}' || c == '\u{3000}'
}

/// An ASCII letter or digit.
pub open spec fn alnum(c: char) -> bool {
    ||| 'a' <= c && c <= 'z'
    ||| 'A' <= c && c <= 'Z'
    ||| '0' <= c && c <= '9'
}

/// Tells whether `c` is an ASCII letter or digit.
pub fn is_alnum(c: char) -> (r: bool)
    ensures
        r == alnum(c),
{
    ('a' <= c && c <= 'z') || ('A' <= c && c <= 'Z') || ('0' <= c && c <= '9')
}

/// The same character, or the same ASCII letter in the other case.
pub open spec fn same_letter(a: char, b: char) -> bool {
    ||| a == b
    ||| 'a' <= a && a <= 'z' && b as int == a as int - 32
    ||| 'A' <= a && a <= 'Z' && b as int == a as int + 32
}

/// Tells whether two characters are the same, or the same ASCII letter.
pub fn is_same_letter(a: char, b: char) -> (r: bool)
    ensures
        r == same_letter(a, b),
{
    let x: u32 = a as u32;
    let y: u32 = b as u32;
    a == b || ('a' <= a && a <= 'z' && y == x - 32) || ('A' <= a && a <= 'Z' && y == x + 32)
}

// ---------------------------------------------------------------------------
// Between strings and vectors of characters
// ---------------------------------------------------------------------------
/// The characters of `s`, in order.
pub fn chars_of(s: &str) -> (r: Vec<char>)
    ensures
        r@ == s@,
{
    let mut r: Vec<char> = Vec::new();
    for c in it: s.chars()
        invariant
            it.seq() == s@,
            r@ == s@.take(it.index()),
    {
        r.push(c);
        assert(s@.take(it.index() + 1) =~= s@.take(it.index()).push(c));
    }
    assert(s@.take(s@.len() as int) =~= s@);
    r
}

/// The string of the characters `chars[from..to]`.
pub fn string_of(chars: &Vec<char>, from: usize, to: usize) -> (r: String)
    requires
        from <= to <= chars@.len(),
    ensures
        r@ == chars@.subrange(from as int, to as int),
{
    let mut r: String = String::new();
    let mut i: usize = from;
    while i < to
        invariant
            from <= i <= to <= chars@.len(),
            r@ == chars@.subrange(from as int, i as int),
        decreases to - i,
    {
        r.push(chars[i]);
        i = i + 1;
        assert(chars@.subrange(from as int, i as int) =~= chars@.subrange(
            from as int,
            i - 1,
        ).push(chars@[i - 1]));
    }
    r
}

/// Tells whether the two strings hold the same characters.
pub fn same(a: &str, b: &str) -> (r: bool)
    ensures
        r == (a@ == b@),
{
    let x: &[u8] = a.as_bytes();
    let y: &[u8] = b.as_bytes();
    proof {
        encode_utf8_decode_utf8(a@);
        encode_utf8_decode_utf8(b@);
    }
    if x.len() != y.len() {
        return false;
    }
    let mut i: usize = 0;
    while i < x.len()
        invariant
            i <= x@.len(),
            x@.len() == y@.len(),
            x@ == encode_utf8(a@),
            y@ == encode_utf8(b@),
            forall|j: int| 0 <= j < i ==> x@[j] == y@[j],
        decreases x.len() - i,
    {
        if x[i] != y[i] {
            return false;
        }
        i = i + 1;
    }
    assert(x@ =~= y@);
    true
}

/// The same characters, without regard to the case of ASCII letters.
pub open spec fn caseless(a: Seq<char>, b: Seq<char>) -> bool {
    a.len() == b.len() && forall|i: int|
        #![trigger a[i]]
        #![trigger b[i]]
        0 <= i < a.len() ==> same_letter(a[i], b[i])
}

/// Tells whether the two strings hold the same characters, without regard to the case of ASCII
/// letters.
pub fn same_caseless(a: &str, b: &str) -> (r: bool)
    ensures
        r == caseless(a@, b@),
{
    let x: Vec<char> = chars_of(a);
    let y: Vec<char> = chars_of(b);
    if x.len() != y.len() {
        return false;
    }
    let mut i: usize = 0;
    while i < x.len()
        invariant
            i <= x@.len(),
            x@.len() == y@.len(),
            x@ == a@,
            y@ == b@,
            forall|j: int|
                #![trigger x@[j]]
                #![trigger y@[j]]
                0 <= j < i ==> same_letter(x@[j], y@[j]),
        decreases x.len() - i,
    {
        if !is_same_letter(x[i], y[i]) {
            return false;
        }
        i = i + 1;
    }
    true
}

// ---------------------------------------------------------------------------
// Searching
// ---------------------------------------------------------------------------
/// Being the character `c`.
pub open spec fn is_char(c: char) -> spec_fn(char) -> bool {
    |x: char| x == c
}

/// Being white space.
pub open spec fn is_space() -> spec_fn(char) -> bool {
    |x: char| white(x)
}

/// The position of the first character with the property `p`, or the length of `s`.
pub open spec fn first_where(s: Seq<char>, p: spec_fn(char) -> bool) -> int
    decreases s.len(),
{
    if s.len() == 0 || p(s[0]) {
        0
    } else {
        1 + first_where(s.drop_first(), p)
    }
}

/// `first_where` finds the first position with the property.
pub proof fn lemma_first_where(s: Seq<char>, p: spec_fn(char) -> bool)
    ensures
        0 <= first_where(s, p) <= s.len(),
        forall|j: int| 0 <= j < first_where(s, p) ==> !p(#[trigger] s[j]),
        first_where(s, p) < s.len() ==> p(s[first_where(s, p)]),
    decreases s.len(),
{
    if s.len() == 0 || p(s[0]) {
    } else {
        let rest = s.drop_first();
        lemma_first_where(rest, p);
        assert forall|j: int| 0 <= j < first_where(s, p) implies !p(#[trigger] s[j]) by {
            if j > 0 {
                assert(rest[j - 1] == s[j]);
            }
        }
    }
}

/// The first position with the property is the only one that `first_where` can be.
pub proof fn lemma_first_where_is(s: Seq<char>, p: spec_fn(char) -> bool, i: int)
    requires
        0 <= i <= s.len(),
        forall|j: int| 0 <= j < i ==> !p(#[trigger] s[j]),
        i < s.len() ==> p(s[i]),
    ensures
        first_where(s, p) == i,
{
    lemma_first_where(s, p);
    let f = first_where(s, p);
    if f < i {
        assert(!p(s[f]));
    }
    if i < f {
        assert(!p(s[i]));
    }
}

/// The position of the first `c` in `chars` at or after `from`, or the length.
pub fn find_char(chars: &Vec<char>, from: usize, c: char) -> (r: usize)
    requires
        from <= chars@.len(),
    ensures
        from <= r <= chars@.len(),
        r == from + first_where(chars@.skip(from as int), is_char(c)),
{
    let mut i: usize = from;
    let ghost rest = chars@.skip(from as int);
    while i < chars.len() && chars[i] != c
        invariant
            from <= i <= chars@.len(),
            rest == chars@.skip(from as int),
            forall|j: int| 0 <= j < i - from ==> !is_char(c)(#[trigger] rest[j]),
        decreases chars.len() - i,
    {
        i = i + 1;
    }
    proof {
        lemma_first_where_is(rest, is_char(c), i - from);
    }
    i
}

// ---------------------------------------------------------------------------
// Trimming
// ---------------------------------------------------------------------------
/// `s` without the white space that it starts with.
pub open spec fn trim_start(s: Seq<char>) -> Seq<char>
    decreases s.len(),
{
    if s.len() > 0 && white(s[0]) {
        trim_start(s.drop_first())
    } else {
        s
    }
}

/// `s` without the white space that it ends with.
pub open spec fn trim_end(s: Seq<char>) -> Seq<char>
    decreases s.len(),
{
    if s.len() > 0 && white(s.last()) {
        trim_end(s.drop_last())
    } else {
        s
    }
}

/// `s` without the white space around it.
pub open spec fn trim(s: Seq<char>) -> Seq<char> {
    trim_end(trim_start(s))
}

/// Nothing but white space.
pub open spec fn blank(s: Seq<char>) -> bool {
    trim(s).len() == 0
}

pub proof fn lemma_trim_start(s: Seq<char>, i: int)
    requires
        0 <= i <= s.len(),
        forall|j: int| 0 <= j < i ==> white(#[trigger] s[j]),
        i < s.len() ==> !white(s[i]),
    ensures
        trim_start(s) == s.skip(i),
    decreases i,
{
    if i == 0 {
        assert(s.skip(0) =~= s);
    } else {
        let rest = s.drop_first();
        assert forall|j: int| 0 <= j < i - 1 implies white(#[trigger] rest[j]) by {
            assert(rest[j] == s[j + 1]);
        }
        lemma_trim_start(rest, i - 1);
        assert(rest.skip(i - 1) =~= s.skip(i));
    }
}

pub proof fn lemma_trim_end(s: Seq<char>, n: int)
    requires
        0 <= n <= s.len(),
        forall|j: int| n <= j < s.len() ==> white(#[trigger] s[j]),
        n > 0 ==> !white(s[n - 1]),
    ensures
        trim_end(s) == s.take(n),
    decreases s.len(),
{
    if n == s.len() {
        assert(s.take(n) =~= s);
    } else {
        let rest = s.drop_last();
        lemma_trim_end(rest, n);
        assert(rest.take(n) =~= s.take(n));
    }
}

/// Where [`trim`] starts and ends.
pub fn trim_bounds(chars: &Vec<char>) -> (r: (usize, usize))
    ensures
        r.0 <= r.1 <= chars@.len(),
        chars@.subrange(r.0 as int, r.1 as int) == trim(chars@),
        chars@.skip(r.0 as int) == trim_start(chars@),
{
    let n: usize = chars.len();
    let mut i: usize = 0;
    while i < n && is_white(chars[i])
        invariant
            i <= n == chars@.len(),
            forall|j: int| 0 <= j < i ==> white(#[trigger] chars@[j]),
        decreases n - i,
    {
        i = i + 1;
    }
    let mut k: usize = n;
    while k > i && is_white(chars[k - 1])
        invariant
            i <= k <= n == chars@.len(),
            forall|j: int| k <= j < n ==> white(#[trigger] chars@[j]),
        decreases k,
    {
        k = k - 1;
    }
    proof {
        let rest = chars@.skip(i as int);
        lemma_trim_start(chars@, i as int);
        assert forall|j: int| k - i <= j < rest.len() implies white(#[trigger] rest[j]) by {
            assert(rest[j] == chars@[j + i]);
        }
        lemma_trim_end(rest, k - i);
        assert(rest.take(k - i) =~= chars@.subrange(i as int, k as int));
    }
    (i, k)
}

/// The part of `s` without the white space around it.
pub fn trimmed(s: &str) -> (r: &str)
    ensures
        r@ == trim(s@),
{
    let chars: Vec<char> = chars_of(s);
    let (from, to): (usize, usize) = trim_bounds(&chars);
    s.substring_char(from, to)
}

/// Tells whether `s` holds nothing but white space.
pub fn is_blank(s: &str) -> (r: bool)
    ensures
        r == blank(s@),
{
    trimmed(s).is_empty()
}

/// A text is blank exactly when each of its characters is white space.
pub proof fn lemma_blank(s: Seq<char>)
    ensures
        blank(s) <==> forall|i: int| 0 <= i < s.len() ==> white(#[trigger] s[i]),
    decreases s.len(),
{
    if s.len() > 0 && white(s[0]) {
        let rest = s.drop_first();
        lemma_blank(rest);
        if blank(s) {
            assert forall|i: int| 0 <= i < s.len() implies white(#[trigger] s[i]) by {
                if i > 0 {
                    assert(rest[i - 1] == s[i]);
                }
            }
        }
        if forall|i: int| 0 <= i < s.len() ==> white(#[trigger] s[i]) {
            assert forall|i: int| 0 <= i < rest.len() implies white(#[trigger] rest[i]) by {
                assert(rest[i] == s[i + 1]);
            }
        }
    } else if s.len() > 0 {
        lemma_trim_end_keeps(s);
    }
}

/// What starts with something other than white space keeps its start.
pub proof fn lemma_trim_end_keeps(s: Seq<char>)
    requires
        s.len() > 0,
        !white(s[0]),
    ensures
        trim_end(s).len() > 0,
        trim_end(s)[0] == s[0],
    decreases s.len(),
{
    if white(s.last()) {
        lemma_trim_end_keeps(s.drop_last());
    }
}

/// Where `trim` starts and ends in `s`: only white space is left out.
pub proof fn lemma_trim(s: Seq<char>) -> (r: (int, int))
    ensures
        0 <= r.0 <= r.1 <= s.len(),
        trim(s) == s.subrange(r.0, r.1),
        forall|i: int| 0 <= i < r.0 ==> white(#[trigger] s[i]),
        forall|i: int| r.1 <= i < s.len() ==> white(#[trigger] s[i]),
        r.0 < r.1 ==> !white(s[r.0]) && !white(s[r.1 - 1]),
    decreases s.len(),
{
    if s.len() == 0 {
        assert(trim(s) =~= s.subrange(0, 0));
        (0, 0)
    } else if white(s[0]) {
        let rest = s.drop_first();
        let (a, b) = lemma_trim(rest);
        assert(rest.subrange(a, b) =~= s.subrange(a + 1, b + 1));
        assert forall|i: int| 0 <= i < a + 1 implies white(#[trigger] s[i]) by {
            if i > 0 {
                assert(rest[i - 1] == s[i]);
            }
        }
        assert forall|i: int| b + 1 <= i < s.len() implies white(#[trigger] s[i]) by {
            assert(rest[i - 1] == s[i]);
        }
        (a + 1, b + 1)
    } else {
        let n = lemma_trim_end_place(s);
        (0, n)
    }
}

proof fn lemma_trim_end_place(s: Seq<char>) -> (n: int)
    requires
        s.len() > 0,
        !white(s[0]),
    ensures
        0 < n <= s.len(),
        trim_end(s) == s.subrange(0, n),
        forall|i: int| n <= i < s.len() ==> white(#[trigger] s[i]),
        !white(s[n - 1]),
    decreases s.len(),
{
    if white(s.last()) {
        let rest = s.drop_last();
        let n = lemma_trim_end_place(rest);
        assert(rest.subrange(0, n) =~= s.subrange(0, n));
        assert forall|i: int| n <= i < s.len() implies white(#[trigger] s[i]) by {
            if i < rest.len() {
                assert(rest[i] == s[i]);
            }
        }
        n
    } else {
        assert(s.subrange(0, s.len() as int) =~= s);
        s.len() as int
    }
}

/// What has no white space around it is trimmed.
pub proof fn lemma_trim_none(s: Seq<char>)
    requires
        s.len() > 0 ==> !white(s[0]) && !white(s.last()),
    ensures
        trim(s) == s,
{
}

/// What is trimmed has no white space around it.
pub proof fn lemma_trim_edges(s: Seq<char>)
    requires
        trim(s).len() > 0,
    ensures
        !white(trim(s)[0]),
        !white(trim(s).last()),
{
    let (a, b) = lemma_trim(s);
    assert(trim(s)[0] == s[a]);
    assert(trim(s).last() == s[b - 1]);
}

/// Trimming twice is trimming once.
pub proof fn lemma_trim_twice(s: Seq<char>)
    ensures
        trim(trim(s)) == trim(s),
{
    let (a, b) = lemma_trim(s);
    if a < b {
        assert(trim(s)[0] == s[a]);
        assert(trim(s).last() == s[b - 1]);
    }
    lemma_trim_none(trim(s));
}

// ---------------------------------------------------------------------------
// Leaving characters out
// ---------------------------------------------------------------------------
/// `s` without any `c`.
pub open spec fn without(s: Seq<char>, c: char) -> Seq<char>
    decreases s.len(),
{
    if s.len() == 0 {
        seq![]
    } else if s.last() == c {
        without(s.drop_last(), c)
    } else {
        without(s.drop_last(), c).push(s.last())
    }
}

/// What has no `c` is left as it is.
pub proof fn lemma_without_none(s: Seq<char>, c: char)
    requires
        forall|i: int| 0 <= i < s.len() ==> #[trigger] s[i] != c,
    ensures
        without(s, c) == s,
    decreases s.len(),
{
    if s.len() > 0 {
        let rest = s.drop_last();
        assert forall|i: int| 0 <= i < rest.len() implies #[trigger] rest[i] != c by {
            assert(rest[i] == s[i]);
        }
        lemma_without_none(rest, c);
        assert(s[s.len() - 1] != c);
        assert(rest.push(s.last()) =~= s);
    }
}

/// Every `c` is left out, and nothing else is brought in.
pub proof fn lemma_without(s: Seq<char>, c: char)
    ensures
        forall|i: int| 0 <= i < without(s, c).len() ==> #[trigger] without(s, c)[i] != c,
        forall|x: char| #[trigger] without(s, c).contains(x) ==> s.contains(x),
    decreases s.len(),
{
    if s.len() > 0 {
        let rest = s.drop_last();
        lemma_without(rest, c);
        assert forall|x: char| #[trigger] without(s, c).contains(x) implies s.contains(x) by {
            let i = choose|i: int| 0 <= i < without(s, c).len() && without(s, c)[i] == x;
            if i < without(rest, c).len() {
                assert(without(rest, c)[i] == x);
                assert(without(rest, c).contains(x));
                let k = choose|k: int| 0 <= k < rest.len() && rest[k] == x;
                assert(s[k] == x);
            } else {
                assert(s[s.len() - 1] == x);
            }
        }
    }
}

/// `s` without any `c`.
pub fn remove_char(s: &str, c: char) -> (r: String)
    ensures
        r@ == without(s@, c),
{
    let chars: Vec<char> = chars_of(s);
    let mut r: String = String::new();
    let mut i: usize = 0;
    while i < chars.len()
        invariant
            i <= chars@.len(),
            chars@ == s@,
            r@ == without(s@.take(i as int), c),
        decreases chars.len() - i,
    {
        let x: char = chars[i];
        proof {
            assert(s@.take(i + 1).drop_last() =~= s@.take(i as int));
            assert(s@.take(i + 1).last() == x);
        }
        if x != c {
            r.push(x);
        }
        i = i + 1;
    }
    proof {
        assert(s@.take(chars@.len() as int) =~= s@);
    }
    r
}

// ---------------------------------------------------------------------------
// Bytes
// ---------------------------------------------------------------------------
/// The text that `String::from_utf8_lossy` makes of bytes.
pub uninterp spec fn lossy_text(bytes: Seq<u8>) -> Seq<char>;

/// `String::from_utf8_lossy`: the text that the bytes encode where they are valid UTF-8, and else
/// that text with replacement characters in the invalid places.
#[verifier::external_body]
pub(crate) fn from_utf8_lossy(bytes: &[u8]) -> (r: String)
    ensures
        r@ == lossy_text(bytes@),
        valid_utf8(bytes@) ==> r@ == decode_utf8(bytes@),
{
    String::from_utf8_lossy(bytes).into_owned()
}

} // verus!
