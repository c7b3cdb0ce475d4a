//! What holds of texts, numbers, names and values.
use crate::json::JsonTree;
use crate::number;
use crate::order;
use crate::paths;
use crate::shell;
use crate::split;
use crate::text;
use vstd::prelude::*;

verus! {

// ---------------------------------------------------------------------------
// Characters
// ---------------------------------------------------------------------------
/// White space is made of these characters and no others.
pub proof fn law_white(c: char)
    ensures
        text::white(c) <==> ({
            let n = c as int;
            ||| 9 <= n <= 13
            ||| n == 32
            ||| n == 0x85
            ||| n == 0xa0
            ||| n == 0x1680
            ||| 0x2000 <= n <= 0x200a
            ||| n == 0x2028
            ||| n == 0x2029
            ||| n == 0x202f
            ||| n == 0x205f
            ||| n == 0x3000
        }),
{
}

/// Letters and digits are those of ASCII, all of them and no others.
pub proof fn law_alnum(c: char)
    ensures
        text::alnum(c) <==> ({
            let n = c as int;
            48 <= n <= 57 || 65 <= n <= 90 || 97 <= n <= 122
        }),
{
}

/// An ASCII letter in lower case, and any other character as it is.
pub open spec fn lower(c: char) -> int {
    if 65 <= c as int <= 90 {
        c as int + 32
    } else {
        c as int
    }
}

/// Two texts are the same without regard to case exactly when they are the same in lower case.
pub proof fn law_caseless(a: Seq<char>, b: Seq<char>)
    ensures
        text::caseless(a, b) <==> a.map_values(|c: char| lower(c)) == b.map_values(
            |c: char| lower(c),
        ),
{
    let x = a.map_values(|c: char| lower(c));
    let y = b.map_values(|c: char| lower(c));
    if text::caseless(a, b) {
        assert forall|i: int| 0 <= i < x.len() implies x[i] == y[i] by {
            assert(text::same_letter(a[i], b[i]));
        }
        assert(x =~= y);
    }
    if x == y {
        assert(x.len() == a.len() && y.len() == b.len());
        assert forall|i: int|
            #![trigger a[i]]
            #![trigger b[i]]
            0 <= i < a.len() implies text::same_letter(a[i], b[i]) by {
            assert(x[i] == y[i]);
        }
    }
}

// ---------------------------------------------------------------------------
// Trimming and leaving out
// ---------------------------------------------------------------------------
/// Nothing but white space.
pub open spec fn all_white(s: Seq<char>) -> bool {
    forall|i: int| 0 <= i < s.len() ==> text::white(#[trigger] s[i])
}

/// Something, and no white space at its ends.
pub open spec fn solid(s: Seq<char>) -> bool {
    s.len() > 0 && !text::white(s[0]) && !text::white(s.last())
}

/// Trimming takes the white space off both ends of a text, and nothing else.
pub proof fn law_trim(front: Seq<char>, core: Seq<char>, back: Seq<char>)
    requires
        all_white(front),
        all_white(back),
        solid(core),
    ensures
        text::trim(front + core + back) == core,
        text::trim_start(front + core + back) == core + back,
        !text::blank(front + core + back),
{
    let s = front + core + back;
    let rest = core + back;
    assert forall|j: int| 0 <= j < front.len() implies text::white(#[trigger] s[j]) by {
        assert(s[j] == front[j]);
    }
    assert(s[front.len() as int] == core[0]);
    text::lemma_trim_start(s, front.len() as int);
    assert(s.skip(front.len() as int) =~= rest);
    let n = core.len() as int;
    assert forall|j: int| n <= j < rest.len() implies text::white(#[trigger] rest[j]) by {
        assert(rest[j] == back[j - n]);
    }
    assert(rest[n - 1] == core.last());
    text::lemma_trim_end(rest, n);
    assert(rest.take(n) =~= core);
}

/// A text of white space alone is blank, and nothing is left of it.
pub proof fn law_trim_blank(s: Seq<char>)
    ensures
        text::blank(s) <==> all_white(s),
        all_white(s) ==> text::trim(s) == Seq::<char>::empty() && text::trim_start(s) == Seq::<
            char,
        >::empty(),
{
    text::lemma_blank(s);
    if all_white(s) {
        text::lemma_trim_start(s, s.len() as int);
        assert(s.skip(s.len() as int) =~= seq![]);
        assert(text::trim(s) =~= seq![]);
    }
}

/// Each text is white space around something solid, or white space alone.
pub proof fn law_trim_parts(s: Seq<char>) -> (r: (Seq<char>, Seq<char>, Seq<char>))
    ensures
        s == r.0 + r.1 + r.2,
        all_white(r.0),
        all_white(r.2),
        r.1.len() == 0 || solid(r.1),
        text::trim(s) == r.1,
{
    let (a, b) = text::lemma_trim(s);
    let front = s.take(a);
    let core = s.subrange(a, b);
    let back = s.skip(b);
    assert(s =~= front + core + back);
    (front, core, back)
}

/// Leaving a character out keeps all others, in their order.
pub proof fn law_without(s: Seq<char>, c: char)
    ensures
        text::without(s, c) == s.filter(|x: char| x != c),
    decreases s.len(),
{
    reveal(Seq::filter);
    if s.len() > 0 {
        law_without(s.drop_last(), c);
    }
}

// ---------------------------------------------------------------------------
// Lines and words
// ---------------------------------------------------------------------------
/// The character does not occur.
pub open spec fn lacks(s: Seq<char>, c: char) -> bool {
    forall|i: int| 0 <= i < s.len() ==> #[trigger] s[i] != c
}

/// What stands ahead of the first line feed is the first line, but for one carriage return at its
/// end, and what follows has the other lines.
pub proof fn law_first_line(line: Seq<char>, rest: Seq<char>)
    requires
        lacks(line, '\n'),
    ensures
        split::lines(line + seq!['\n'] + rest) == seq![
            if line.len() > 0 && line.last() == '\r' {
                line.drop_last()
            } else {
                line
            },
        ] + split::lines(rest),
{
    let whole = line + seq!['\n'] + rest;
    let feed = text::is_char('\n');
    let n = line.len() as int;
    assert forall|j: int| 0 <= j < n implies !feed(#[trigger] whole[j]) by {
        assert(whole[j] == line[j]);
    }
    assert(whole[n] == '\n');
    text::lemma_first_where_is(whole, feed, n);
    assert(whole.take(n) =~= line);
    assert(whole.skip(n + 1) =~= rest);
}

/// A text without line feeds is one line, or none where it is empty.
pub proof fn law_last_line(line: Seq<char>)
    requires
        lacks(line, '\n'),
    ensures
        split::lines(line) == (if line.len() == 0 {
            Seq::<Seq<char>>::empty()
        } else {
            seq![line]
        }),
{
    let feed = text::is_char('\n');
    assert forall|j: int| 0 <= j < line.len() implies !feed(#[trigger] line[j]) by {}
    text::lemma_first_where_is(line, feed, line.len() as int);
}

/// White space ahead of words is no word.
pub proof fn law_words_gap(gap: Seq<char>, s: Seq<char>)
    requires
        all_white(gap),
    ensures
        split::words(gap + s) == split::words(s),
    decreases gap.len(),
{
    if gap.len() == 0 {
        assert(gap + s =~= s);
    } else {
        let rest = gap.drop_first();
        assert forall|i: int| 0 <= i < rest.len() implies text::white(#[trigger] rest[i]) by {
            assert(rest[i] == gap[i + 1]);
        }
        law_words_gap(rest, s);
        assert((gap + s).drop_first() =~= rest + s);
        assert((gap + s)[0] == gap[0]);
    }
}

/// What stands ahead of white space, or of the end, is the first word, and what follows has the
/// others.
pub proof fn law_first_word(word: Seq<char>, rest: Seq<char>)
    requires
        word.len() > 0,
        forall|i: int| 0 <= i < word.len() ==> !text::white(#[trigger] word[i]),
        rest.len() > 0 ==> text::white(rest[0]),
    ensures
        split::words(word + rest) == seq![word] + split::words(rest),
{
    let whole = word + rest;
    let space = text::is_space();
    let n = word.len() as int;
    assert forall|j: int| 0 <= j < n implies !space(#[trigger] whole[j]) by {
        assert(whole[j] == word[j]);
    }
    if rest.len() > 0 {
        assert(whole[n] == rest[0]);
    }
    text::lemma_first_where_is(whole, space, n);
    assert(whole.take(n) =~= word);
    assert(whole.skip(n) =~= rest);
    assert(whole[0] == word[0]);
}

/// White space alone has no words.
pub proof fn law_no_words(gap: Seq<char>)
    requires
        all_white(gap),
    ensures
        split::words(gap) == Seq::<Seq<char>>::empty(),
{
    law_words_gap(gap, seq![]);
    assert(gap + seq![] =~= gap);
}

// ---------------------------------------------------------------------------
// Halves, starts and joins
// ---------------------------------------------------------------------------
/// A text is cut at the first of the characters.
pub proof fn law_halves(a: Seq<char>, c: char, b: Seq<char>)
    requires
        lacks(a, c),
    ensures
        split::halves(a + seq![c] + b, c) == Some((a, b)),
        split::halves(a, c) is None,
{
    let whole = a + seq![c] + b;
    let p = text::is_char(c);
    let n = a.len() as int;
    assert forall|j: int| 0 <= j < n implies !p(#[trigger] whole[j]) by {
        assert(whole[j] == a[j]);
    }
    assert(whole[n] == c);
    text::lemma_first_where_is(whole, p, n);
    assert(whole.take(n) =~= a);
    assert(whole.skip(n + 1) =~= b);
    assert forall|j: int| 0 <= j < n implies !p(#[trigger] a[j]) by {}
    text::lemma_first_where_is(a, p, n);
}

proof fn lemma_last_index(a: Seq<char>, c: char, b: Seq<char>)
    requires
        lacks(b, c),
    ensures
        split::last_index(a + seq![c] + b, c) == a.len(),
    decreases b.len(),
{
    let whole = a + seq![c] + b;
    if b.len() == 0 {
        assert(whole.last() == c);
    } else {
        let rest = b.drop_last();
        assert forall|i: int| 0 <= i < rest.len() implies #[trigger] rest[i] != c by {
            assert(rest[i] == b[i]);
        }
        lemma_last_index(a, c, rest);
        assert(whole.drop_last() =~= a + seq![c] + rest);
        assert(whole.last() == b[b.len() - 1]);
    }
}

proof fn lemma_no_index(b: Seq<char>, c: char)
    requires
        lacks(b, c),
    ensures
        split::last_index(b, c) == -1,
    decreases b.len(),
{
    if b.len() > 0 {
        let rest = b.drop_last();
        assert forall|i: int| 0 <= i < rest.len() implies #[trigger] rest[i] != c by {
            assert(rest[i] == b[i]);
        }
        assert(b[b.len() - 1] != c);
        lemma_no_index(rest, c);
    }
}

/// A text is cut at the last of the characters.
pub proof fn law_last_halves(a: Seq<char>, c: char, b: Seq<char>)
    requires
        lacks(b, c),
    ensures
        split::last_halves(a + seq![c] + b, c) == Some((a, b)),
        split::last_halves(b, c) is None,
{
    let whole = a + seq![c] + b;
    lemma_last_index(a, c, b);
    lemma_no_index(b, c);
    assert(whole.take(a.len() as int) =~= a);
    assert(whole.skip(a.len() as int + 1) =~= b);
}

/// A text starts with another exactly when it is that one and something behind it.
pub proof fn law_starts(s: Seq<char>, prefix: Seq<char>)
    ensures
        split::starts(s, prefix) <==> exists|rest: Seq<char>| s == #[trigger] (prefix + rest),
{
    let n = prefix.len() as int;
    if split::starts(s, prefix) {
        assert(s =~= prefix + s.skip(n));
    }
    if exists|rest: Seq<char>| s == #[trigger] (prefix + rest) {
        let rest = choose|rest: Seq<char>| s == #[trigger] (prefix + rest);
        assert(s.take(n) =~= prefix);
    }
}

/// Pieces are joined in their order, with the separator between each two of them and nowhere else.
pub proof fn law_joined(list: Seq<Seq<char>>, piece: Seq<char>, sep: Seq<char>)
    ensures
        split::joined(seq![], sep) == Seq::<char>::empty(),
        split::joined(list.push(piece), sep) == (if list.len() == 0 {
            piece
        } else {
            split::joined(list, sep) + sep + piece
        }),
{
    assert(list.push(piece).drop_last() =~= list);
}

// ---------------------------------------------------------------------------
// Numbers
// ---------------------------------------------------------------------------
/// A number in decimal is its last digit behind the rest of the number.
pub proof fn law_decimal(n: nat, d: nat)
    requires
        d < 10,
    ensures
        number::decimal(d).len() == 1,
        number::decimal(d)[0] as int == 48 + d,
        n > 0 ==> number::decimal(10 * n + d) == number::decimal(n) + number::decimal(d),
{
    if n > 0 {
        assert((10 * n + d) / 10 == n);
        assert((10 * n + d) % 10 == d);
        assert(number::decimal(10 * n + d) =~= number::decimal(n) + number::decimal(d));
    }
}

/// A negative number has a minus sign ahead of its size, and any other number none.
pub proof fn law_integer(n: nat)
    ensures
        number::integer(n as int) == number::decimal(n),
        n > 0 ==> number::integer(-(n as int)) == seq!['-'] + number::decimal(n),
{
}

proof fn lemma_value_decimal(n: nat)
    ensures
        number::value(number::decimal(n)) == n,
    decreases n,
{
    let s = number::decimal(n);
    if n < 10 {
        assert(s.drop_last() =~= seq![]);
        assert(number::value(s.drop_last()) == 0);
    } else {
        lemma_value_decimal(n / 10);
        assert(s.drop_last() =~= number::decimal(n / 10));
    }
}

/// A number in decimal, behind a plus sign or not, is read as that number where sixteen bits hold
/// it, and as none where they do not.
pub proof fn law_port_number(n: nat)
    ensures
        number::u16_of(number::decimal(n)) == (if n <= 65535 {
            Some(n as u16)
        } else {
            None
        }),
        number::u16_of(seq!['+'] + number::decimal(n)) == number::u16_of(number::decimal(n)),
{
    lemma_value_decimal(n);
    number::lemma_decimal(n);
    let s = number::decimal(n);
    assert(number::is_digit(s[0]));
    assert((seq!['+'] + s).drop_first() =~= s);
}

/// What is empty, or holds anything but digits behind a plus sign, is no number.
pub proof fn law_no_number(s: Seq<char>, i: int)
    requires
        0 <= i < s.len(),
        !(48 <= s[i] as int <= 57),
        !(i == 0 && s[0] == '+'),
    ensures
        number::u16_of(s) is None,
        number::u16_of(seq![]) is None,
        number::u16_of(seq!['+']) is None,
{
    let t = number::unsigned_part(s);
    if t.len() < s.len() {
        assert(t[i - 1] == s[i]);
        assert(!number::is_digit(t[i - 1]));
    } else {
        assert(!number::is_digit(t[i]));
    }
    assert(seq!['+'].drop_first() =~= seq![]);
}

proof fn lemma_value_zero(s: Seq<char>)
    ensures
        number::value(seq!['0'] + s) == number::value(s),
    decreases s.len(),
{
    let t = seq!['0'] + s;
    if s.len() == 0 {
        assert(t.drop_last() =~= s);
    } else {
        lemma_value_zero(s.drop_last());
        assert(t.drop_last() =~= seq!['0'] + s.drop_last());
    }
}

/// A zero ahead of digits does not count.
pub proof fn law_leading_zero(s: Seq<char>)
    requires
        s.len() > 0,
        s[0] != '+',
    ensures
        number::u16_of(seq!['0'] + s) == number::u16_of(s),
{
    let t = seq!['0'] + s;
    lemma_value_zero(s);
    if number::digits(s) {
        assert forall|i: int| 0 <= i < t.len() implies number::is_digit(#[trigger] t[i]) by {
            if i > 0 {
                assert(t[i] == s[i - 1]);
            }
        }
    }
    if number::digits(t) {
        assert forall|i: int| 0 <= i < s.len() implies number::is_digit(#[trigger] s[i]) by {
            assert(s[i] == t[i + 1]);
        }
    }
}

// ---------------------------------------------------------------------------
// Order
// ---------------------------------------------------------------------------
/// The first difference decides the order of two texts.
pub proof fn law_first_difference(
    same: Seq<char>,
    x: char,
    a: Seq<char>,
    y: char,
    b: Seq<char>,
)
    requires
        (x as int) < (y as int),
    ensures
        order::before(same + seq![x] + a, same + seq![y] + b),
        !order::before(same + seq![y] + b, same + seq![x] + a),
    decreases same.len(),
{
    let p = same + seq![x] + a;
    let q = same + seq![y] + b;
    if same.len() > 0 {
        law_first_difference(same.drop_first(), x, a, y, b);
        assert(p.drop_first() =~= same.drop_first() + seq![x] + a);
        assert(q.drop_first() =~= same.drop_first() + seq![y] + b);
        assert(p[0] == same[0] && q[0] == same[0]);
    } else {
        assert(p[0] == x && q[0] == y);
    }
}

/// A text comes before what goes on where it ends, and never before itself.
pub proof fn law_shorter_first(a: Seq<char>, b: Seq<char>)
    ensures
        b.len() > 0 ==> order::before(a, a + b),
        !order::before(a + b, a),
    decreases a.len(),
{
    if a.len() > 0 {
        law_shorter_first(a.drop_first(), b);
        assert((a + b).drop_first() =~= a.drop_first() + b);
        assert((a + b)[0] == a[0]);
    } else {
        assert(a + b =~= b);
    }
}

// ---------------------------------------------------------------------------
// Quoting
// ---------------------------------------------------------------------------
proof fn lemma_quoted_body_add(a: Seq<char>, b: Seq<char>)
    ensures
        shell::quoted_body(a + b) == shell::quoted_body(a) + shell::quoted_body(b),
    decreases b.len(),
{
    if b.len() == 0 {
        assert(a + b =~= a);
        assert(shell::quoted_body(b) =~= seq![]);
        assert(shell::quoted_body(a) + shell::quoted_body(b) =~= shell::quoted_body(a));
    } else {
        assert((a + b).drop_last() =~= a + b.drop_last());
        lemma_quoted_body_add(a, b.drop_last());
        assert(shell::quoted_body(a + b) =~= shell::quoted_body(a) + shell::quoted_body(b));
    }
}

proof fn lemma_quoted_body_plain(s: Seq<char>)
    requires
        lacks(s, '\''),
    ensures
        shell::quoted_body(s) == s,
    decreases s.len(),
{
    if s.len() > 0 {
        let rest = s.drop_last();
        assert forall|i: int| 0 <= i < rest.len() implies #[trigger] rest[i] != '\'' by {
            assert(rest[i] == s[i]);
        }
        lemma_quoted_body_plain(rest);
        assert(s[s.len() - 1] != '\'');
        assert(shell::quoted_body(s) =~= s);
    }
}

/// A text stands as it is between single quotes. Where it has a single quote itself, the quotes are
/// closed, the quote follows behind a backslash, and the rest is quoted on its own.
pub proof fn law_quoted_form(plain: Seq<char>, rest: Seq<char>)
    requires
        lacks(plain, '\''),
    ensures
        shell::quoted(plain) == seq!['\''] + plain + seq!['\''],
        shell::quoted(plain + seq!['\''] + rest) == seq!['\''] + plain + seq!['\'', '\\', '\'']
            + shell::quoted(rest),
{
    lemma_quoted_body_plain(plain);
    lemma_quoted_body_add(plain + seq!['\''], rest);
    lemma_quoted_body_add(plain, seq!['\'']);
    let one = seq!['\''];
    assert(one.drop_last() =~= seq![]);
    reveal_with_fuel(shell::quoted_body, 2);
    assert(shell::quoted_body(one) =~= seq!['\'', '\\', '\'', '\'']);
    assert(shell::quoted(plain + seq!['\''] + rest) =~= seq!['\''] + plain + seq!['\'', '\\', '\'']
        + shell::quoted(rest));
}

// ---------------------------------------------------------------------------
// Paths
// ---------------------------------------------------------------------------
/// The names of a path are those ahead of a slash and those behind it.
pub proof fn law_names_add_up(a: Seq<char>, b: Seq<char>)
    ensures
        paths::components(a + seq!['/'] + b) == paths::components(a) + paths::components(b),
    decreases a.len(),
{
    let whole = a + seq!['/'] + b;
    let slash = text::is_char('/');
    text::lemma_first_where(a, slash);
    let n = text::first_where(a, slash);
    if n < a.len() {
        assert forall|j: int| 0 <= j < n implies !slash(#[trigger] whole[j]) by {
            assert(!slash(a[j]));
        }
        assert(slash(a[n]));
        assert(whole[n] == a[n]);
        text::lemma_first_where_is(whole, slash, n);
        law_names_add_up(a.skip(n + 1), b);
        assert(whole.skip(n + 1) =~= a.skip(n + 1) + seq!['/'] + b);
        assert(whole.take(n) =~= a.take(n));
        assert(paths::components(whole) =~= paths::components(a) + paths::components(b));
    } else {
        assert forall|j: int| 0 <= j < n implies !slash(#[trigger] whole[j]) by {
            assert(!slash(a[j]));
        }
        assert(whole[n] == '/');
        text::lemma_first_where_is(whole, slash, n);
        assert(whole.take(n) =~= a);
        assert(a.take(n) =~= a);
        assert(whole.skip(n + 1) =~= b);
        assert(paths::components(whole) =~= paths::components(a) + paths::components(b));
    }
}

/// A name alone is the one name of its path, but for nothing and the dot, which are no names.
pub proof fn law_one_name(name: Seq<char>)
    requires
        lacks(name, '/'),
    ensures
        paths::components(name) == (if name.len() == 0 || name == seq!['.'] {
            Seq::<Seq<char>>::empty()
        } else {
            seq![name]
        }),
{
    let slash = text::is_char('/');
    assert forall|j: int| 0 <= j < name.len() implies !slash(#[trigger] name[j]) by {}
    text::lemma_first_where_is(name, slash, name.len() as int);
    assert(name.take(name.len() as int) =~= name);
    assert(seq![name] + Seq::<Seq<char>>::empty() =~= seq![name]);
}

/// A path is called by what stands behind its last slash, wherever that is, unless that is nothing
/// or made of dots that stand for a directory.
pub proof fn law_base_name(dir: Seq<char>, name: Seq<char>)
    requires
        lacks(name, '/'),
        name.len() > 0,
        name != seq!['.'],
        name != seq!['.', '.'],
    ensures
        paths::base_name(name) == name,
        paths::base_name(dir + seq!['/'] + name) == name,
        paths::base_name(dir + seq!['/'] + name + seq!['/']) == name,
{
    law_one_name(name);
    law_one_name(seq![]);
    law_names_add_up(dir, name);
    law_names_add_up(dir + seq!['/'] + name, seq![]);
    let path = dir + seq!['/'] + name;
    assert(path + seq!['/'] + Seq::<char>::empty() =~= path + seq!['/']);
    assert(paths::components(path + seq!['/']) =~= paths::components(path));
    assert(paths::components(path).last() == name);
}

/// A path means the same everywhere exactly when it has no backslash, no colon in the second place
/// and no two slashes ahead.
pub proof fn law_portable_paths(path: Seq<char>)
    ensures
        paths::portable(path) <==> {
            &&& lacks(path, '\\')
            &&& path.len() >= 2 ==> path[1] != ':'
            &&& path.len() >= 2 ==> path[0] != '/' || path[1] != '/'
        },
{
    if !path.contains('\\') {
        assert forall|i: int| 0 <= i < path.len() implies #[trigger] path[i] != '\\' by {
            assert(path.contains(path[i]));
        }
    }
}

// ---------------------------------------------------------------------------
// Values
// ---------------------------------------------------------------------------
/// What is read of a value is what it holds, and nothing is read of a value of another kind.
pub proof fn law_values(
    fields: Map<Seq<char>, JsonTree>,
    key: Seq<char>,
    s: Seq<char>,
    n: u64,
    negative: i64,
    items: Seq<JsonTree>,
    value: JsonTree,
)
    ensures
        fields.contains_key(key) ==> JsonTree::Object(fields).get(key) == Some(fields[key]),
        !fields.contains_key(key) ==> JsonTree::Object(fields).get(key) is None,
        JsonTree::Object(fields).object() == Some(fields),
        JsonTree::Text(s).text() == Some(s),
        JsonTree::Natural(n).natural() == Some(n),
        n <= 0x7fff_ffff_ffff_ffff ==> JsonTree::Natural(n).integer() == Some(n as i64),
        n > 0x7fff_ffff_ffff_ffff ==> JsonTree::Natural(n).integer() is None,
        JsonTree::Negative(negative).integer() == Some(negative),
        JsonTree::List(items).list() == Some(items),
        !(value is Object) ==> value.get(key) is None && value.object() is None,
        !(value is Text) ==> value.text() is None,
        !(value is Natural) ==> value.natural() is None,
        !(value is Natural) && !(value is Negative) ==> value.integer() is None,
        !(value is List) ==> value.list() is None,
        fields.contains_key(key) && fields[key] == JsonTree::Text(s) ==> JsonTree::Object(
            fields,
        ).text_at(key) == Some(s),
        !fields.contains_key(key) || !(fields[key] is Text) ==> JsonTree::Object(fields).text_at(
            key,
        ) is None,
        !(value is Object) ==> value.text_at(key) is None,
{
}

} // verus!
