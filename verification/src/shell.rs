//! Quoting for POSIX shells, and what a shell makes of it.
use crate::text;
use vstd::prelude::*;

verus! {

// ---------------------------------------------------------------------------
// Quoting
// ---------------------------------------------------------------------------
/// How one character stands between single quotes: a single quote ends the quotes, follows behind
/// a backslash, and opens them again.
pub open spec fn quoted_char(c: char) -> Seq<char> {
    if c == '\'' {
        seq!['\'', '\\', '\'', '\'']
    } else {
        seq![c]
    }
}

/// How the characters of `s` stand between single quotes.
pub open spec fn quoted_body(s: Seq<char>) -> Seq<char>
    decreases s.len(),
{
    if s.len() == 0 {
        seq![]
    } else {
        quoted_body(s.drop_last()) + quoted_char(s.last())
    }
}

/// `s` as one single-quoted shell word.
pub open spec fn quoted(s: Seq<char>) -> Seq<char> {
    seq!['\''] + quoted_body(s) + seq!['\'']
}

/// `s` as one single-quoted shell word.
pub fn sh_quote(s: &str) -> (r: String)
    ensures
        r@ == quoted(s@),
{
    let chars: Vec<char> = text::chars_of(s);
    let mut r: String = String::new();
    r.push('\'');
    let mut i: usize = 0;
    while i < chars.len()
        invariant
            i <= chars@.len(),
            chars@ == s@,
            r@ == seq!['\''] + quoted_body(s@.take(i as int)),
        decreases chars.len() - i,
    {
        let c: char = chars[i];
        if c == '\'' {
            r.push('\'');
            r.push('\\');
            r.push('\'');
            r.push('\'');
        } else {
            r.push(c);
        }
        proof {
            let next = s@.take(i + 1);
            assert(next.drop_last() =~= s@.take(i as int));
            assert(next.last() == c);
            assert(r@ =~= seq!['\''] + quoted_body(next));
        }
        i = i + 1;
    }
    r.push('\'');
    proof {
        assert(s@.take(chars@.len() as int) =~= s@);
        assert(r@ =~= quoted(s@));
    }
    r
}

// ---------------------------------------------------------------------------
// What a shell reads
// ---------------------------------------------------------------------------
/// Where the shell is in a command line.
pub enum Mode {
    /// Outside quotes.
    Plain,
    /// Between single quotes.
    Single,
    /// Just behind a backslash outside quotes.
    Escaped,
    /// Behind a character that means more to the shell than itself.
    Lost,
}

/// A shell that splits a command line into words: the words so far, the word it is in, and where
/// it is.
#[verifier::ext_equal]
pub struct Reader {
    pub done: Seq<Seq<char>>,
    pub word: Option<Seq<char>>,
    pub mode: Mode,
}

/// A character that outside quotes ends the command, or makes the shell substitute something.
pub open spec fn special(c: char) -> bool {
    ||| c == '\n' || c == '"' || c == '$' || c == '`' || c == ';' || c == '&' || c == '|'
    ||| c == '<' || c == '>' || c == '(' || c == ')' || c == '*' || c == '?' || c == '['
    ||| c == '#' || c == '!' || c == '{' || c == '}'
}

impl Reader {
    /// A shell before a command line.
    pub open spec fn start() -> Reader {
        Reader { done: seq![], word: None, mode: Mode::Plain }
    }

    /// The word it is in, where it is in one.
    pub open spec fn so_far(self) -> Seq<char> {
        match self.word {
            Some(w) => w,
            None => seq![],
        }
    }

    /// The same place with `s` added to the word.
    pub open spec fn with(self, s: Seq<char>, mode: Mode) -> Reader {
        Reader { done: self.done, word: Some(self.so_far() + s), mode: mode }
    }

    /// One character further.
    pub open spec fn step(self, c: char) -> Reader {
        match self.mode {
            Mode::Plain => if c == ' ' || c == '\t' {
                match self.word {
                    Some(w) => Reader { done: self.done.push(w), word: None, mode: Mode::Plain },
                    None => self,
                }
            } else if c == '\'' {
                self.with(seq![], Mode::Single)
            } else if c == '\\' {
                self.with(seq![], Mode::Escaped)
            } else if special(c) {
                Reader { mode: Mode::Lost, ..self }
            } else {
                self.with(seq![c], Mode::Plain)
            },
            Mode::Single => if c == '\'' {
                self.with(seq![], Mode::Plain)
            } else {
                self.with(seq![c], Mode::Single)
            },
            Mode::Escaped => self.with(seq![c], Mode::Plain),
            Mode::Lost => self,
        }
    }

    /// Past all of `s`.
    pub open spec fn run(self, s: Seq<char>) -> Reader
        decreases s.len(),
    {
        if s.len() == 0 {
            self
        } else {
            self.run(s.drop_last()).step(s.last())
        }
    }

    /// The words of the line that ends here.
    pub open spec fn finish(self) -> Option<Seq<Seq<char>>> {
        match self.mode {
            Mode::Plain => Some(
                match self.word {
                    Some(w) => self.done.push(w),
                    None => self.done,
                },
            ),
            _ => None,
        }
    }
}

/// The words that a shell reads in a command line, after quote removal and before tilde
/// expansion. There are none where a quote stays open, or where a character outside quotes ends
/// the command or asks for an expansion.
pub open spec fn shell_words(line: Seq<char>) -> Option<Seq<Seq<char>>> {
    Reader::start().run(line).finish()
}

pub proof fn lemma_run_add(reader: Reader, a: Seq<char>, b: Seq<char>)
    ensures
        reader.run(a + b) == reader.run(a).run(b),
    decreases b.len(),
{
    if b.len() == 0 {
        assert(a + b =~= a);
    } else {
        assert((a + b).drop_last() =~= a + b.drop_last());
        lemma_run_add(reader, a, b.drop_last());
    }
}

pub proof fn lemma_run_one(reader: Reader, c: char)
    ensures
        reader.run(seq![c]) == reader.step(c),
{
    assert(seq![c].drop_last() =~= seq![]);
    reveal_with_fuel(Reader::run, 2);
}

proof fn lemma_run_quoted_body(reader: Reader, s: Seq<char>)
    requires
        reader.mode == Mode::Single,
        reader.word is Some,
    ensures
        reader.run(quoted_body(s)) == reader.with(s, Mode::Single),
    decreases s.len(),
{
    if s.len() == 0 {
        assert(reader.with(s, Mode::Single) =~= reader);
    } else {
        let rest = s.drop_last();
        let c = s.last();
        lemma_run_quoted_body(reader, rest);
        lemma_run_add(reader, quoted_body(rest), quoted_char(c));
        let here = reader.with(rest, Mode::Single);
        if c == '\'' {
            let q = quoted_char(c);
            assert(q =~= seq!['\''] + seq!['\\'] + seq!['\''] + seq!['\'']);
            lemma_run_add(here, seq!['\''] + seq!['\\'] + seq!['\''], seq!['\'']);
            lemma_run_add(here, seq!['\''] + seq!['\\'], seq!['\'']);
            lemma_run_add(here, seq!['\''], seq!['\\']);
            lemma_run_one(here, '\'');
            lemma_run_one(here.run(seq!['\'']), '\\');
            lemma_run_one(here.run(seq!['\''] + seq!['\\']), '\'');
            lemma_run_one(here.run(seq!['\''] + seq!['\\'] + seq!['\'']), '\'');
        } else {
            lemma_run_one(here, c);
        }
        assert(here.run(quoted_char(c)).so_far() =~= reader.so_far() + s);
        assert(here.run(quoted_char(c)) =~= reader.with(s, Mode::Single));
    }
}

/// Outside quotes, a quoted text is taken into the word as it is.
pub proof fn lemma_run_quoted(reader: Reader, s: Seq<char>)
    requires
        reader.mode == Mode::Plain,
    ensures
        reader.run(quoted(s)) == reader.with(s, Mode::Plain),
{
    let open = reader.with(seq![], Mode::Single);
    lemma_run_add(reader, seq!['\''] + quoted_body(s), seq!['\'']);
    lemma_run_add(reader, seq!['\''], quoted_body(s));
    lemma_run_one(reader, '\'');
    lemma_run_quoted_body(open, s);
    lemma_run_one(open.with(s, Mode::Single), '\'');
    assert(reader.run(quoted(s)).so_far() =~= reader.so_far() + s);
    assert(reader.run(quoted(s)) =~= reader.with(s, Mode::Plain));
}

/// Whatever `s` holds, a shell reads its quoted form as one word, which is `s`.
pub proof fn law_quoted_is_one_word(s: Seq<char>)
    ensures
        shell_words(quoted(s)) == Some(seq![s]),
{
    lemma_run_quoted(Reader::start(), s);
    assert(Reader::start().with(s, Mode::Plain).so_far() =~= s);
    assert(shell_words(quoted(s))->0 =~= seq![s]);
}

/// Characters that stand for themselves outside quotes.
pub open spec fn literal(s: Seq<char>) -> bool {
    forall|i: int|
        0 <= i < s.len() ==> {
            let c = #[trigger] s[i];
            !special(c) && c != ' ' && c != '\t' && c != '\'' && c != '\\'
        }
}

/// Outside quotes, characters that stand for themselves are taken into the word.
pub proof fn lemma_run_literal(reader: Reader, s: Seq<char>)
    requires
        reader.mode == Mode::Plain,
        literal(s),
        s.len() > 0,
    ensures
        reader.run(s) == reader.with(s, Mode::Plain),
    decreases s.len(),
{
    let rest = s.drop_last();
    if rest.len() == 0 {
        assert(s =~= seq![s.last()]);
        lemma_run_one(reader, s.last());
    } else {
        assert forall|i: int| 0 <= i < rest.len() implies {
            let c = #[trigger] rest[i];
            !special(c) && c != ' ' && c != '\t' && c != '\'' && c != '\\'
        } by {
            assert(rest[i] == s[i]);
        }
        lemma_run_literal(reader, rest);
        assert(reader.run(s).so_far() =~= reader.so_far() + s);
        assert(reader.run(s) =~= reader.with(s, Mode::Plain));
    }
}

/// Each text of a list, quoted, behind a space.
pub open spec fn quoted_args(args: Seq<Seq<char>>) -> Seq<char>
    decreases args.len(),
{
    if args.len() == 0 {
        seq![]
    } else {
        quoted_args(args.drop_last()) + seq![' '] + quoted(args.last())
    }
}

/// The first of some quoted arguments stands before the others.
pub proof fn lemma_quoted_args_first(first: Seq<char>, args: Seq<Seq<char>>)
    ensures
        quoted_args(seq![first] + args) == seq![' '] + quoted(first) + quoted_args(args),
    decreases args.len(),
{
    let all = seq![first] + args;
    if args.len() == 0 {
        assert(all.drop_last() =~= args);
        assert(quoted_args(args) =~= seq![]);
        assert(quoted_args(all) =~= seq![' '] + quoted(first) + quoted_args(args));
    } else {
        lemma_quoted_args_first(first, args.drop_last());
        assert(all.drop_last() =~= seq![first] + args.drop_last());
        assert(quoted_args(all) =~= seq![' '] + quoted(first) + quoted_args(args));
    }
}

/// Behind a word, quoted arguments are read as one word each.
pub proof fn lemma_run_quoted_args(reader: Reader, args: Seq<Seq<char>>)
    requires
        reader.mode == Mode::Plain,
        reader.word is Some,
    ensures
        reader.run(quoted_args(args)).mode == Mode::Plain,
        reader.run(quoted_args(args)).word is Some,
        reader.run(quoted_args(args)).finish() == Some(reader.done.push(reader.so_far()) + args),
    decreases args.len(),
{
    if args.len() == 0 {
        assert(reader.done.push(reader.so_far()) + args =~= reader.done.push(reader.so_far()));
    } else {
        let rest = args.drop_last();
        lemma_run_quoted_args(reader, rest);
        let there = reader.run(quoted_args(rest));
        lemma_run_add(reader, quoted_args(rest) + seq![' '], quoted(args.last()));
        lemma_run_add(reader, quoted_args(rest), seq![' ']);
        lemma_run_one(there, ' ');
        let gap = there.step(' ');
        lemma_run_quoted(gap, args.last());
        assert(gap.with(args.last(), Mode::Plain).so_far() =~= args.last());
        assert(reader.run(quoted_args(args)).finish()->0 =~= reader.done.push(reader.so_far())
            + args);
    }
}

/// A command line of a plain command word and quoted arguments is read as that word and exactly
/// these arguments, whatever they hold.
pub proof fn law_quoted_command_words(command: Seq<char>, args: Seq<Seq<char>>)
    requires
        literal(command),
        command.len() > 0,
    ensures
        shell_words(command + quoted_args(args)) == Some(seq![command] + args),
{
    lemma_run_add(Reader::start(), command, quoted_args(args));
    lemma_run_literal(Reader::start(), command);
    let there = Reader::start().with(command, Mode::Plain);
    assert(there.so_far() =~= command);
    lemma_run_quoted_args(there, args);
    assert(there.done.push(there.so_far()) + args =~= seq![command] + args);
}

// ---------------------------------------------------------------------------
// The commands of a script
// ---------------------------------------------------------------------------
/// Where the shell is in a script.
pub enum Quote {
    /// Outside quotes.
    Plain,
    /// Between single quotes.
    Single,
    /// Between double quotes.
    Double,
    /// Just behind a backslash outside quotes.
    Escaped,
    /// Just behind a backslash between double quotes.
    DoubleEscaped,
    /// Behind a character that may start a comment.
    Lost,
}

/// A shell that cuts a script into command lines: the lines so far, the line it is in, and where it
/// is.
#[verifier::ext_equal]
pub struct Splitter {
    pub done: Seq<Seq<char>>,
    pub line: Seq<char>,
    pub quote: Quote,
}

impl Splitter {
    /// A shell before a script.
    pub open spec fn start() -> Splitter {
        Splitter { done: seq![], line: seq![], quote: Quote::Plain }
    }

    /// The same place with `s` added to the line.
    pub open spec fn with(self, s: Seq<char>, quote: Quote) -> Splitter {
        Splitter { done: self.done, line: self.line + s, quote: quote }
    }

    /// One character further: a line feed outside quotes ends the line.
    pub open spec fn step(self, c: char) -> Splitter {
        match self.quote {
            Quote::Plain => if c == '\n' {
                Splitter { done: self.done.push(self.line), line: seq![], quote: Quote::Plain }
            } else if c == '\'' {
                self.with(seq![c], Quote::Single)
            } else if c == '"' {
                self.with(seq![c], Quote::Double)
            } else if c == '\\' {
                self.with(seq![c], Quote::Escaped)
            } else if c == '#' {
                self.with(seq![c], Quote::Lost)
            } else {
                self.with(seq![c], Quote::Plain)
            },
            Quote::Single => if c == '\'' {
                self.with(seq![c], Quote::Plain)
            } else {
                self.with(seq![c], Quote::Single)
            },
            Quote::Double => if c == '"' {
                self.with(seq![c], Quote::Plain)
            } else if c == '\\' {
                self.with(seq![c], Quote::DoubleEscaped)
            } else {
                self.with(seq![c], Quote::Double)
            },
            Quote::Escaped => self.with(seq![c], Quote::Plain),
            Quote::DoubleEscaped => self.with(seq![c], Quote::Double),
            Quote::Lost => self,
        }
    }

    /// Past all of `s`.
    pub open spec fn run(self, s: Seq<char>) -> Splitter
        decreases s.len(),
    {
        if s.len() == 0 {
            self
        } else {
            self.run(s.drop_last()).step(s.last())
        }
    }
}

/// The command lines that a shell reads in a script, each as it stands there. There are none where a
/// quote or the last line stays open, or where a comment may start.
pub open spec fn shell_commands(script: Seq<char>) -> Option<Seq<Seq<char>>> {
    let there = Splitter::start().run(script);
    if there.quote is Plain && there.line.len() == 0 {
        Some(there.done)
    } else {
        None
    }
}

/// A shell that is outside quotes takes all of `s` into its line, and is outside quotes again.
pub open spec fn stays_in_line(s: Seq<char>) -> bool {
    forall|here: Splitter| here.quote is Plain ==> #[trigger] here.run(s) == here.with(s, Quote::Plain)
}

proof fn lemma_split_add(here: Splitter, a: Seq<char>, b: Seq<char>)
    ensures
        here.run(a + b) == here.run(a).run(b),
    decreases b.len(),
{
    if b.len() == 0 {
        assert(a + b =~= a);
    } else {
        assert((a + b).drop_last() =~= a + b.drop_last());
        lemma_split_add(here, a, b.drop_last());
    }
}

proof fn lemma_split_one(here: Splitter, c: char)
    ensures
        here.run(seq![c]) == here.step(c),
{
    assert(seq![c].drop_last() =~= seq![]);
    reveal_with_fuel(Splitter::run, 2);
}

/// Two texts that stay in a line do so together.
pub proof fn lemma_line_add(a: Seq<char>, b: Seq<char>)
    requires
        stays_in_line(a),
        stays_in_line(b),
    ensures
        stays_in_line(a + b),
{
    assert forall|here: Splitter| here.quote is Plain implies #[trigger] here.run(a + b)
        == here.with(a + b, Quote::Plain) by {
        lemma_split_add(here, a, b);
        let there = here.with(a, Quote::Plain);
        assert(here.run(a) == there);
        assert(there.run(b) == there.with(b, Quote::Plain));
        assert(here.run(a + b) =~= here.with(a + b, Quote::Plain));
    }
}

/// A character that means nothing to the cutting of a script into lines.
pub open spec fn bare(c: char) -> bool {
    c != '\n' && c != '\'' && c != '"' && c != '\\' && c != '#'
}

/// Bare characters stay in a line.
pub proof fn lemma_line_bare(s: Seq<char>)
    requires
        forall|i: int| 0 <= i < s.len() ==> bare(#[trigger] s[i]),
    ensures
        stays_in_line(s),
    decreases s.len(),
{
    if s.len() > 0 {
        let rest = s.drop_last();
        assert forall|i: int| 0 <= i < rest.len() implies bare(#[trigger] rest[i]) by {
            assert(rest[i] == s[i]);
        }
        lemma_line_bare(rest);
        assert(bare(s[s.len() - 1]));
        assert forall|here: Splitter| here.quote is Plain implies #[trigger] here.run(s)
            == here.with(s, Quote::Plain) by {
            assert(here.run(rest) == here.with(rest, Quote::Plain));
            assert(here.run(s) =~= here.with(s, Quote::Plain));
        }
    } else {
        assert forall|here: Splitter| here.quote is Plain implies #[trigger] here.run(s)
            == here.with(s, Quote::Plain) by {
            assert(here.run(s) =~= here.with(s, Quote::Plain));
        }
    }
}

proof fn lemma_split_quoted_body(here: Splitter, s: Seq<char>)
    requires
        here.quote is Single,
    ensures
        here.run(quoted_body(s)) == here.with(quoted_body(s), Quote::Single),
    decreases s.len(),
{
    if s.len() == 0 {
        assert(here.run(quoted_body(s)) =~= here.with(quoted_body(s), Quote::Single));
    } else {
        let rest = s.drop_last();
        let c = s.last();
        let there = here.with(quoted_body(rest), Quote::Single);
        lemma_split_quoted_body(here, rest);
        lemma_split_add(here, quoted_body(rest), quoted_char(c));
        if c == '\'' {
            let q = quoted_char(c);
            assert(q =~= seq!['\''] + seq!['\\'] + seq!['\''] + seq!['\'']);
            lemma_split_add(there, seq!['\''] + seq!['\\'] + seq!['\''], seq!['\'']);
            lemma_split_add(there, seq!['\''] + seq!['\\'], seq!['\'']);
            lemma_split_add(there, seq!['\''], seq!['\\']);
            lemma_split_one(there, '\'');
            lemma_split_one(there.run(seq!['\'']), '\\');
            lemma_split_one(there.run(seq!['\''] + seq!['\\']), '\'');
            lemma_split_one(there.run(seq!['\''] + seq!['\\'] + seq!['\'']), '\'');
        } else {
            lemma_split_one(there, c);
        }
        assert(there.run(quoted_char(c)) =~= there.with(quoted_char(c), Quote::Single));
        assert(here.run(quoted_body(s)) =~= here.with(quoted_body(s), Quote::Single));
    }
}

/// Whatever `s` holds, its quoted form stays in a line.
pub proof fn lemma_line_quoted(s: Seq<char>)
    ensures
        stays_in_line(quoted(s)),
{
    assert forall|here: Splitter| here.quote is Plain implies #[trigger] here.run(quoted(s))
        == here.with(quoted(s), Quote::Plain) by {
        let open = here.with(seq!['\''], Quote::Single);
        lemma_split_add(here, seq!['\''] + quoted_body(s), seq!['\'']);
        lemma_split_add(here, seq!['\''], quoted_body(s));
        lemma_split_one(here, '\'');
        lemma_split_quoted_body(open, s);
        lemma_split_one(open.with(quoted_body(s), Quote::Single), '\'');
        assert(here.run(quoted(s)) =~= here.with(quoted(s), Quote::Plain));
    }
}

/// Quoted arguments stay in a line.
pub proof fn lemma_line_quoted_args(args: Seq<Seq<char>>)
    ensures
        stays_in_line(quoted_args(args)),
    decreases args.len(),
{
    if args.len() == 0 {
        lemma_line_bare(quoted_args(args));
    } else {
        lemma_line_quoted_args(args.drop_last());
        lemma_line_bare(seq![' ']);
        lemma_line_add(quoted_args(args.drop_last()), seq![' ']);
        lemma_line_quoted(args.last());
        lemma_line_add(quoted_args(args.drop_last()) + seq![' '], quoted(args.last()));
    }
}

proof fn lemma_split_double(here: Splitter, s: Seq<char>)
    requires
        here.quote is Double,
        forall|i: int| 0 <= i < s.len() ==> #[trigger] s[i] != '"' && s[i] != '\\',
    ensures
        here.run(s) == here.with(s, Quote::Double),
    decreases s.len(),
{
    if s.len() == 0 {
        assert(here.run(s) =~= here.with(s, Quote::Double));
    } else {
        let rest = s.drop_last();
        assert forall|i: int| 0 <= i < rest.len() implies #[trigger] rest[i] != '"' && rest[i]
            != '\\' by {
            assert(rest[i] == s[i]);
        }
        lemma_split_double(here, rest);
        assert(s[s.len() - 1] != '"');
        assert(here.run(s) =~= here.with(s, Quote::Double));
    }
}

/// A text between double quotes that has no double quote and no backslash stays in a line.
pub proof fn lemma_line_double(s: Seq<char>)
    requires
        forall|i: int| 0 <= i < s.len() ==> #[trigger] s[i] != '"' && s[i] != '\\',
    ensures
        stays_in_line(seq!['"'] + s + seq!['"']),
{
    let whole = seq!['"'] + s + seq!['"'];
    assert forall|here: Splitter| here.quote is Plain implies #[trigger] here.run(whole)
        == here.with(whole, Quote::Plain) by {
        let open = here.with(seq!['"'], Quote::Double);
        lemma_split_add(here, seq!['"'] + s, seq!['"']);
        lemma_split_add(here, seq!['"'], s);
        lemma_split_one(here, '"');
        lemma_split_double(open, s);
        lemma_split_one(open.with(s, Quote::Double), '"');
        assert(here.run(whole) =~= here.with(whole, Quote::Plain));
    }
}

/// One more line of a script is one more command line.
pub proof fn lemma_commands_push(script: Seq<char>, line: Seq<char>)
    requires
        shell_commands(script) is Some,
        stays_in_line(line),
    ensures
        shell_commands(script + line + seq!['\n']) == Some(shell_commands(script)->0.push(line)),
{
    let there = Splitter::start().run(script);
    lemma_split_add(Splitter::start(), script + line, seq!['\n']);
    lemma_split_add(Splitter::start(), script, line);
    assert(there.run(line) == there.with(line, Quote::Plain));
    lemma_split_one(there.with(line, Quote::Plain), '\n');
    assert(there.line + line =~= line);
}

} // verus!
