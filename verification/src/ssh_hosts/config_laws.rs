//! What holds of `ssh` configuration files, line by line.
use crate::laws;
use crate::number;
use crate::paths;
use crate::split;
use crate::ssh_hosts::config;
use crate::ssh_hosts::config::ConfigHostView;
use crate::ssh_hosts::config::Reading;
use crate::ssh_hosts::config::StanzaView;
use crate::ssh_hosts::includes;
use crate::ssh_hosts::includes::DirEntry;
use crate::ssh_hosts::includes::TargetView;
use crate::ssh_hosts::laws as host_laws;
use crate::text;
use vstd::prelude::*;

verus! {

// ---------------------------------------------------------------------------
// Keywords
// ---------------------------------------------------------------------------
/// The text of a keyword: something that starts no comment, without equals signs and without the
/// white space of ASCII, but for the vertical tab, and with no other white space ahead.
pub open spec fn keyword_text(key: Seq<char>) -> bool {
    &&& key.len() > 0
    &&& key[0] != '#'
    &&& !text::white(key[0])
    &&& laws::lacks(key, '=')
    &&& laws::lacks(key, ' ')
    &&& laws::lacks(key, '\t')
    &&& laws::lacks(key, '\n')
    &&& laws::lacks(key, '\u{c}')
    &&& laws::lacks(key, '\r')
}

/// What parts a keyword from its value: equals signs, spaces and tabs.
pub open spec fn parting(gap: Seq<char>) -> bool {
    forall|i: int| 0 <= i < gap.len() ==> (#[trigger] gap[i] == '=' || gap[i] == ' ' || gap[i] == '\t')
}

proof fn lemma_separators(gap: Seq<char>, rest: Seq<char>)
    requires
        parting(gap),
        rest.len() > 0 ==> rest[0] != '=' && rest[0] != ' ' && rest[0] != '\t',
    ensures
        config::drop_separators(gap + rest) == rest,
    decreases gap.len(),
{
    if gap.len() == 0 {
        assert(gap + rest =~= rest);
    } else {
        let fewer = gap.drop_first();
        assert forall|i: int| 0 <= i < fewer.len() implies (#[trigger] fewer[i] == '=' || fewer[i]
            == ' ' || fewer[i] == '\t') by {
            assert(fewer[i] == gap[i + 1]);
        }
        lemma_separators(fewer, rest);
        assert((gap + rest).drop_first() =~= fewer + rest);
        assert((gap + rest)[0] == gap[0]);
    }
}

/// What ends a keyword beside equals signs, spaces and tabs, and then belongs to the value: a line
/// feed, a form feed or a carriage return.
pub open spec fn breaks(c: char) -> bool {
    c == '\n' || c == '\u{c}' || c == '\r'
}

/// A line is a keyword and its value, whole and as they stand there, with equals signs, spaces and
/// tabs between them and white space around them. Without anything between them the value starts
/// with a break.
pub proof fn law_keyword_and_value(
    front: Seq<char>,
    key: Seq<char>,
    gap: Seq<char>,
    value: Seq<char>,
    back: Seq<char>,
)
    requires
        laws::all_white(front),
        laws::all_white(back),
        keyword_text(key),
        parting(gap),
        value.len() > 0,
        value[0] != '=',
        value[0] != ' ',
        value[0] != '\t',
        !text::white(value.last()),
        gap.len() > 0 || breaks(value[0]),
    ensures
        config::key_value(front + (key + gap + value) + back) == Some((key, value)),
{
    let core = key + gap + value;
    let n = key.len() as int;
    assert(core[0] == key[0]);
    assert(core.last() == value.last());
    laws::law_trim(front, core, back);
    let ends = config::ends_keyword();
    assert forall|j: int| 0 <= j < n implies !ends(#[trigger] core[j]) by {
        assert(core[j] == key[j]);
    }
    assert(core[n] == (gap + value)[0]);
    if gap.len() > 0 {
        assert(core[n] == gap[0]);
    } else {
        assert(core[n] == value[0]);
    }
    text::lemma_first_where_is(core, ends, n);
    assert(core.take(n) =~= key);
    assert(core.skip(n) =~= gap + value);
    lemma_separators(gap, value);
}

/// A keyword alone has an empty value.
pub proof fn law_keyword_alone(front: Seq<char>, key: Seq<char>, back: Seq<char>)
    requires
        laws::all_white(front),
        laws::all_white(back),
        keyword_text(key),
        !text::white(key.last()),
    ensures
        config::key_value(front + key + back) == Some((key, Seq::<char>::empty())),
{
    let n = key.len() as int;
    assert(key.last() == key[n - 1]);
    laws::law_trim(front, key, back);
    let ends = config::ends_keyword();
    assert forall|j: int| 0 <= j < n implies !ends(#[trigger] key[j]) by {}
    text::lemma_first_where_is(key, ends, n);
    assert(key.take(n) =~= key);
    assert(key.skip(n) =~= seq![]);
}

/// Blank lines and comments have no keyword, and every other line has one.
pub proof fn law_lines_without_keyword(line: Seq<char>)
    ensures
        config::key_value(line) is None <==> laws::all_white(line) || text::trim(line)[0] == '#',
{
    laws::law_trim_blank(line);
}

// ---------------------------------------------------------------------------
// Stanzas
// ---------------------------------------------------------------------------
/// The line sets the keyword to the value.
pub open spec fn sets(line: Seq<char>, name: Seq<char>, value: Seq<char>) -> bool {
    config::key_value(line) matches Some((key, given)) && text::caseless(key, name) && given
        == value
}

/// The line does not have the keyword.
pub open spec fn leaves(line: Seq<char>, name: Seq<char>) -> bool {
    config::key_value(line) matches Some((key, given)) ==> !text::caseless(key, name)
}

/// None of the lines from place `i` on has the keyword.
pub open spec fn leaves_from(lines: Seq<Seq<char>>, i: int, name: Seq<char>) -> bool {
    forall|j: int| i <= j < lines.len() ==> leaves(#[trigger] lines[j], name)
}

proof fn lemma_keywords(key: Seq<char>)
    ensures
        text::caseless(key, "hostname"@) ==> key.len() == 8,
        text::caseless(key, "user"@) ==> key.len() == 4 && laws::lower(key[0]) == 'u' as int,
        text::caseless(key, "port"@) ==> key.len() == 4 && laws::lower(key[0]) == 'p' as int,
{
    reveal_strlit("hostname");
    reveal_strlit("user");
    reveal_strlit("port");
    if text::caseless(key, "user"@) {
        assert(text::same_letter(key[0], "user"@[0]));
    }
    if text::caseless(key, "port"@) {
        assert(text::same_letter(key[0], "port"@[0]));
    }
}

/// The stanza has the settings that the lines give it: of each keyword the last line counts,
/// whatever other lines stand before or behind it, and without such a line the setting is as it
/// was.
pub open spec fn settled(before: StanzaView, lines: Seq<Seq<char>>, after: StanzaView) -> bool {
    &&& after.aliases == before.aliases
    &&& leaves_from(lines, 0, "hostname"@) ==> after.hostname == before.hostname
    &&& leaves_from(lines, 0, "user"@) ==> after.user == before.user
    &&& leaves_from(lines, 0, "port"@) ==> after.port == before.port
    &&& forall|i: int, value: Seq<char>|
        0 <= i < lines.len() && #[trigger] sets(lines[i], "hostname"@, value) && leaves_from(
            lines,
            i + 1,
            "hostname"@,
        ) ==> after.hostname == config::first_word(value)
    &&& forall|i: int, value: Seq<char>|
        0 <= i < lines.len() && #[trigger] sets(lines[i], "user"@, value) && leaves_from(
            lines,
            i + 1,
            "user"@,
        ) ==> after.user == config::first_word(value)
    &&& forall|i: int, value: Seq<char>|
        0 <= i < lines.len() && #[trigger] sets(lines[i], "port"@, value) && leaves_from(
            lines,
            i + 1,
            "port"@,
        ) ==> after.port == config::port_word(value)
}

/// Inside a stanza, lines that start no other give it their settings and change nothing else.
pub proof fn law_settings_of_a_stanza(
    reading: Reading,
    stanza: StanzaView,
    lines: Seq<Seq<char>>,
) -> (after: StanzaView)
    requires
        reading.current == Some(stanza),
        !reading.in_match,
        forall|i: int| 0 <= i < lines.len() ==> host_laws::plain_line(#[trigger] lines[i]),
    ensures
        reading.run(lines) == (Reading { current: Some(after), ..reading }),
        settled(stanza, lines, after),
    decreases lines.len(),
{
    if lines.len() == 0 {
        stanza
    } else {
        let rest = lines.drop_last();
        let last = lines.len() - 1;
        assert forall|i: int| 0 <= i < rest.len() implies host_laws::plain_line(
            #[trigger] rest[i],
        ) by {
            assert(rest[i] == lines[i]);
        }
        let middle = law_settings_of_a_stanza(reading, stanza, rest);
        assert(host_laws::plain_line(lines[last]));
        let after = match config::key_value(lines[last]) {
            Some((key, value)) => config::with_setting(middle, key, value),
            None => middle,
        };
        lemma_settled(stanza, lines, middle, after);
        after
    }
}

/// What the last line adds to what the lines before it leave.
proof fn lemma_last_setting(rest: Seq<Seq<char>>, lines: Seq<Seq<char>>, name: Seq<char>)
    requires
        lines.len() > 0,
        rest == lines.drop_last(),
    ensures
        forall|i: int|
            0 <= i <= rest.len() ==> (#[trigger] leaves_from(lines, i, name) <==> leaves_from(
                rest,
                i,
                name,
            ) && leaves(lines.last(), name)),
        leaves_from(lines, lines.len() as int, name),
{
    assert forall|i: int| 0 <= i <= rest.len() implies (#[trigger] leaves_from(lines, i, name)
        <==> leaves_from(rest, i, name) && leaves(lines.last(), name)) by {
        if leaves_from(lines, i, name) {
            assert forall|j: int| i <= j < rest.len() implies leaves(#[trigger] rest[j], name) by {
                assert(rest[j] == lines[j]);
            }
            assert(leaves(lines[lines.len() - 1], name));
        }
        if leaves_from(rest, i, name) && leaves(lines.last(), name) {
            assert forall|j: int| i <= j < lines.len() implies leaves(
                #[trigger] lines[j],
                name,
            ) by {
                if j < rest.len() {
                    assert(rest[j] == lines[j]);
                }
            }
        }
    }
}

proof fn lemma_settled(
    before: StanzaView,
    lines: Seq<Seq<char>>,
    middle: StanzaView,
    after: StanzaView,
)
    requires
        lines.len() > 0,
        settled(before, lines.drop_last(), middle),
        after == (match config::key_value(lines.last()) {
            Some((key, value)) => config::with_setting(middle, key, value),
            None => middle,
        }),
    ensures
        settled(before, lines, after),
{
    let rest = lines.drop_last();
    let last = lines.len() - 1;
    if let Some((key, value)) = config::key_value(lines[last]) {
        lemma_keywords(key);
    }
    lemma_last_setting(rest, lines, "hostname"@);
    lemma_last_setting(rest, lines, "user"@);
    lemma_last_setting(rest, lines, "port"@);
    assert(leaves(lines[last], "hostname"@) ==> after.hostname == middle.hostname);
    assert(leaves(lines[last], "user"@) ==> after.user == middle.user);
    assert(leaves(lines[last], "port"@) ==> after.port == middle.port);
    assert(leaves_from(lines, 0, "hostname"@) ==> leaves_from(rest, 0, "hostname"@));
    assert(leaves_from(lines, 0, "user"@) ==> leaves_from(rest, 0, "user"@));
    assert(leaves_from(lines, 0, "port"@) ==> leaves_from(rest, 0, "port"@));
    assert forall|i: int, value: Seq<char>|
        0 <= i < lines.len() && #[trigger] sets(lines[i], "hostname"@, value) && leaves_from(
            lines,
            i + 1,
            "hostname"@,
        ) implies after.hostname == config::first_word(value) by {
        if i < last {
            assert(sets(rest[i], "hostname"@, value));
            assert(leaves_from(rest, i + 1, "hostname"@));
        }
    }
    assert forall|i: int, value: Seq<char>|
        0 <= i < lines.len() && #[trigger] sets(lines[i], "user"@, value) && leaves_from(
            lines,
            i + 1,
            "user"@,
        ) implies after.user == config::first_word(value) by {
        if i < last {
            assert(sets(rest[i], "user"@, value));
            assert(leaves_from(rest, i + 1, "user"@));
        }
    }
    assert forall|i: int, value: Seq<char>|
        0 <= i < lines.len() && #[trigger] sets(lines[i], "port"@, value) && leaves_from(
            lines,
            i + 1,
            "port"@,
        ) implies after.port == config::port_word(value) by {
        if i < last {
            assert(sets(rest[i], "port"@, value));
            assert(leaves_from(rest, i + 1, "port"@));
        }
    }
}

/// Reading goes on where it was.
pub proof fn law_reading_goes_on(reading: Reading, lines: Seq<Seq<char>>, more: Seq<Seq<char>>)
    ensures
        reading.run(lines + more) == reading.run(lines).run(more),
    decreases more.len(),
{
    if more.len() == 0 {
        assert(lines + more =~= lines);
    } else {
        law_reading_goes_on(reading, lines, more.drop_last());
        assert((lines + more).drop_last() =~= lines + more.drop_last());
    }
}

/// A `Host` line ends the stanza before it and starts one with its words for aliases, which has the
/// settings of the lines behind it, up to the next line that starts something. Without words there
/// is no stanza.
pub proof fn law_stanza(
    reading: Reading,
    line: Seq<char>,
    value: Seq<char>,
    body: Seq<Seq<char>>,
) -> (stanza: StanzaView)
    requires
        sets(line, "host"@, value),
        forall|i: int| 0 <= i < body.len() ==> host_laws::plain_line(#[trigger] body[i]),
    ensures
        settled(
            StanzaView { aliases: split::words(value), hostname: None, user: None, port: None },
            body,
            stanza,
        ),
        stanza.aliases == split::words(value),
        reading.run(seq![line] + body).flushed() == (if split::words(value).len() > 0 {
            reading.flushed().push(stanza)
        } else {
            reading.flushed()
        }),
{
    let fresh = StanzaView { aliases: split::words(value), hostname: None, user: None, port: None };
    law_reading_goes_on(reading, seq![line], body);
    lemma_one_line(reading, line);
    let there = reading.step(line);
    law_settings_of_a_stanza(there, fresh, body)
}

proof fn lemma_one_line(reading: Reading, line: Seq<char>)
    ensures
        reading.run(seq![line]) == reading.step(line),
{
    assert(seq![line].drop_last() =~= seq![]);
    reveal_with_fuel(Reading::run, 2);
}

/// A `Match` line ends the stanza before it, and nothing behind it counts, up to the next line that
/// starts something.
pub proof fn law_match_block(
    reading: Reading,
    line: Seq<char>,
    value: Seq<char>,
    body: Seq<Seq<char>>,
)
    requires
        sets(line, "match"@, value),
        forall|i: int| 0 <= i < body.len() ==> host_laws::plain_line(#[trigger] body[i]),
    ensures
        reading.run(seq![line] + body).flushed() == reading.flushed(),
        reading.run(seq![line] + body).in_match,
{
    reveal_strlit("host");
    reveal_strlit("match");
    law_reading_goes_on(reading, seq![line], body);
    lemma_one_line(reading, line);
    host_laws::law_match_block_is_skipped(reading.step(line), body);
}

/// Settings ahead of the first stanza do not count.
pub proof fn law_settings_of_no_stanza(reading: Reading, lines: Seq<Seq<char>>)
    requires
        reading.current is None,
        forall|i: int| 0 <= i < lines.len() ==> host_laws::plain_line(#[trigger] lines[i]),
    ensures
        reading.run(lines) == reading,
    decreases lines.len(),
{
    if lines.len() > 0 {
        let rest = lines.drop_last();
        assert forall|i: int| 0 <= i < rest.len() implies host_laws::plain_line(
            #[trigger] rest[i],
        ) by {
            assert(rest[i] == lines[i]);
        }
        law_settings_of_no_stanza(reading, rest);
        assert(host_laws::plain_line(lines[lines.len() - 1]));
    }
}

/// A file is read from its first line on, outside any stanza and block, and its last stanza ends
/// with it. The files of a configuration are read one behind the other.
pub proof fn law_file_is_read_whole(texts: Seq<Seq<char>>, text: Seq<char>)
    ensures
        config::with_file(seq![], text) == (Reading {
            done: seq![],
            current: None,
            in_match: false,
        }).run(split::lines(text)).flushed(),
        config::stanzas_of(seq![]) == Seq::<StanzaView>::empty(),
        config::stanzas_of(texts.push(text)) == config::stanzas_of(texts) + config::with_file(
            seq![],
            text,
        ),
{
    assert(texts.push(text).drop_last() =~= texts);
    host_laws::law_files_add_up(config::stanzas_of(texts), text);
}

/// A setting is the first word of its value, and a port the number that this word is.
pub proof fn law_setting_words(gap: Seq<char>, word: Seq<char>, rest: Seq<char>)
    requires
        laws::all_white(gap),
        word.len() > 0,
        forall|i: int| 0 <= i < word.len() ==> !text::white(#[trigger] word[i]),
        rest.len() > 0 ==> text::white(rest[0]),
    ensures
        config::first_word(gap + word + rest) == Some(word),
        config::port_word(gap + word + rest) == number::u16_of(word),
        config::first_word(gap) is None,
        config::port_word(gap) is None,
{
    laws::law_words_gap(gap, word + rest);
    laws::law_first_word(word, rest);
    laws::law_no_words(gap);
    assert(gap + word + rest =~= gap + (word + rest));
}

// ---------------------------------------------------------------------------
// Hosts
// ---------------------------------------------------------------------------
/// An alias names one host exactly when it is not empty and has no star, question mark or
/// exclamation mark.
pub proof fn law_concrete(alias: Seq<char>)
    ensures
        config::concrete(alias) <==> alias.len() > 0 && laws::lacks(alias, '*') && laws::lacks(
            alias,
            '?',
        ) && laws::lacks(alias, '!'),
{
}

/// A host has what its stanza sets, and else its alias, the user of this machine and the port of
/// `ssh`.
pub proof fn law_host_of_a_stanza(stanza: StanzaView, alias: Seq<char>, os_user: Seq<char>)
    ensures
        ({
            let host = config::host_of(stanza, alias, os_user);
            &&& host.alias == alias
            &&& stanza.hostname matches Some(name) ==> host.hostname == name
            &&& stanza.hostname is None ==> host.hostname == alias
            &&& stanza.user matches Some(user) ==> host.user == Some(
                if user.len() > 0 {
                    user
                } else {
                    os_user
                },
            )
            &&& stanza.user is None ==> host.user == Some(os_user)
            &&& stanza.port matches Some(port) ==> host.port == Some(port)
            &&& stanza.port is None ==> host.port == Some(22u16)
        }),
{
}

proof fn lemma_only_settings_count(
    hosts: Seq<ConfigHostView>,
    stanza: StanzaView,
    other: StanzaView,
    aliases: Seq<Seq<char>>,
    os_user: Seq<char>,
)
    requires
        other.hostname == stanza.hostname,
        other.user == stanza.user,
        other.port == stanza.port,
    ensures
        config::with_aliases(hosts, stanza, aliases, os_user) == config::with_aliases(
            hosts,
            other,
            aliases,
            os_user,
        ),
    decreases aliases.len(),
{
    if aliases.len() > 0 {
        lemma_only_settings_count(hosts, stanza, other, aliases.drop_last(), os_user);
        assert(config::host_of(stanza, aliases.last(), os_user) == config::host_of(
            other,
            aliases.last(),
            os_user,
        ));
    }
}

/// One more alias at the end of the last stanza adds its host behind all others, where it names one
/// host that is not listed yet, and changes nothing else. A stanza without aliases adds no host.
pub proof fn law_one_more_alias(
    stanzas: Seq<StanzaView>,
    stanza: StanzaView,
    alias: Seq<char>,
    os_user: Seq<char>,
)
    ensures
        ({
            let more = StanzaView { aliases: stanza.aliases.push(alias), ..stanza };
            let hosts = config::hosts_of(stanzas.push(stanza), os_user);
            &&& stanza.aliases.len() == 0 ==> hosts == config::hosts_of(stanzas, os_user)
            &&& config::hosts_of(stanzas.push(more), os_user) == (if config::concrete(alias)
                && forall|i: int| 0 <= i < hosts.len() ==> (#[trigger] hosts[i]).alias != alias {
                hosts.push(config::host_of(stanza, alias, os_user))
            } else {
                hosts
            })
        }),
{
    let more = StanzaView { aliases: stanza.aliases.push(alias), ..stanza };
    assert(stanzas.push(stanza).drop_last() =~= stanzas);
    assert(stanzas.push(more).drop_last() =~= stanzas);
    assert(more.aliases.drop_last() =~= stanza.aliases);
    lemma_only_settings_count(
        config::hosts_of(stanzas, os_user),
        stanza,
        more,
        stanza.aliases,
        os_user,
    );
    assert(config::host_of(more, alias, os_user) == config::host_of(stanza, alias, os_user));
}

/// Without stanzas there are no hosts.
pub proof fn law_no_stanzas(os_user: Seq<char>)
    ensures
        config::hosts_of(seq![], os_user) == Seq::<ConfigHostView>::empty(),
{
}

/// The user of this machine is what the first variable that is set names, as it stands, unless that
/// is blank or looks like an option.
pub proof fn law_os_user(
    user: Option<Seq<char>>,
    logname: Option<Seq<char>>,
    username: Option<Seq<char>>,
    name: Seq<char>,
)
    requires
        ({
            ||| user == Some(name)
            ||| user is None && logname == Some(name)
            ||| user is None && logname is None && username == Some(name)
        }),
    ensures
        config::os_user_of(user, logname, username) == (if laws::all_white(name) || text::trim(
            name,
        )[0] == '-' {
            "root"@
        } else {
            name
        }),
        config::os_user_of(None, None, None) == "root"@,
{
    laws::law_trim_blank(name);
}

// ---------------------------------------------------------------------------
// Files that are named
// ---------------------------------------------------------------------------
/// The words behind the keyword that names files are the patterns, in their order, and no other line
/// has patterns.
pub proof fn law_patterns(lines: Seq<Seq<char>>, line: Seq<char>)
    ensures
        includes::patterns(seq![]) == Seq::<Seq<char>>::empty(),
        forall|value: Seq<char>| #[trigger]
            sets(line, "include"@, value) ==> includes::patterns(lines.push(line))
                == includes::patterns(lines) + split::words(value),
        leaves(line, "include"@) ==> includes::patterns(lines.push(line)) == includes::patterns(
            lines,
        ),
{
    assert(lines.push(line).drop_last() =~= lines);
    let before = includes::patterns(lines);
    assert(before + seq![] =~= before);
}

/// A pattern that starts with a tilde and a slash is put below the home directory, and any other
/// below the directory of `ssh`.
pub proof fn law_pattern_places(
    rest: Seq<char>,
    pattern: Seq<char>,
    home: Seq<char>,
    ssh_dir: Seq<char>,
    place: Seq<char>,
)
    ensures
        includes::placed(seq!['~', '/'] + rest, home, ssh_dir, place) <==> paths::joins(
            home,
            rest,
            place,
        ),
        !(pattern.len() >= 2 && pattern[0] == '~' && pattern[1] == '/') ==> (includes::placed(
            pattern,
            home,
            ssh_dir,
            place,
        ) <==> paths::joins(ssh_dir, pattern, place)),
{
    reveal_strlit("~/");
    let whole = seq!['~', '/'] + rest;
    assert("~/"@ =~= seq!['~', '/']);
    laws::law_starts(whole, "~/"@);
    assert(whole.skip(2) =~= rest);
    if split::starts(pattern, "~/"@) {
        let start = pattern.take(2);
        assert(start[0] == '~' && start[1] == '/');
    }
}

proof fn lemma_slashes(slashes: Seq<char>, rest: Seq<char>)
    requires
        forall|i: int| 0 <= i < slashes.len() ==> #[trigger] slashes[i] == '/',
        rest.len() > 0 ==> rest[0] != '/',
    ensures
        includes::drop_slashes(slashes + rest) == rest,
    decreases slashes.len(),
{
    if slashes.len() == 0 {
        assert(slashes + rest =~= rest);
    } else {
        let fewer = slashes.drop_first();
        assert forall|i: int| 0 <= i < fewer.len() implies #[trigger] fewer[i] == '/' by {
            assert(fewer[i] == slashes[i + 1]);
        }
        lemma_slashes(fewer, rest);
        assert((slashes + rest).drop_first() =~= fewer + rest);
        assert((slashes + rest)[0] == slashes[0]);
    }
}

/// A place with a star stands for the files in the directory ahead of the last star whose names
/// start with what follows it, but for slashes, and a place without one for the file there.
pub proof fn law_targets(dir: Seq<char>, slashes: Seq<char>, prefix: Seq<char>)
    requires
        laws::lacks(prefix, '*'),
        forall|i: int| 0 <= i < slashes.len() ==> #[trigger] slashes[i] == '/',
        prefix.len() > 0 ==> prefix[0] != '/',
    ensures
        includes::target_of(dir + seq!['*'] + (slashes + prefix)) == (TargetView::Files {
            dir: dir,
            prefix: prefix,
        }),
        includes::target_of(slashes + prefix) == TargetView::File(slashes + prefix),
{
    let tail = slashes + prefix;
    assert forall|i: int| 0 <= i < tail.len() implies #[trigger] tail[i] != '*' by {
        if i < slashes.len() {
            assert(tail[i] == slashes[i]);
        } else {
            assert(tail[i] == prefix[i - slashes.len()]);
        }
    }
    laws::law_last_halves(dir, '*', tail);
    lemma_slashes(slashes, prefix);
}

/// A place stands for one file exactly when it has no star.
pub proof fn lemma_starred(place: Seq<char>)
    ensures
        includes::target_of(place) is File <==> !place.contains('*'),
        includes::target_of(place) is File ==> includes::target_of(place) == TargetView::File(place),
{
    if place.contains('*') {
        let (dir, rest) = lemma_last_star(place);
        laws::law_last_halves(dir, '*', rest);
    } else {
        assert forall|i: int| 0 <= i < place.len() implies #[trigger] place[i] != '*' by {
            assert(place.contains(place[i]));
        }
        laws::law_last_halves(place, '*', place);
    }
}

proof fn lemma_last_star(place: Seq<char>) -> (r: (Seq<char>, Seq<char>))
    requires
        place.contains('*'),
    ensures
        place == r.0 + seq!['*'] + r.1,
        laws::lacks(r.1, '*'),
    decreases place.len(),
{
    let last = place.len() - 1;
    let rest = place.drop_last();
    if place[last] == '*' {
        let none = Seq::<char>::empty();
        assert(place =~= rest + seq!['*'] + none);
        (rest, none)
    } else {
        let i = choose|i: int| 0 <= i < place.len() && place[i] == '*';
        assert(rest[i] == '*');
        let (a, b) = lemma_last_star(rest);
        let tail = b.push(place[last]);
        assert(place =~= rest.push(place[last]));
        assert((a + seq!['*'] + b).push(place[last]) =~= a + seq!['*'] + tail);
        (a, tail)
    }
}

/// The entries that are taken are the files whose names are text and start with the prefix, in their
/// order.
pub proof fn law_picked_entries(entries: Seq<DirEntry>, prefix: Seq<char>)
    ensures
        includes::picked(entries, prefix) == entries.filter(
            |e: DirEntry| e.is_file && e.name is Some && split::starts(e.name->0@, prefix),
        ).map_values(|e: DirEntry| e.name->0@),
    decreases entries.len(),
{
    reveal(Seq::filter);
    if entries.len() > 0 {
        law_picked_entries(entries.drop_last(), prefix);
    }
    assert(includes::picked(entries, prefix) =~= entries.filter(
        |e: DirEntry| e.is_file && e.name is Some && split::starts(e.name->0@, prefix),
    ).map_values(|e: DirEntry| e.name->0@));
}

/// The texts that could be read are kept in their order, and no others are.
pub proof fn law_readable_texts(texts: Seq<Option<String>>)
    ensures
        includes::readable(texts) == texts.filter(|t: Option<String>| t is Some).map_values(
            |t: Option<String>| t->0@,
        ),
    decreases texts.len(),
{
    reveal(Seq::filter);
    if texts.len() > 0 {
        law_readable_texts(texts.drop_last());
    }
    assert(includes::readable(texts) =~= texts.filter(
        |t: Option<String>| t is Some,
    ).map_values(|t: Option<String>| t->0@));
}

} // verus!
