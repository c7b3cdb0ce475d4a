//! The hosts of `ssh` configuration files.
use crate::engine::command;
use crate::number;
use crate::split;
use crate::text;
use vstd::prelude::*;

verus! {

// ---------------------------------------------------------------------------
// Lines
// ---------------------------------------------------------------------------
/// What ends a keyword: an equals sign, or ASCII white space.
pub open spec fn ends_keyword() -> spec_fn(char) -> bool {
    |c: char| c == '=' || c == ' ' || c == '\t' || c == '\n' || c == '\u{c}' || c == '\r'
}

/// `s` without the equals signs, spaces and tabs that it starts with.
pub open spec fn drop_separators(s: Seq<char>) -> Seq<char>
    decreases s.len(),
{
    if s.len() > 0 && (s[0] == '=' || s[0] == ' ' || s[0] == '\t') {
        drop_separators(s.drop_first())
    } else {
        s
    }
}

/// The keyword and the value of a line. Blank lines and comments have none.
pub open spec fn key_value(line: Seq<char>) -> Option<(Seq<char>, Seq<char>)> {
    let rest = text::trim(line);
    if rest.len() == 0 || rest[0] == '#' {
        None
    } else {
        let n = text::first_where(rest, ends_keyword());
        Some((rest.take(n), drop_separators(rest.skip(n))))
    }
}

proof fn lemma_drop_separators(s: Seq<char>, i: int)
    requires
        0 <= i <= s.len(),
        forall|j: int|
            0 <= j < i ==> (#[trigger] s[j] == '=' || s[j] == ' ' || s[j] == '\t'),
        i < s.len() ==> s[i] != '=' && s[i] != ' ' && s[i] != '\t',
    ensures
        drop_separators(s) == s.skip(i),
    decreases i,
{
    if i == 0 {
        assert(s.skip(0) =~= s);
    } else {
        let rest = s.drop_first();
        assert forall|j: int| 0 <= j < i - 1 implies (#[trigger] rest[j] == '=' || rest[j] == ' '
            || rest[j] == '\t') by {
            assert(rest[j] == s[j + 1]);
        }
        assert(s[0] == '=' || s[0] == ' ' || s[0] == '\t');
        lemma_drop_separators(rest, i - 1);
        assert(rest.skip(i - 1) =~= s.skip(i));
    }
}

/// The keyword and the value of `line`: they are parted by the first equals sign or white space,
/// and what follows of these is part of neither.
pub fn keyword(line: &str) -> (r: Option<(&str, &str)>)
    ensures
        match r {
            Some((key, value)) => key_value(line@) == Some((key@, value@)),
            None => key_value(line@) is None,
        },
{
    let rest: &str = text::trimmed(line);
    let chars: Vec<char> = text::chars_of(rest);
    let len: usize = chars.len();
    if len == 0 || chars[0] == '#' {
        return None;
    }
    let mut n: usize = 0;
    while n < len && !(chars[n] == '=' || chars[n] == ' ' || chars[n] == '\t' || chars[n] == '\n'
        || chars[n] == '\u{c}' || chars[n] == '\r')
        invariant
            n <= len == chars@.len(),
            forall|j: int| 0 <= j < n ==> !ends_keyword()(#[trigger] chars@[j]),
        decreases len - n,
    {
        n = n + 1;
    }
    let mut k: usize = n;
    while k < len && (chars[k] == '=' || chars[k] == ' ' || chars[k] == '\t')
        invariant
            n <= k <= len == chars@.len(),
            forall|j: int|
                n <= j < k ==> (#[trigger] chars@[j] == '=' || chars@[j] == ' ' || chars@[j]
                    == '\t'),
        decreases len - k,
    {
        k = k + 1;
    }
    proof {
        let tail = chars@.skip(n as int);
        text::lemma_first_where_is(chars@, ends_keyword(), n as int);
        assert forall|j: int| 0 <= j < k - n implies (#[trigger] tail[j] == '=' || tail[j] == ' '
            || tail[j] == '\t') by {
            assert(tail[j] == chars@[j + n]);
        }
        lemma_drop_separators(tail, k - n);
        assert(tail.skip(k - n) =~= chars@.subrange(k as int, len as int));
        assert(chars@.subrange(0, n as int) =~= chars@.take(n as int));
    }
    Some((rest.substring_char(0, n), rest.substring_char(k, len)))
}

// ---------------------------------------------------------------------------
// Stanzas
// ---------------------------------------------------------------------------
/// A `Host` stanza.
#[derive(Debug)]
pub struct Stanza {
    pub aliases: Vec<String>,
    pub hostname: Option<String>,
    pub user: Option<String>,
    pub port: Option<u16>,
}

/// What a [`Stanza`] says.
#[verifier::ext_equal]
pub struct StanzaView {
    pub aliases: Seq<Seq<char>>,
    pub hostname: Option<Seq<char>>,
    pub user: Option<Seq<char>>,
    pub port: Option<u16>,
}

impl View for Stanza {
    type V = StanzaView;

    open spec fn view(&self) -> StanzaView {
        StanzaView {
            aliases: split::views(self.aliases@),
            hostname: command::maybe(self.hostname),
            user: command::maybe(self.user),
            port: self.port,
        }
    }
}

/// What each stanza of a list says.
pub open spec fn stanza_views(stanzas: Seq<Stanza>) -> Seq<StanzaView> {
    stanzas.map_values(|s: Stanza| s@)
}

/// The first word of a value.
pub open spec fn first_word(value: Seq<char>) -> Option<Seq<char>> {
    let list = split::words(value);
    if list.len() > 0 {
        Some(list[0])
    } else {
        None
    }
}

/// The port that a value gives, where its first word is one.
pub open spec fn port_word(value: Seq<char>) -> Option<u16> {
    match first_word(value) {
        Some(word) => number::u16_of(word),
        None => None,
    }
}

/// The stanza with one more setting. Only host name, user and port are of interest.
pub open spec fn with_setting(
    stanza: StanzaView,
    key: Seq<char>,
    value: Seq<char>,
) -> StanzaView {
    if text::caseless(key, "hostname"@) {
        StanzaView { hostname: first_word(value), ..stanza }
    } else if text::caseless(key, "user"@) {
        StanzaView { user: first_word(value), ..stanza }
    } else if text::caseless(key, "port"@) {
        StanzaView { port: port_word(value), ..stanza }
    } else {
        stanza
    }
}

/// Where the reading of a file is: the stanzas that are complete, the stanza it is in, and whether
/// it is in a `Match` block, whose settings do not count.
#[verifier::ext_equal]
pub struct Reading {
    pub done: Seq<StanzaView>,
    pub current: Option<StanzaView>,
    pub in_match: bool,
}

impl Reading {
    /// The stanzas when the one it is in ends here. A stanza without aliases is none.
    pub open spec fn flushed(self) -> Seq<StanzaView> {
        match self.current {
            Some(stanza) => if stanza.aliases.len() > 0 {
                self.done.push(stanza)
            } else {
                self.done
            },
            None => self.done,
        }
    }

    /// One line further.
    pub open spec fn step(self, line: Seq<char>) -> Reading {
        match key_value(line) {
            Some((key, value)) => if text::caseless(key, "host"@) {
                Reading {
                    done: self.flushed(),
                    current: Some(
                        StanzaView {
                            aliases: split::words(value),
                            hostname: None,
                            user: None,
                            port: None,
                        },
                    ),
                    in_match: false,
                }
            } else if text::caseless(key, "match"@) {
                Reading { done: self.flushed(), current: None, in_match: true }
            } else if self.in_match {
                self
            } else {
                match self.current {
                    Some(stanza) => Reading {
                        current: Some(with_setting(stanza, key, value)),
                        ..self
                    },
                    None => self,
                }
            },
            None => self,
        }
    }

    /// Past all the lines.
    pub open spec fn run(self, lines: Seq<Seq<char>>) -> Reading
        decreases lines.len(),
    {
        if lines.len() == 0 {
            self
        } else {
            self.run(lines.drop_last()).step(lines.last())
        }
    }
}

/// The stanzas with those of one more file.
pub open spec fn with_file(stanzas: Seq<StanzaView>, text: Seq<char>) -> Seq<StanzaView> {
    Reading { done: stanzas, current: None, in_match: false }.run(split::lines(text)).flushed()
}

/// The first word of `value`.
fn read_word(value: &str) -> (r: Option<String>)
    ensures
        command::maybe(r) == first_word(value@),
{
    let list: Vec<String> = split::words_of(value);
    if list.len() > 0 {
        proof {
            assert(split::views(list@)[0] == list@[0]@);
        }
        Some(list[0].clone())
    } else {
        proof {
            assert(split::views(list@).len() == list@.len());
        }
        None
    }
}

/// Adds a setting to a stanza.
fn apply_setting(stanza: Stanza, key: &str, value: &str) -> (r: Stanza)
    ensures
        r@ == with_setting(stanza@, key@, value@),
{
    if text::same_caseless(key, "hostname") {
        Stanza {
            aliases: stanza.aliases,
            hostname: read_word(value),
            user: stanza.user,
            port: stanza.port,
        }
    } else if text::same_caseless(key, "user") {
        Stanza {
            aliases: stanza.aliases,
            hostname: stanza.hostname,
            user: read_word(value),
            port: stanza.port,
        }
    } else if text::same_caseless(key, "port") {
        let port: Option<u16> = match read_word(value) {
            Some(word) => number::parse_u16(word.as_str()),
            None => None,
        };
        Stanza { aliases: stanza.aliases, hostname: stanza.hostname, user: stanza.user, port }
    } else {
        stanza
    }
}

/// What a stanza that may be missing says.
pub open spec fn maybe_stanza(stanza: Option<Stanza>) -> Option<StanzaView> {
    match stanza {
        Some(s) => Some(s@),
        None => None,
    }
}

/// Adds the stanza that ends here.
fn flush(current: Option<Stanza>, out: &mut Vec<Stanza>, Ghost(in_match): Ghost<bool>)
    ensures
        stanza_views(final(out)@) == (Reading {
            done: stanza_views(old(out)@),
            current: maybe_stanza(current),
            in_match,
        }).flushed(),
{
    let ghost before = out@;
    if let Some(stanza) = current {
        if stanza.aliases.len() > 0 {
            out.push(stanza);
            proof {
                assert(stanza_views(out@) =~= stanza_views(before).push(stanza@));
            }
        }
    }
}

/// Adds the stanzas of a configuration file with the text `text` to `out`.
pub fn parse_stanzas(text: &str, out: &mut Vec<Stanza>)
    ensures
        stanza_views(final(out)@) == with_file(stanza_views(old(out)@), text@),
{
    let list: Vec<String> = split::lines_of(text);
    let ghost all = split::views(list@);
    let ghost start = Reading { done: stanza_views(out@), current: None, in_match: false };
    let mut current: Option<Stanza> = None;
    let mut in_match: bool = false;
    let mut i: usize = 0;
    while i < list.len()
        invariant
            i <= list@.len(),
            all == split::views(list@),
            start.run(all.take(i as int)) == (Reading {
                done: stanza_views(out@),
                current: maybe_stanza(current),
                in_match,
            }),
        decreases list.len() - i,
    {
        proof {
            let next = all.take(i + 1);
            assert(next.drop_last() =~= all.take(i as int));
            assert(next.last() == list@[i as int]@);
        }
        if let Some((key, value)) = keyword(list[i].as_str()) {
            if text::same_caseless(key, "host") {
                flush(current, out, Ghost(in_match));
                in_match = false;
                current = Some(
                    Stanza {
                        aliases: split::words_of(value),
                        hostname: None,
                        user: None,
                        port: None,
                    },
                );
            } else if text::same_caseless(key, "match") {
                flush(current, out, Ghost(in_match));
                current = None;
                in_match = true;
            } else if !in_match {
                current = match current {
                    Some(stanza) => Some(apply_setting(stanza, key, value)),
                    None => None,
                };
            }
        }
        i = i + 1;
    }
    proof {
        assert(all.take(i as int) =~= all);
    }
    flush(current, out, Ghost(in_match));
}

// ---------------------------------------------------------------------------
// Hosts
// ---------------------------------------------------------------------------
/// A host by its alias: what one types, the address, the user and the port.
#[derive(Debug, Clone)]
pub struct SshConfigHost {
    pub alias: String,
    pub hostname: String,
    pub user: Option<String>,
    pub port: Option<u16>,
}

/// What an [`SshConfigHost`] says.
#[verifier::ext_equal]
pub struct ConfigHostView {
    pub alias: Seq<char>,
    pub hostname: Seq<char>,
    pub user: Option<Seq<char>>,
    pub port: Option<u16>,
}

impl View for SshConfigHost {
    type V = ConfigHostView;

    open spec fn view(&self) -> ConfigHostView {
        ConfigHostView {
            alias: self.alias@,
            hostname: self.hostname@,
            user: command::maybe(self.user),
            port: self.port,
        }
    }
}

/// What each host of a list says.
pub open spec fn host_views(hosts: Seq<SshConfigHost>) -> Seq<ConfigHostView> {
    hosts.map_values(|h: SshConfigHost| h@)
}

/// An alias that names one host: no pattern and no negation.
pub open spec fn concrete(alias: Seq<char>) -> bool {
    &&& alias.len() > 0
    &&& forall|i: int|
        0 <= i < alias.len() ==> (#[trigger] alias[i] != '*' && alias[i] != '?' && alias[i] != '!')
}

/// Tells whether `alias` names one host.
pub fn is_concrete(alias: &str) -> (r: bool)
    ensures
        r == concrete(alias@),
{
    let chars: Vec<char> = text::chars_of(alias);
    let mut i: usize = 0;
    while i < chars.len()
        invariant
            i <= chars@.len(),
            chars@ == alias@,
            forall|j: int|
                0 <= j < i ==> (#[trigger] chars@[j] != '*' && chars@[j] != '?' && chars@[j]
                    != '!'),
        decreases chars.len() - i,
    {
        if chars[i] == '*' || chars[i] == '?' || chars[i] == '!' {
            return false;
        }
        i = i + 1;
    }
    chars.len() > 0
}

/// The host that an alias of a stanza names. What the stanza does not set is the alias itself, the
/// given user, and port 22.
pub open spec fn host_of(
    stanza: StanzaView,
    alias: Seq<char>,
    os_user: Seq<char>,
) -> ConfigHostView {
    ConfigHostView {
        alias: alias,
        hostname: match stanza.hostname {
            Some(name) => name,
            None => alias,
        },
        user: Some(
            match stanza.user {
                Some(user) => if user.len() > 0 {
                    user
                } else {
                    os_user
                },
                None => os_user,
            },
        ),
        port: Some(
            match stanza.port {
                Some(port) => port,
                None => 22,
            },
        ),
    }
}

/// One of the hosts has the alias.
pub open spec fn listed(hosts: Seq<ConfigHostView>, alias: Seq<char>) -> bool {
    exists|i: int| 0 <= i < hosts.len() && (#[trigger] hosts[i]).alias == alias
}

/// The hosts with that of one more alias, where it names one host and was not there before.
pub open spec fn with_alias(
    hosts: Seq<ConfigHostView>,
    stanza: StanzaView,
    alias: Seq<char>,
    os_user: Seq<char>,
) -> Seq<ConfigHostView> {
    if concrete(alias) && !listed(hosts, alias) {
        hosts.push(host_of(stanza, alias, os_user))
    } else {
        hosts
    }
}

/// The hosts with those of some aliases of a stanza.
pub open spec fn with_aliases(
    hosts: Seq<ConfigHostView>,
    stanza: StanzaView,
    aliases: Seq<Seq<char>>,
    os_user: Seq<char>,
) -> Seq<ConfigHostView>
    decreases aliases.len(),
{
    if aliases.len() == 0 {
        hosts
    } else {
        with_alias(
            with_aliases(hosts, stanza, aliases.drop_last(), os_user),
            stanza,
            aliases.last(),
            os_user,
        )
    }
}

/// The hosts of some stanzas.
pub open spec fn hosts_of(stanzas: Seq<StanzaView>, os_user: Seq<char>) -> Seq<ConfigHostView>
    decreases stanzas.len(),
{
    if stanzas.len() == 0 {
        seq![]
    } else {
        with_aliases(
            hosts_of(stanzas.drop_last(), os_user),
            stanzas.last(),
            stanzas.last().aliases,
            os_user,
        )
    }
}

/// The stanzas of some files, one after the other.
pub open spec fn stanzas_of(texts: Seq<Seq<char>>) -> Seq<StanzaView>
    decreases texts.len(),
{
    if texts.len() == 0 {
        seq![]
    } else {
        with_file(stanzas_of(texts.drop_last()), texts.last())
    }
}

/// Tells whether one of the hosts has the alias.
fn is_listed(hosts: &Vec<SshConfigHost>, alias: &str) -> (r: bool)
    ensures
        r == listed(host_views(hosts@), alias@),
{
    let ghost all = host_views(hosts@);
    let mut i: usize = 0;
    while i < hosts.len()
        invariant
            i <= hosts@.len(),
            all == host_views(hosts@),
            forall|j: int| 0 <= j < i ==> (#[trigger] all[j]).alias != alias@,
        decreases hosts.len() - i,
    {
        if text::same(hosts[i].alias.as_str(), alias) {
            proof {
                assert(all[i as int].alias == alias@);
            }
            return true;
        }
        i = i + 1;
    }
    false
}

/// The host that `alias` names in `stanza`.
fn make_host(stanza: &Stanza, alias: &str, os_user: &str) -> (r: SshConfigHost)
    ensures
        r@ == host_of(stanza@, alias@, os_user@),
{
    let hostname: String = match &stanza.hostname {
        Some(name) => name.clone(),
        None => alias.to_owned(),
    };
    let user: String = match &stanza.user {
        Some(user) => if user.as_str().is_empty() {
            os_user.to_owned()
        } else {
            user.clone()
        },
        None => os_user.to_owned(),
    };
    let port: u16 = match stanza.port {
        Some(port) => port,
        None => 22,
    };
    SshConfigHost { alias: alias.to_owned(), hostname, user: Some(user), port: Some(port) }
}

/// Adds the hosts of a stanza.
fn push_stanza(out: &mut Vec<SshConfigHost>, stanza: &Stanza, os_user: &str)
    ensures
        host_views(final(out)@) == with_aliases(
            host_views(old(out)@),
            stanza@,
            stanza@.aliases,
            os_user@,
        ),
{
    let ghost start = host_views(out@);
    let ghost aliases = stanza@.aliases;
    let mut i: usize = 0;
    while i < stanza.aliases.len()
        invariant
            i <= stanza.aliases@.len(),
            aliases == split::views(stanza.aliases@),
            host_views(out@) == with_aliases(start, stanza@, aliases.take(i as int), os_user@),
        decreases stanza.aliases.len() - i,
    {
        let alias: &String = &stanza.aliases[i];
        let ghost before = out@;
        proof {
            let next = aliases.take(i + 1);
            assert(next.drop_last() =~= aliases.take(i as int));
            assert(next.last() == alias@);
        }
        if is_concrete(alias.as_str()) && !is_listed(out, alias.as_str()) {
            let host: SshConfigHost = make_host(stanza, alias.as_str(), os_user);
            out.push(host);
            proof {
                assert(host_views(out@) =~= host_views(before).push(host@));
            }
        }
        i = i + 1;
    }
    proof {
        assert(aliases.take(i as int) =~= aliases);
    }
}

/// The hosts of configuration files with the texts `texts`: one for each alias that names one
/// host, by the first stanza that has it. `os_user` is the user of hosts without one.
pub fn ssh_config_hosts(texts: &Vec<String>, os_user: &str) -> (r: Vec<SshConfigHost>)
    ensures
        host_views(r@) == hosts_of(stanzas_of(split::views(texts@)), os_user@),
{
    let mut stanzas: Vec<Stanza> = Vec::new();
    let ghost all = split::views(texts@);
    let mut i: usize = 0;
    proof {
        assert(stanza_views(stanzas@) =~= seq![]);
    }
    while i < texts.len()
        invariant
            i <= texts@.len(),
            all == split::views(texts@),
            stanza_views(stanzas@) == stanzas_of(all.take(i as int)),
        decreases texts.len() - i,
    {
        parse_stanzas(texts[i].as_str(), &mut stanzas);
        proof {
            let next = all.take(i + 1);
            assert(next.drop_last() =~= all.take(i as int));
            assert(next.last() == texts@[i as int]@);
        }
        i = i + 1;
    }
    proof {
        assert(all.take(i as int) =~= all);
    }
    let ghost views = stanza_views(stanzas@);
    let mut out: Vec<SshConfigHost> = Vec::new();
    let mut k: usize = 0;
    proof {
        assert(host_views(out@) =~= seq![]);
    }
    while k < stanzas.len()
        invariant
            k <= stanzas@.len(),
            views == stanza_views(stanzas@),
            host_views(out@) == hosts_of(views.take(k as int), os_user@),
        decreases stanzas.len() - k,
    {
        push_stanza(&mut out, &stanzas[k], os_user);
        proof {
            let next = views.take(k + 1);
            assert(next.drop_last() =~= views.take(k as int));
            assert(next.last() == stanzas@[k as int]@);
        }
        k = k + 1;
    }
    proof {
        assert(views.take(k as int) =~= views);
    }
    out
}

// ---------------------------------------------------------------------------
// The user of this machine
// ---------------------------------------------------------------------------
/// A user name that can be passed on: not blank, and no option.
pub open spec fn usable_user(user: Seq<char>) -> bool {
    !text::blank(user) && text::trim(user)[0] != '-'
}

/// The user of this machine, from the variables that may name it: the first that is set counts. An
/// unusable name is `root`.
pub open spec fn os_user_of(
    user: Option<Seq<char>>,
    logname: Option<Seq<char>>,
    username: Option<Seq<char>>,
) -> Seq<char> {
    let named = if user is Some {
        user
    } else if logname is Some {
        logname
    } else {
        username
    };
    match named {
        Some(name) => if usable_user(name) {
            name
        } else {
            "root"@
        },
        None => "root"@,
    }
}

/// The user of this machine, from the values of `USER`, `LOGNAME` and `USERNAME`.
pub fn default_os_user(
    user: Option<String>,
    logname: Option<String>,
    username: Option<String>,
) -> (r: String)
    ensures
        r@ == os_user_of(command::maybe(user), command::maybe(logname), command::maybe(username)),
{
    let named: Option<String> = if user.is_some() {
        user
    } else if logname.is_some() {
        logname
    } else {
        username
    };
    if let Some(name) = named {
        let chars: Vec<char> = text::chars_of(text::trimmed(name.as_str()));
        if chars.len() > 0 && chars[0] != '-' {
            return name;
        }
    }
    "root".to_owned()
}

} // verus!
