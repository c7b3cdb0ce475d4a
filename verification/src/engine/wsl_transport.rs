//! The remote channel: a local engine command, wrapped so that `ssh` runs it on another host.
//!
//! A host is a plain Linux machine, or a Windows machine that carries a WSL distribution. The
//! command becomes a script, the script is written to the host through the standard input of a
//! first `ssh` call, and a second call runs it. The command strings of both calls hold fixed
//! words and allow-listed characters only.
use crate::engine::command;
use crate::engine::command::CommandLine;
use crate::engine::command::CommandView;
use crate::json;
use crate::json::Json;
use crate::json::JsonTree;
use crate::number;
use crate::split;
use crate::table;
use crate::table::Table;
use crate::text;
use vstd::prelude::*;

verus! {

// ---------------------------------------------------------------------------
// The transport
// ---------------------------------------------------------------------------
/// How to reach a remote workspace.
#[derive(Debug, Clone)]
pub struct SshTransport {
    /// The address of the host. With a distribution, that of the Windows machine that carries it.
    pub host: String,
    pub port: u16,
    pub user: String,
    /// The WSL distribution. Without one the host is a plain Linux machine.
    pub distro: Option<String>,
    /// The socket of an SSH master connection to share.
    pub control_path: Option<String>,
    /// Where engine binaries are on the host, by name.
    pub engine_paths: Table,
    /// The directory to work in on the host.
    pub workspace: Option<String>,
}

/// Another name for [`SshTransport`].
pub type WslTransport = SshTransport;

/// What an [`SshTransport`] says.
#[verifier::ext_equal]
pub struct TransportView {
    pub host: Seq<char>,
    pub port: u16,
    pub user: Seq<char>,
    pub distro: Option<Seq<char>>,
    pub control_path: Option<Seq<char>>,
    pub engine_paths: Map<Seq<char>, Seq<char>>,
    pub workspace: Option<Seq<char>>,
}

impl View for SshTransport {
    type V = TransportView;

    open spec fn view(&self) -> TransportView {
        TransportView {
            host: self.host@,
            port: self.port,
            user: self.user@,
            distro: command::maybe(self.distro),
            control_path: command::maybe(self.control_path),
            engine_paths: self.engine_paths@,
            workspace: command::maybe(self.workspace),
        }
    }
}

// ---------------------------------------------------------------------------
// Allow-lists
// ---------------------------------------------------------------------------
/// A character of a login name.
pub open spec fn user_char(c: char) -> bool {
    text::alnum(c) || c == '.' || c == '_' || c == '-'
}

/// A character of a host address.
pub open spec fn host_char(c: char) -> bool {
    user_char(c) || c == ':'
}

/// A character of the name of a distribution.
pub open spec fn distro_char(c: char) -> bool {
    user_char(c) || c == ' '
}

/// A character of a workspace path.
pub open spec fn workspace_char(c: char) -> bool {
    text::alnum(c) || c == '/' || c == '_' || c == '.' || c == '-' || c == '~'
}

/// A login name that `ssh` cannot take for an option.
pub open spec fn safe_user(s: Seq<char>) -> bool {
    &&& s.len() > 0
    &&& s[0] != '-'
    &&& forall|i: int| 0 <= i < s.len() ==> user_char(#[trigger] s[i])
}

/// A host address that `ssh` cannot take for an option.
pub open spec fn safe_host(s: Seq<char>) -> bool {
    &&& s.len() > 0
    &&& s[0] != '-'
    &&& forall|i: int| 0 <= i < s.len() ==> host_char(#[trigger] s[i])
}

/// The name of a distribution in which no shell finds anything to evaluate.
pub open spec fn safe_distro(s: Seq<char>) -> bool {
    &&& s.len() > 0
    &&& forall|i: int| 0 <= i < s.len() ==> distro_char(#[trigger] s[i])
}

/// A workspace path that can stand in a script without quotes.
pub open spec fn safe_workspace(s: Seq<char>) -> bool {
    &&& s.len() > 0
    &&& forall|i: int| 0 <= i < s.len() ==> workspace_char(#[trigger] s[i])
}

/// Tells whether `user` is a login name that may go on an `ssh` command line.
pub fn is_safe_user(user: &str) -> (r: bool)
    ensures
        r == safe_user(user@),
{
    let chars: Vec<char> = text::chars_of(user);
    if chars.len() == 0 || chars[0] == '-' {
        return false;
    }
    let mut i: usize = 0;
    while i < chars.len()
        invariant
            i <= chars@.len(),
            chars@ == user@,
            forall|j: int| 0 <= j < i ==> user_char(#[trigger] chars@[j]),
        decreases chars.len() - i,
    {
        let c: char = chars[i];
        if !(text::is_alnum(c) || c == '.' || c == '_' || c == '-') {
            return false;
        }
        i = i + 1;
    }
    true
}

/// Tells whether `host` is an address that may go on an `ssh` command line.
pub fn is_safe_host(host: &str) -> (r: bool)
    ensures
        r == safe_host(host@),
{
    let chars: Vec<char> = text::chars_of(host);
    if chars.len() == 0 || chars[0] == '-' {
        return false;
    }
    let mut i: usize = 0;
    while i < chars.len()
        invariant
            i <= chars@.len(),
            chars@ == host@,
            forall|j: int| 0 <= j < i ==> host_char(#[trigger] chars@[j]),
        decreases chars.len() - i,
    {
        let c: char = chars[i];
        if !(text::is_alnum(c) || c == '.' || c == '_' || c == '-' || c == ':') {
            return false;
        }
        i = i + 1;
    }
    true
}

/// Tells whether `distro` may go between the double quotes of a remote command string.
pub fn is_safe_distro(distro: &str) -> (r: bool)
    ensures
        r == safe_distro(distro@),
{
    let chars: Vec<char> = text::chars_of(distro);
    let mut i: usize = 0;
    while i < chars.len()
        invariant
            i <= chars@.len(),
            chars@ == distro@,
            forall|j: int| 0 <= j < i ==> distro_char(#[trigger] chars@[j]),
        decreases chars.len() - i,
    {
        let c: char = chars[i];
        if !(text::is_alnum(c) || c == '.' || c == '_' || c == '-' || c == ' ') {
            return false;
        }
        i = i + 1;
    }
    chars.len() > 0
}

/// Tells whether `ws` may stand in a script without quotes. A tilde at its start is left to the
/// shell to expand.
pub fn is_safe_workspace(ws: &str) -> (r: bool)
    ensures
        r == safe_workspace(ws@),
{
    let chars: Vec<char> = text::chars_of(ws);
    let mut i: usize = 0;
    while i < chars.len()
        invariant
            i <= chars@.len(),
            chars@ == ws@,
            forall|j: int| 0 <= j < i ==> workspace_char(#[trigger] chars@[j]),
        decreases chars.len() - i,
    {
        let c: char = chars[i];
        if !(text::is_alnum(c) || c == '/' || c == '_' || c == '.' || c == '-' || c == '~') {
            return false;
        }
        i = i + 1;
    }
    chars.len() > 0
}

// ---------------------------------------------------------------------------
// From workspace metadata to a transport
// ---------------------------------------------------------------------------
/// The text under `key`, trimmed.
pub open spec fn trimmed_at(value: JsonTree, key: Seq<char>) -> Option<Seq<char>> {
    match value.text_at(key) {
        Some(s) => Some(text::trim(s)),
        None => None,
    }
}

/// The text under `key`, as it stands, unless it is blank.
pub open spec fn setting_at(value: JsonTree, key: Seq<char>) -> Option<Seq<char>> {
    match value.text_at(key) {
        Some(s) => if text::blank(s) {
            None
        } else {
            Some(s)
        },
        None => None,
    }
}

/// The port: 22 where none is given, and none at all where what is given is no port number.
pub open spec fn port_at(value: JsonTree) -> Option<u16> {
    match value.get("port"@) {
        Some(port) => match port.natural() {
            Some(n) => if n <= 65535 {
                Some(n as u16)
            } else {
                None
            },
            None => None,
        },
        None => Some(22),
    }
}

/// A path that is given as text, and is not blank.
pub open spec fn is_path(value: JsonTree) -> bool {
    match value.text() {
        Some(s) => !text::blank(s),
        None => false,
    }
}

/// The paths among the fields of an object, trimmed.
pub open spec fn path_fields(fields: Map<Seq<char>, JsonTree>) -> Map<Seq<char>, Seq<char>> {
    Map::new(
        |key: Seq<char>| fields.contains_key(key) && is_path(fields[key]),
        |key: Seq<char>| text::trim(fields[key].text()->0),
    )
}

/// The engine paths: none where none are given as an object.
pub open spec fn engine_paths_at(value: JsonTree) -> Map<Seq<char>, Seq<char>> {
    match value.get("enginePaths"@) {
        Some(paths) => match paths.object() {
            Some(fields) => path_fields(fields),
            None => Map::empty(),
        },
        None => Map::empty(),
    }
}

/// The distribution, where one is needed. One that is needed and missing or unsafe is an error.
pub open spec fn distro_at(value: JsonTree, needed: bool) -> Result<Option<Seq<char>>, ()> {
    if needed {
        match trimmed_at(value, "distro"@) {
            Some(d) => if safe_distro(d) {
                Ok(Some(d))
            } else {
                Err(())
            },
            None => Err(()),
        }
    } else {
        Ok(None)
    }
}

/// The transport that `value` describes: host and user are required and safe, the distribution is
/// required and safe where one is needed, and the rest is optional.
pub open spec fn transport_at(value: JsonTree, needs_distro: bool) -> Option<TransportView> {
    match (
        trimmed_at(value, "host"@),
        trimmed_at(value, "user"@),
        distro_at(value, needs_distro),
        port_at(value),
    ) {
        (Some(host), Some(user), Ok(distro), Some(port)) => if safe_host(host) && safe_user(user) {
            Some(
                TransportView {
                    host: host,
                    port: port,
                    user: user,
                    distro: distro,
                    control_path: setting_at(value, "controlPath"@),
                    engine_paths: engine_paths_at(value),
                    workspace: setting_at(value, "workspace"@),
                },
            )
        } else {
            None
        },
        _ => None,
    }
}

/// The transport of a workspace: its `ssh` field describes a plain host, or else its `wsl` field
/// one with a distribution.
pub open spec fn meta_transport(meta: JsonTree) -> Option<TransportView> {
    match meta.get("ssh"@) {
        Some(ssh) => transport_at(ssh, false),
        None => match meta.get("wsl"@) {
            Some(wsl) => transport_at(wsl, true),
            None => None,
        },
    }
}

/// The text under `key`, trimmed.
fn read_trimmed(value: &Json, key: &str) -> (r: Option<String>)
    ensures
        command::maybe(r) == trimmed_at(value@, key@),
{
    match value.str_at(key) {
        Some(s) => Some(text::trimmed(s).to_owned()),
        None => None,
    }
}

/// The text under `key`, unless it is blank.
fn read_setting(value: &Json, key: &str) -> (r: Option<String>)
    ensures
        command::maybe(r) == setting_at(value@, key@),
{
    match value.str_at(key) {
        Some(s) => if text::is_blank(s) {
            None
        } else {
            Some(s.to_owned())
        },
        None => None,
    }
}

/// The port, if it is one.
fn read_port(value: &Json) -> (r: Option<u16>)
    ensures
        r == port_at(value@),
{
    match value.get("port") {
        Some(port) => match port.as_u64() {
            Some(n) => if n <= 65535 {
                Some(n as u16)
            } else {
                None
            },
            None => None,
        },
        None => Some(22),
    }
}

/// The engine paths.
fn read_engine_paths(value: &Json) -> (r: Table)
    ensures
        r@ == engine_paths_at(value@),
{
    let mut r: Table = Table::new();
    let paths: &Json = match value.get("enginePaths") {
        Some(paths) => paths,
        None => {
            return r;
        },
    };
    let entries: &Vec<(String, Json)> = match paths.as_object() {
        Some(entries) => entries,
        None => {
            return r;
        },
    };
    let ghost pairs = json::entry_trees(entries@);
    let ghost fields = table::pairs_map(pairs);
    let mut i: usize = 0;
    while i < entries.len()
        invariant
            i <= entries@.len(),
            pairs == json::entry_trees(entries@),
            fields == table::pairs_map(pairs),
            paths@ == JsonTree::Object(fields),
            forall|key: Seq<char>| #[trigger]
                r@.contains_key(key) <==> (exists|j: int|
                    0 <= j < i && (#[trigger] pairs[j]).0 == key) && is_path(fields[key]),
            forall|key: Seq<char>| #[trigger]
                r@.contains_key(key) ==> r@[key] == text::trim(fields[key].text()->0),
        decreases entries.len() - i,
    {
        let ghost before = r@;
        let name: &String = &entries[i].0;
        proof {
            assert(pairs[i as int].0 == name@);
            table::lemma_pairs_map_keys(pairs, name@);
        }
        if let Some(path) = paths.str_at(name.as_str()) {
            if !text::is_blank(path) {
                r.insert(name.clone(), text::trimmed(path).to_owned());
            }
        }
        proof {
            assert forall|key: Seq<char>| #[trigger]
                r@.contains_key(key) <==> (exists|j: int|
                    0 <= j < i + 1 && (#[trigger] pairs[j]).0 == key) && is_path(fields[key]) by {
                if exists|j: int| 0 <= j < i + 1 && (#[trigger] pairs[j]).0 == key {
                    let j = choose|j: int| 0 <= j < i + 1 && (#[trigger] pairs[j]).0 == key;
                    if j < i {
                        assert(exists|j: int| 0 <= j < i && (#[trigger] pairs[j]).0 == key);
                    }
                }
                if before.contains_key(key) {
                    let j = choose|j: int| 0 <= j < i && (#[trigger] pairs[j]).0 == key;
                    assert(0 <= j < i + 1 && pairs[j].0 == key);
                }
                assert(before.contains_key(key) <==> (exists|j: int|
                    0 <= j < i && (#[trigger] pairs[j]).0 == key) && is_path(fields[key]));
            }
        }
        i = i + 1;
    }
    proof {
        assert forall|key: Seq<char>| #[trigger]
            r@.contains_key(key) <==> path_fields(fields).contains_key(key) by {
            table::lemma_pairs_map_keys(pairs, key);
        }
        assert(r@ =~= path_fields(fields));
    }
    r
}

/// The transport that `value` describes, or nothing where it describes none.
fn parse_tp(value: &Json, needs_distro: bool) -> (r: Option<SshTransport>)
    ensures
        match r {
            Some(transport) => transport_at(value@, needs_distro) == Some(transport@),
            None => transport_at(value@, needs_distro) is None,
        },
{
    let host: String = match read_trimmed(value, "host") {
        Some(host) => host,
        None => {
            return None;
        },
    };
    if !is_safe_host(host.as_str()) {
        return None;
    }
    let user: String = match read_trimmed(value, "user") {
        Some(user) => user,
        None => {
            return None;
        },
    };
    if !is_safe_user(user.as_str()) {
        return None;
    }
    let distro: Option<String> = if needs_distro {
        match read_trimmed(value, "distro") {
            Some(distro) => {
                if !is_safe_distro(distro.as_str()) {
                    return None;
                }
                Some(distro)
            },
            None => {
                return None;
            },
        }
    } else {
        None
    };
    let engine_paths: Table = read_engine_paths(value);
    let port: u16 = match read_port(value) {
        Some(port) => port,
        None => {
            return None;
        },
    };
    Some(
        SshTransport {
            host,
            port,
            user,
            distro,
            control_path: read_setting(value, "controlPath"),
            engine_paths,
            workspace: read_setting(value, "workspace"),
        },
    )
}

/// The transport that the metadata of a workspace describes, or nothing for a local workspace.
///
/// Two shapes are accepted: `{"wsl": {host, user, distro, ...}}` for a distribution on a Windows
/// host, and `{"ssh": {host, user, port?, enginePaths?, workspace?}}` for a plain Linux host. A
/// field that is not safe to pass on makes the whole description void.
pub fn from_workspace_meta(meta: &Json) -> (r: Option<WslTransport>)
    ensures
        match r {
            Some(transport) => meta_transport(meta@) == Some(transport@),
            None => meta_transport(meta@) is None,
        },
{
    if let Some(ssh) = meta.get("ssh") {
        return parse_tp(ssh, false);
    }
    match meta.get("wsl") {
        Some(wsl) => parse_tp(wsl, true),
        None => None,
    }
}

/// The transport of a workspace whose metadata is the text `meta`.
pub open spec fn text_transport(meta: Option<Seq<char>>) -> Option<TransportView> {
    match meta {
        Some(raw) => match json::json_text(raw) {
            Some(value) => meta_transport(value),
            None => None,
        },
        None => None,
    }
}

/// The characters of a borrowed text that may be missing.
pub open spec fn maybe_str(text: Option<&str>) -> Option<Seq<char>> {
    match text {
        Some(s) => Some(s@),
        None => None,
    }
}

/// The transport that a metadata text describes. A missing text, or one that is not JSON, means a
/// local workspace.
pub fn transport_from_meta_json(meta_json: Option<&str>) -> (r: Option<WslTransport>)
    ensures
        match r {
            Some(transport) => text_transport(maybe_str(meta_json)) == Some(transport@),
            None => text_transport(maybe_str(meta_json)) is None,
        },
{
    match meta_json {
        Some(raw) => match json::parse_json(raw) {
            Some(value) => from_workspace_meta(&value),
            None => None,
        },
        None => None,
    }
}

/// The metadata text of a workspace, from what looking for its row came to: nothing where the
/// lookup failed, or where the row has no metadata.
pub fn workspace_meta_json(lookup: Result<Option<String>, String>) -> (r: Option<String>)
    ensures
        r == (match lookup {
            Ok(meta) => meta,
            Err(_) => None,
        }),
{
    match lookup {
        Ok(meta) => meta,
        Err(_) => None,
    }
}

/// The transport of a workspace, from what looking for its row came to.
pub fn transport_for_workspace(lookup: Result<Option<String>, String>) -> (r: Option<
    WslTransport,
>)
    ensures
        ({
            let meta = match lookup {
                Ok(meta) => command::maybe(meta),
                Err(_) => None,
            };
            match r {
                Some(transport) => text_transport(meta) == Some(transport@),
                None => text_transport(meta) is None,
            }
        }),
{
    match workspace_meta_json(lookup) {
        Some(meta) => transport_from_meta_json(Some(meta.as_str())),
        None => transport_from_meta_json(None),
    }
}

/// A directory that always exists, for the local side of a remote command.
pub fn fallback_cwd() -> (r: &'static str)
    ensures
        r@ == "."@,
{
    "."
}

// ---------------------------------------------------------------------------
// Command lines of ssh
// ---------------------------------------------------------------------------
/// The options of every `ssh` call: a new host key is accepted once, connecting takes ten seconds
/// at most, a master connection is shared where there is one, and nothing is ever asked.
pub open spec fn options(transport: TransportView) -> Seq<Seq<char>> {
    seq![
        "-o"@,
        "StrictHostKeyChecking=accept-new"@,
        "-o"@,
        "ConnectTimeout=10"@,
        "-p"@,
        number::decimal(transport.port as nat),
    ] + (match transport.control_path {
        Some(path) => seq!["-o"@, "ControlPath="@ + path],
        None => seq![],
    }) + seq!["-o"@, "BatchMode=yes"@]
}

/// The destination of an `ssh` call.
pub open spec fn target(transport: TransportView) -> Seq<char> {
    transport.user + "@"@ + transport.host
}

/// An `ssh` call to the host of a transport, without a command: the options, then the mark that
/// ends them, then the destination.
pub open spec fn ssh_base(transport: TransportView) -> CommandView {
    CommandView {
        program: "ssh"@,
        args: options(transport) + seq!["--"@, target(transport)],
        envs: seq![],
    }
}

/// The options of every `ssh` call.
pub fn ssh_options(transport: &WslTransport) -> (r: Vec<String>)
    ensures
        split::views(r@) == options(transport@),
{
    let mut r: Vec<String> = Vec::new();
    command::push_arg(&mut r, "-o");
    command::push_arg(&mut r, "StrictHostKeyChecking=accept-new");
    command::push_arg(&mut r, "-o");
    command::push_arg(&mut r, "ConnectTimeout=10");
    command::push_arg(&mut r, "-p");
    command::push_arg(&mut r, number::natural_text(transport.port as u64).as_str());
    if let Some(path) = &transport.control_path {
        let mut option: String = "ControlPath=".to_owned();
        option.append(path.as_str());
        command::push_arg(&mut r, "-o");
        command::push_arg(&mut r, option.as_str());
    }
    command::push_arg(&mut r, "-o");
    command::push_arg(&mut r, "BatchMode=yes");
    proof {
        assert(split::views(r@) =~= options(transport@));
    }
    r
}

/// The destination of an `ssh` call.
pub fn ssh_target(transport: &WslTransport) -> (r: String)
    ensures
        r@ == target(transport@),
{
    let mut r: String = transport.user.clone();
    r.append("@");
    r.append(transport.host.as_str());
    r
}

/// An `ssh` call to the host of `transport`, without a command.
pub fn base_ssh_command(transport: &WslTransport) -> (r: CommandLine)
    ensures
        r@ == ssh_base(transport@),
{
    let mut args: Vec<String> = ssh_options(transport);
    command::push_arg(&mut args, "--");
    command::push_arg(&mut args, ssh_target(transport).as_str());
    let r: CommandLine = CommandLine { program: "ssh".to_owned(), args, envs: Vec::new() };
    proof {
        assert(r@ =~= ssh_base(transport@));
    }
    r
}

/// A word between double quotes.
pub open spec fn double_quoted(word: Seq<char>) -> Seq<char> {
    seq!['"'] + word + seq!['"']
}

/// Each word between double quotes.
pub open spec fn double_quoted_all(words: Seq<Seq<char>>) -> Seq<Seq<char>> {
    words.map_values(|word: Seq<char>| double_quoted(word))
}

/// The command string for the host: the words between double quotes, handed to the distribution
/// where there is one.
pub open spec fn remote_string(transport: TransportView, words: Seq<Seq<char>>) -> Seq<char> {
    let joined = split::joined(double_quoted_all(words), " "@);
    match transport.distro {
        Some(distro) => "wsl.exe -d \""@ + text::without(distro, '"') + "\" -- "@ + joined,
        None => joined,
    }
}

/// The characters of each borrowed text of a list.
pub open spec fn str_views(list: Seq<&str>) -> Seq<Seq<char>> {
    list.map_values(|s: &str| s@)
}

/// The command string for the host of `transport` that runs `remote_argv` there.
pub fn remote_command_string(transport: &WslTransport, remote_argv: &[&str]) -> (r: String)
    ensures
        r@ == remote_string(transport@, str_views(remote_argv@)),
{
    let mut list: Vec<String> = Vec::new();
    let mut i: usize = 0;
    let ghost words = str_views(remote_argv@);
    while i < remote_argv.len()
        invariant
            i <= remote_argv@.len(),
            words == str_views(remote_argv@),
            split::views(list@) == double_quoted_all(words.take(i as int)),
        decreases remote_argv.len() - i,
    {
        let mut word: String = String::new();
        word.push('"');
        word.append(remote_argv[i]);
        word.push('"');
        proof {
            assert(word@ =~= double_quoted(words[i as int]));
            assert(double_quoted_all(words.take(i + 1)) =~= double_quoted_all(
                words.take(i as int),
            ).push(word@));
            split::lemma_views_push(list@, word);
        }
        list.push(word);
        i = i + 1;
    }
    proof {
        assert(words.take(remote_argv@.len() as int) =~= words);
    }
    let joined: String = split::join(&list, " ");
    match &transport.distro {
        Some(distro) => {
            let mut r: String = "wsl.exe -d \"".to_owned();
            r.append(text::remove_char(distro.as_str(), '"').as_str());
            r.append("\" -- ");
            r.append(joined.as_str());
            r
        },
        None => joined,
    }
}

/// An `ssh` call that runs `words` on the host.
pub open spec fn ssh_call(transport: TransportView, words: Seq<Seq<char>>) -> CommandView {
    CommandView {
        args: ssh_base(transport).args.push(remote_string(transport, words)),
        ..ssh_base(transport)
    }
}

/// An `ssh` call that runs `remote_argv` on the host of `transport`.
pub fn remote_call(transport: &WslTransport, remote_argv: &[&str]) -> (r: CommandLine)
    ensures
        r@ == ssh_call(transport@, str_views(remote_argv@)),
{
    let base: CommandLine = base_ssh_command(transport);
    let mut args: Vec<String> = base.args;
    command::push_arg(&mut args, remote_command_string(transport, remote_argv).as_str());
    let r: CommandLine = CommandLine { program: base.program, args, envs: base.envs };
    proof {
        assert(r@ =~= ssh_call(transport@, str_views(remote_argv@)));
    }
    r
}

} // verus!
