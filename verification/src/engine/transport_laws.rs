//! What holds of the description of a remote workspace, and of the calls and scripts for it.
use crate::engine::command::CommandView;
use crate::engine::laws as engine_laws;
use crate::engine::remote_run;
use crate::engine::remote_run::ScriptRun;
use crate::engine::remote_run::Wrapped;
use crate::engine::script;
use crate::engine::wsl_transport;
use crate::engine::wsl_transport::TransportView;
use crate::json::JsonTree;
use crate::laws;
use crate::number;
use crate::paths;
use crate::shell;
use crate::split;
use crate::text;
use vstd::prelude::*;

verus! {

// ---------------------------------------------------------------------------
// Allow-lists
// ---------------------------------------------------------------------------
/// Exactly the texts of these characters that start with no hyphen may be login names.
pub proof fn law_user_allow_list(s: Seq<char>)
    ensures
        wsl_transport::safe_user(s) <==> s.len() > 0 && s[0] != '-' && forall|i: int|
            0 <= i < s.len() ==> ({
                let c = #[trigger] s[i];
                ||| 'a' <= c && c <= 'z'
                ||| 'A' <= c && c <= 'Z'
                ||| '0' <= c && c <= '9'
                ||| c == '.'
                ||| c == '_'
                ||| c == '-'
            }),
{
    assert forall|c: char| #[trigger] wsl_transport::user_char(c) <==> ({
        ||| 'a' <= c && c <= 'z'
        ||| 'A' <= c && c <= 'Z'
        ||| '0' <= c && c <= '9'
        ||| c == '.'
        ||| c == '_'
        ||| c == '-'
    }) by {}
}

/// Exactly the texts of these characters that start with no hyphen may be addresses of hosts.
pub proof fn law_host_allow_list(s: Seq<char>)
    ensures
        wsl_transport::safe_host(s) <==> s.len() > 0 && s[0] != '-' && forall|i: int|
            0 <= i < s.len() ==> ({
                let c = #[trigger] s[i];
                ||| 'a' <= c && c <= 'z'
                ||| 'A' <= c && c <= 'Z'
                ||| '0' <= c && c <= '9'
                ||| c == '.'
                ||| c == '_'
                ||| c == '-'
                ||| c == ':'
            }),
{
    assert forall|c: char| #[trigger] wsl_transport::host_char(c) <==> ({
        ||| 'a' <= c && c <= 'z'
        ||| 'A' <= c && c <= 'Z'
        ||| '0' <= c && c <= '9'
        ||| c == '.'
        ||| c == '_'
        ||| c == '-'
        ||| c == ':'
    }) by {}
}

/// Exactly the texts of these characters may be names of distributions.
pub proof fn law_distro_allow_list(s: Seq<char>)
    ensures
        wsl_transport::safe_distro(s) <==> s.len() > 0 && forall|i: int|
            0 <= i < s.len() ==> ({
                let c = #[trigger] s[i];
                ||| 'a' <= c && c <= 'z'
                ||| 'A' <= c && c <= 'Z'
                ||| '0' <= c && c <= '9'
                ||| c == '.'
                ||| c == '_'
                ||| c == '-'
                ||| c == ' '
            }),
{
    assert forall|c: char| #[trigger] wsl_transport::distro_char(c) <==> ({
        ||| 'a' <= c && c <= 'z'
        ||| 'A' <= c && c <= 'Z'
        ||| '0' <= c && c <= '9'
        ||| c == '.'
        ||| c == '_'
        ||| c == '-'
        ||| c == ' '
    }) by {}
}

/// Exactly the texts of these characters may be workspace paths.
pub proof fn law_workspace_allow_list(s: Seq<char>)
    ensures
        wsl_transport::safe_workspace(s) <==> s.len() > 0 && forall|i: int|
            0 <= i < s.len() ==> ({
                let c = #[trigger] s[i];
                ||| 'a' <= c && c <= 'z'
                ||| 'A' <= c && c <= 'Z'
                ||| '0' <= c && c <= '9'
                ||| c == '/'
                ||| c == '_'
                ||| c == '.'
                ||| c == '-'
                ||| c == '~'
            }),
{
    assert forall|c: char| #[trigger] wsl_transport::workspace_char(c) <==> ({
        ||| 'a' <= c && c <= 'z'
        ||| 'A' <= c && c <= 'Z'
        ||| '0' <= c && c <= '9'
        ||| c == '/'
        ||| c == '_'
        ||| c == '.'
        ||| c == '-'
        ||| c == '~'
    }) by {}
}

/// Exactly the texts of these characters that start with no digit may be names of variables.
pub proof fn law_variable_names(s: Seq<char>)
    ensures
        script::shell_name(s) <==> s.len() > 0 && !('0' <= s[0] && s[0] <= '9') && forall|i: int|
            0 <= i < s.len() ==> ({
                let c = #[trigger] s[i];
                ||| 'a' <= c && c <= 'z'
                ||| 'A' <= c && c <= 'Z'
                ||| '0' <= c && c <= '9'
                ||| c == '_'
            }),
{
    assert forall|c: char| #[trigger] script::name_char(c) <==> ({
        ||| 'a' <= c && c <= 'z'
        ||| 'A' <= c && c <= 'Z'
        ||| '0' <= c && c <= '9'
        ||| c == '_'
    }) by {}
}

// ---------------------------------------------------------------------------
// Descriptions
// ---------------------------------------------------------------------------
/// `s` stands in the text, with nothing but white space around it.
pub open spec fn stands_in(whole: Seq<char>, s: Seq<char>) -> bool {
    exists|front: Seq<char>, back: Seq<char>|
        laws::all_white(front) && laws::all_white(back) && whole == #[trigger] (front + s + back)
}

/// The fields give `s` as a text under the key, with nothing but white space around it.
pub open spec fn gives(fields: Map<Seq<char>, JsonTree>, key: Seq<char>, s: Seq<char>) -> bool {
    &&& fields.contains_key(key)
    &&& fields[key] matches JsonTree::Text(whole)
    &&& stands_in(whole, s)
}

/// The fields give the port, or give none where it is that of `ssh`.
pub open spec fn gives_port(fields: Map<Seq<char>, JsonTree>, port: u16) -> bool {
    if fields.contains_key("port"@) {
        fields["port"@] == JsonTree::Natural(port as u64)
    } else {
        port == 22
    }
}

/// The value describes a host, a user, a port and, where one is needed, a distribution, all of which
/// may be passed on.
pub open spec fn describes(
    value: JsonTree,
    needs_distro: bool,
    host: Seq<char>,
    user: Seq<char>,
    port: u16,
    distro: Option<Seq<char>>,
) -> bool {
    &&& value matches JsonTree::Object(fields)
    &&& gives(fields, "host"@, host) && wsl_transport::safe_host(host)
    &&& gives(fields, "user"@, user) && wsl_transport::safe_user(user)
    &&& gives_port(fields, port)
    &&& if needs_distro {
        &&& distro matches Some(name)
        &&& gives(fields, "distro"@, name)
        &&& wsl_transport::safe_distro(name)
        &&& name[0] != ' ' && name.last() != ' '
    } else {
        distro is None
    }
}

proof fn lemma_stands_in(whole: Seq<char>, s: Seq<char>)
    requires
        laws::solid(s),
    ensures
        stands_in(whole, s) <==> text::trim(whole) == s,
{
    if stands_in(whole, s) {
        let (front, back) = choose|front: Seq<char>, back: Seq<char>|
            laws::all_white(front) && laws::all_white(back) && whole == #[trigger] (front + s
                + back);
        laws::law_trim(front, s, back);
    }
    if text::trim(whole) == s {
        let (front, core, back) = laws::law_trim_parts(whole);
        assert(whole == front + s + back);
    }
}

proof fn lemma_solid_names(s: Seq<char>)
    ensures
        wsl_transport::safe_host(s) ==> laws::solid(s),
        wsl_transport::safe_user(s) ==> laws::solid(s),
        wsl_transport::safe_distro(s) && s[0] != ' ' && s.last() != ' ' ==> laws::solid(s),
{
    if s.len() > 0 {
        assert(s.last() == s[s.len() - 1]);
        if wsl_transport::safe_host(s) {
            assert(wsl_transport::host_char(s[0]) && wsl_transport::host_char(s[s.len() - 1]));
        }
        if wsl_transport::safe_user(s) {
            assert(wsl_transport::user_char(s[0]) && wsl_transport::user_char(s[s.len() - 1]));
        }
        if wsl_transport::safe_distro(s) {
            assert(wsl_transport::distro_char(s[0]) && wsl_transport::distro_char(
                s[s.len() - 1],
            ));
        }
    }
}

/// A value that describes a transport gives exactly that one: host, user, port and distribution
/// whole and as they stand there, but for white space around them.
pub proof fn law_description_is_read(
    value: JsonTree,
    needs_distro: bool,
    host: Seq<char>,
    user: Seq<char>,
    port: u16,
    distro: Option<Seq<char>>,
)
    requires
        describes(value, needs_distro, host, user, port, distro),
    ensures
        wsl_transport::transport_at(value, needs_distro) matches Some(t) && t.host == host
            && t.user == user && t.port == port && t.distro == distro,
{
    let fields = value->Object_0;
    lemma_solid_names(host);
    lemma_solid_names(user);
    lemma_stands_in(fields["host"@]->Text_0, host);
    lemma_stands_in(fields["user"@]->Text_0, user);
    if needs_distro {
        lemma_solid_names(distro->0);
        lemma_stands_in(fields["distro"@]->Text_0, distro->0);
    }
}

/// A value gives a transport only where it describes one.
pub proof fn law_transport_is_described(value: JsonTree, needs_distro: bool)
    ensures
        wsl_transport::transport_at(value, needs_distro) matches Some(t) ==> describes(
            value,
            needs_distro,
            t.host,
            t.user,
            t.port,
            t.distro,
        ),
{
    if let Some(t) = wsl_transport::transport_at(value, needs_distro) {
        let fields = value->Object_0;
        lemma_solid_names(t.host);
        lemma_solid_names(t.user);
        lemma_stands_in(fields["host"@]->Text_0, t.host);
        lemma_stands_in(fields["user"@]->Text_0, t.user);
        if needs_distro {
            let name = t.distro->0;
            text::lemma_trim_edges(fields["distro"@]->Text_0);
            assert(laws::solid(name));
            lemma_stands_in(fields["distro"@]->Text_0, name);
        }
    }
}

/// The optional parts of a description are taken as they stand: a blank one counts as missing, and
/// only the engine paths lose the white space around them.
pub proof fn law_optional_parts(fields: Map<Seq<char>, JsonTree>, needs_distro: bool)
    ensures
        wsl_transport::transport_at(JsonTree::Object(fields), needs_distro) matches Some(t) ==> {
            &&& t.control_path == text_setting(fields, "controlPath"@)
            &&& t.workspace == text_setting(fields, "workspace"@)
            &&& forall|bin: Seq<char>, path: Seq<char>|
                laws::solid(path) ==> (#[trigger] path_setting(fields, bin, path) <==> (
                t.engine_paths.contains_key(bin) && t.engine_paths[bin] == path))
            &&& forall|bin: Seq<char>| #[trigger]
                t.engine_paths.contains_key(bin) ==> laws::solid(t.engine_paths[bin])
        },
{
    if let Some(t) = wsl_transport::transport_at(JsonTree::Object(fields), needs_distro) {
        lemma_text_setting(fields, "controlPath"@);
        lemma_text_setting(fields, "workspace"@);
        assert forall|bin: Seq<char>, path: Seq<char>| laws::solid(path) implies (
        #[trigger] path_setting(fields, bin, path) <==> (t.engine_paths.contains_key(bin)
            && t.engine_paths[bin] == path)) by {
            lemma_path_setting(fields, bin, path);
        }
        assert forall|bin: Seq<char>| #[trigger]
            t.engine_paths.contains_key(bin) implies laws::solid(t.engine_paths[bin]) by {
            let paths = fields["enginePaths"@]->Object_0;
            text::lemma_trim_edges(paths[bin]->Text_0);
        }
    }
}

/// The text under the key, as it stands, unless it is missing, no text, or white space alone.
pub open spec fn text_setting(fields: Map<Seq<char>, JsonTree>, key: Seq<char>) -> Option<
    Seq<char>,
> {
    if fields.contains_key(key) && fields[key] is Text && !laws::all_white(fields[key]->Text_0) {
        Some(fields[key]->Text_0)
    } else {
        None
    }
}

/// The fields give the path of the binary, with nothing but white space around it.
pub open spec fn path_setting(
    fields: Map<Seq<char>, JsonTree>,
    bin: Seq<char>,
    path: Seq<char>,
) -> bool {
    &&& fields.contains_key("enginePaths"@)
    &&& fields["enginePaths"@] matches JsonTree::Object(paths)
    &&& gives(paths, bin, path)
}

proof fn lemma_text_setting(fields: Map<Seq<char>, JsonTree>, key: Seq<char>)
    ensures
        wsl_transport::setting_at(JsonTree::Object(fields), key) == text_setting(fields, key),
{
    if fields.contains_key(key) && fields[key] is Text {
        laws::law_trim_blank(fields[key]->Text_0);
    }
}

proof fn lemma_path_setting(fields: Map<Seq<char>, JsonTree>, bin: Seq<char>, path: Seq<char>)
    requires
        laws::solid(path),
    ensures
        ({
            let found = wsl_transport::engine_paths_at(JsonTree::Object(fields));
            path_setting(fields, bin, path) <==> found.contains_key(bin) && found[bin] == path
        }),
{
    if fields.contains_key("enginePaths"@) && fields["enginePaths"@] is Object {
        let paths = fields["enginePaths"@]->Object_0;
        if paths.contains_key(bin) && paths[bin] is Text {
            lemma_stands_in(paths[bin]->Text_0, path);
        }
    }
}

/// The metadata of a workspace in a distribution is read back whole.
pub proof fn law_wsl_workspace_is_read_back(
    meta: Map<Seq<char>, JsonTree>,
    fields: Map<Seq<char>, JsonTree>,
    host: Seq<char>,
    user: Seq<char>,
    distro: Seq<char>,
    port: u16,
)
    requires
        !meta.contains_key("ssh"@),
        meta.contains_key("wsl"@),
        meta["wsl"@] == JsonTree::Object(fields),
        fields.contains_key("host"@) && fields["host"@] == JsonTree::Text(host),
        fields.contains_key("user"@) && fields["user"@] == JsonTree::Text(user),
        fields.contains_key("distro"@) && fields["distro"@] == JsonTree::Text(distro),
        gives_port(fields, port),
        wsl_transport::safe_host(host),
        wsl_transport::safe_user(user),
        wsl_transport::safe_distro(distro),
        distro[0] != ' ',
        distro.last() != ' ',
    ensures
        wsl_transport::meta_transport(JsonTree::Object(meta)) matches Some(t) && t.host == host
            && t.user == user && t.distro == Some(distro) && t.port == port,
{
    let none = Seq::<char>::empty();
    assert(none + host + none =~= host);
    assert(none + user + none =~= user);
    assert(none + distro + none =~= distro);
    law_description_is_read(JsonTree::Object(fields), true, host, user, port, Some(distro));
}

/// The metadata of a workspace on a plain host is read back whole, whatever else it holds.
pub proof fn law_ssh_workspace_is_read_back(
    meta: Map<Seq<char>, JsonTree>,
    fields: Map<Seq<char>, JsonTree>,
    host: Seq<char>,
    user: Seq<char>,
    port: u16,
)
    requires
        meta.contains_key("ssh"@),
        meta["ssh"@] == JsonTree::Object(fields),
        fields.contains_key("host"@) && fields["host"@] == JsonTree::Text(host),
        fields.contains_key("user"@) && fields["user"@] == JsonTree::Text(user),
        gives_port(fields, port),
        wsl_transport::safe_host(host),
        wsl_transport::safe_user(user),
    ensures
        wsl_transport::meta_transport(JsonTree::Object(meta)) matches Some(t) && t.host == host
            && t.user == user && t.distro is None && t.port == port,
{
    let none = Seq::<char>::empty();
    assert(none + host + none =~= host);
    assert(none + user + none =~= user);
    law_description_is_read(JsonTree::Object(fields), false, host, user, port, None);
}

/// A workspace is remote only where its metadata describes a transport: by its `ssh` field, or,
/// where it has none, by its `wsl` field.
pub proof fn law_remote_only_by_description(meta: JsonTree)
    ensures
        wsl_transport::meta_transport(meta) matches Some(t) ==> {
            &&& meta matches JsonTree::Object(fields)
            &&& if fields.contains_key("ssh"@) {
                &&& describes(fields["ssh"@], false, t.host, t.user, t.port, t.distro)
                &&& wsl_transport::transport_at(fields["ssh"@], false) == Some(t)
            } else {
                &&& fields.contains_key("wsl"@)
                &&& describes(fields["wsl"@], true, t.host, t.user, t.port, t.distro)
                &&& wsl_transport::transport_at(fields["wsl"@], true) == Some(t)
            }
        },
{
    if let JsonTree::Object(fields) = meta {
        if fields.contains_key("ssh"@) {
            law_transport_is_described(fields["ssh"@], false);
        } else if fields.contains_key("wsl"@) {
            law_transport_is_described(fields["wsl"@], true);
        }
    }
}

// ---------------------------------------------------------------------------
// Calls
// ---------------------------------------------------------------------------
/// The option and its value stand one behind the other among the arguments.
pub open spec fn has_option(args: Seq<Seq<char>>, name: Seq<char>, value: Seq<char>) -> bool {
    exists|i: int| 0 <= i && i + 1 < args.len() && #[trigger] args[i] == name && args[i + 1] == value
}

/// A call names the port of the transport, never asks for a password, shares the master connection
/// where there is one, and nothing else.
pub proof fn law_call_options(transport: TransportView)
    ensures
        ({
            let args = wsl_transport::options(transport);
            &&& has_option(args, "-p"@, number::decimal(transport.port as nat))
            &&& has_option(args, "-o"@, "StrictHostKeyChecking=accept-new"@)
            &&& has_option(args, "-o"@, "ConnectTimeout=10"@)
            &&& has_option(args, "-o"@, "BatchMode=yes"@)
            &&& transport.control_path matches Some(path) ==> has_option(
                args,
                "-o"@,
                "ControlPath="@ + path,
            )
            &&& args.len() == (if transport.control_path is Some {
                10int
            } else {
                8int
            })
        }),
{
    let args = wsl_transport::options(transport);
    assert(args[0] == "-o"@ && args[1] == "StrictHostKeyChecking=accept-new"@);
    assert(args[2] == "-o"@ && args[3] == "ConnectTimeout=10"@);
    assert(args[4] == "-p"@ && args[5] == number::decimal(transport.port as nat));
    if transport.control_path is Some {
        assert(args[6] == "-o"@ && args[7] == "ControlPath="@ + transport.control_path->0);
        assert(args[8] == "-o"@ && args[9] == "BatchMode=yes"@);
    } else {
        assert(args[6] == "-o"@ && args[7] == "BatchMode=yes"@);
    }
}

/// A call goes to the user at the host, and its last argument is what the host is to run.
pub proof fn law_call_destination(transport: TransportView, words: Seq<Seq<char>>)
    ensures
        ({
            let call = wsl_transport::ssh_call(transport, words);
            let n = call.args.len();
            &&& call.program == "ssh"@
            &&& call.envs.len() == 0
            &&& n == wsl_transport::options(transport).len() + 3
            &&& call.args.take(n - 3) == wsl_transport::options(transport)
            &&& call.args[n - 3] == "--"@
            &&& call.args[n - 2] == transport.user + seq!['@'] + transport.host
            &&& call.args[n - 1] == wsl_transport::remote_string(transport, words)
        }),
{
    reveal_strlit("@");
    let call = wsl_transport::ssh_call(transport, words);
    let n = call.args.len();
    assert("@"@ =~= seq!['@']);
    assert(call.args.take(n - 3) =~= wsl_transport::options(transport));
}

/// A plain host runs the words, each between double quotes, with a space between each two. A
/// distribution is named first, between double quotes of its own.
pub proof fn law_remote_string(transport: TransportView, words: Seq<Seq<char>>, word: Seq<char>)
    ensures
        transport.distro is None ==> wsl_transport::remote_string(transport, seq![]) == Seq::<
            char,
        >::empty(),
        transport.distro is None ==> wsl_transport::remote_string(transport, words.push(word)) == (
        if words.len() == 0 {
            Seq::<char>::empty()
        } else {
            wsl_transport::remote_string(transport, words) + seq![' ']
        }) + seq!['"'] + word + seq!['"'],
        transport.distro matches Some(distro) ==> laws::lacks(distro, '"')
            ==> wsl_transport::remote_string(transport, words) == "wsl.exe -d \""@ + distro
            + "\" -- "@ + wsl_transport::remote_string(
            TransportView { distro: None, ..transport },
            words,
        ),
{
    reveal_strlit(" ");
    let list = wsl_transport::double_quoted_all(words);
    let quoted = wsl_transport::double_quoted(word);
    assert(wsl_transport::double_quoted_all(words.push(word)) =~= list.push(quoted));
    assert(wsl_transport::double_quoted_all(seq![]) =~= seq![]);
    laws::law_joined(list, quoted, " "@);
    assert(" "@ =~= seq![' ']);
    let done = wsl_transport::remote_string(transport, words.push(word));
    if transport.distro is None {
        let front = if words.len() == 0 {
            Seq::<char>::empty()
        } else {
            wsl_transport::remote_string(transport, words) + seq![' ']
        };
        assert(done =~= front + seq!['"'] + word + seq!['"']);
    } else if laws::lacks(transport.distro->0, '"') {
        text::lemma_without_none(transport.distro->0, '"');
    }
}

/// A stored script and the call that runs it are the same file on the host, whose name has the id,
/// and so has the marker.
pub proof fn law_script_files(transport: TransportView, id: Seq<char>)
    ensures
        ({
            let file = "/tmp/ccgui-wsl-"@ + id + ".sh"@;
            &&& remote_run::upload_call(transport, id) == wsl_transport::ssh_call(
                transport,
                seq!["tee"@, file],
            )
            &&& remote_run::run_call(transport, id) == wsl_transport::ssh_call(
                transport,
                seq!["bash"@, file],
            )
            &&& remote_run::marker_name(id) == "ccgui-wsl-"@ + id + ".marker"@
        }),
{
}

/// What a wrapped command is: the script goes to the standard input of the call that stores it, the
/// other call runs it, and the marker is cleaned up.
pub proof fn law_wrapped_parts(
    wrapped: Wrapped,
    transport: TransportView,
    body: Seq<char>,
    id: Seq<char>,
)
    requires
        wrapped.runs(transport, body, id),
    ensures
        wrapped.upload.body@ == body,
        wrapped.upload.command@ == remote_run::upload_call(transport, id),
        wrapped.command@ == remote_run::run_call(transport, id),
        wrapped.cleanup_files@.len() == 1,
        wrapped.cleanup_files@[0]@ == remote_run::marker_name(id),
        wrapped.skip_local_cwd,
{
    let names = split::views(wrapped.cleanup_files@);
    assert(names.len() == wrapped.cleanup_files@.len());
    assert(names[0] == wrapped.cleanup_files@[0]@);
}

/// What running a script is: the script goes to the standard input of the call that stores it, and
/// the other call runs it.
pub proof fn law_script_run_parts(
    run: ScriptRun,
    transport: TransportView,
    body: Seq<char>,
    id: Seq<char>,
)
    requires
        run.runs(transport, remote_run::self_deleting(body), id),
    ensures
        run.upload.body@ == "rm -f \"$0\"\n"@ + body,
        run.upload.command@ == remote_run::upload_call(transport, id),
        run.command@ == remote_run::run_call(transport, id),
{
}

// ---------------------------------------------------------------------------
// Scripts
// ---------------------------------------------------------------------------
/// The variables that go along are those with a value under a name that a shell takes, in their
/// order.
pub proof fn law_exported_in_order(envs: Seq<(Seq<char>, Option<Seq<char>>)>)
    ensures
        script::exported(envs) == envs.filter(
            |env: (Seq<char>, Option<Seq<char>>)| env.1 is Some && script::shell_name(env.0),
        ).map_values(|env: (Seq<char>, Option<Seq<char>>)| (env.0, env.1->0)),
    decreases envs.len(),
{
    reveal(Seq::filter);
    let taken = envs.filter(
        |env: (Seq<char>, Option<Seq<char>>)| env.1 is Some && script::shell_name(env.0),
    );
    let pairs = taken.map_values(|env: (Seq<char>, Option<Seq<char>>)| (env.0, env.1->0));
    if envs.len() > 0 {
        law_exported_in_order(envs.drop_last());
    }
    assert(script::exported(envs) =~= pairs);
}

/// A program is where the engine paths say it is, by its own path or else by its name, and else it
/// is left to the host to find the name.
pub proof fn law_program_on_the_host(
    program: Seq<char>,
    base: Seq<char>,
    engine_paths: Map<Seq<char>, Seq<char>>,
)
    ensures
        engine_paths.contains_key(program) ==> script::resolved(program, base, engine_paths)
            == engine_paths[program],
        !engine_paths.contains_key(program) && engine_paths.contains_key(base)
            ==> script::resolved(program, base, engine_paths) == engine_paths[base],
        !engine_paths.contains_key(program) && !engine_paths.contains_key(base)
            ==> script::resolved(program, base, engine_paths) == "__RESOLVE__"@ + base,
{
}

/// A program that is left to the host is looked for by its name, and started with its arguments.
pub proof fn law_program_is_looked_for(
    base: Seq<char>,
    args: Seq<Seq<char>>,
    envs: Seq<(Seq<char>, Seq<char>)>,
    workspace: Option<Seq<char>>,
)
    requires
        script::workspace_fits(workspace),
        forall|i: int| 0 <= i < envs.len() ==> script::shell_name((#[trigger] envs[i]).0),
    ensures
        shell::shell_commands(
            script::script_at("__RESOLVE__"@ + base, args, envs, workspace),
        ) matches Some(commands) && commands.len() >= 2 && commands[commands.len() - 2]
            == "bin=$(bash -lc "@ + shell::quoted("command -v "@ + base) + ") || exit 62"@
            && commands.last() == "exec \"$bin\""@ + shell::quoted_args(args),
{
    let place = "__RESOLVE__"@ + base;
    engine_laws::law_script_commands(place, args, envs, workspace);
    laws::law_starts(place, "__RESOLVE__"@);
    assert(place.skip("__RESOLVE__"@.len() as int) =~= base);
}

/// A workspace whose path has letters, digits, slashes, underscores, dots, hyphens and tildes alone,
/// and is not empty, is entered, and the program is started there. Any other workspace is refused.
pub proof fn law_workspace_is_entered_or_refused(
    program: Seq<char>,
    base: Seq<char>,
    args: Seq<Seq<char>>,
    envs: Seq<(Seq<char>, Seq<char>)>,
    transport: TransportView,
    ws: Seq<char>,
)
    requires
        transport.workspace == Some(ws),
        forall|i: int| 0 <= i < envs.len() ==> script::shell_name((#[trigger] envs[i]).0),
    ensures
        ({
            let text = script::script_text(program, base, args, envs, transport);
            let allowed = ws.len() > 0 && forall|i: int|
                0 <= i < ws.len() ==> ({
                    let c = #[trigger] ws[i];
                    ||| 'a' <= c && c <= 'z'
                    ||| 'A' <= c && c <= 'Z'
                    ||| '0' <= c && c <= '9'
                    ||| c == '/'
                    ||| c == '_'
                    ||| c == '.'
                    ||| c == '-'
                    ||| c == '~'
                });
            if allowed {
                &&& shell::shell_commands(text) matches Some(commands)
                &&& commands.len() == envs.len() + 3 + engine_laws::exec_commands(
                    script::resolved(program, base, transport.engine_paths),
                    args,
                ).len()
                &&& commands[0] == "set -e"@
                &&& commands[1] == "rm -f \"$0\""@
                &&& commands[envs.len() as int + 2] == "cd "@ + ws + " || exit 61"@
                &&& commands.skip(envs.len() as int + 3) == engine_laws::exec_commands(
                    script::resolved(program, base, transport.engine_paths),
                    args,
                )
            } else {
                text == "echo 'workspace 路径含不支持的字符' >&2; exit 60\n"@
            }
        }),
{
    law_workspace_allow_list(ws);
    let place = script::resolved(program, base, transport.engine_paths);
    if wsl_transport::safe_workspace(ws) {
        engine_laws::law_script_commands(place, args, envs, transport.workspace);
        let commands = shell::shell_commands(
            script::script_text(program, base, args, envs, transport),
        )->0;
        assert(commands.skip(envs.len() as int + 3) =~= engine_laws::exec_commands(place, args));
    }
}

/// Without a workspace the program is started where the host puts the call.
pub proof fn law_no_workspace(
    program: Seq<char>,
    base: Seq<char>,
    args: Seq<Seq<char>>,
    envs: Seq<(Seq<char>, Seq<char>)>,
    transport: TransportView,
)
    requires
        transport.workspace is None,
        forall|i: int| 0 <= i < envs.len() ==> script::shell_name((#[trigger] envs[i]).0),
    ensures
        shell::shell_commands(
            script::script_text(program, base, args, envs, transport),
        ) matches Some(commands) && commands.take(2) == seq!["set -e"@, "rm -f \"$0\""@]
            && commands.subrange(2, envs.len() as int + 2) == engine_laws::export_commands(envs)
            && commands.skip(envs.len() as int + 2) == engine_laws::exec_commands(
            script::resolved(program, base, transport.engine_paths),
            args,
        ),
{
    let place = script::resolved(program, base, transport.engine_paths);
    engine_laws::law_script_commands(place, args, envs, transport.workspace);
    let commands = shell::shell_commands(
        script::script_text(program, base, args, envs, transport),
    )->0;
    assert(commands.take(2) =~= seq!["set -e"@, "rm -f \"$0\""@]);
    assert(commands.subrange(2, envs.len() as int + 2) =~= engine_laws::export_commands(envs));
    assert(commands.skip(envs.len() as int + 2) =~= engine_laws::exec_commands(place, args));
}

/// The script of a command has the program, the arguments and the exported variables of that
/// command.
pub proof fn law_command_script(command: CommandView, base: Seq<char>, transport: TransportView)
    ensures
        remote_run::command_script(command, base, transport) == script::script_text(
            command.program,
            base,
            command.args,
            script::exported(command.envs),
            transport,
        ),
{
}

/// A program in a directory without an engine path of its own is found by its name alone.
pub proof fn law_engine_by_name(
    dir: Seq<char>,
    name: Seq<char>,
    engine_paths: Map<Seq<char>, Seq<char>>,
)
    requires
        laws::lacks(name, '/'),
        name.len() > 0,
        name != seq!['.'],
        name != seq!['.', '.'],
        engine_paths.contains_key(name),
        !engine_paths.contains_key(dir + seq!['/'] + name),
    ensures
        ({
            let program = dir + seq!['/'] + name;
            script::resolved(program, paths::base_name(program), engine_paths)
                == engine_paths[name]
        }),
{
    laws::law_base_name(dir, name);
}

} // verus!
