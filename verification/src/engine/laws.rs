//! What holds of remote commands as a whole.
use crate::engine::command::CommandView;
use crate::engine::muse;
use crate::engine::muse::SendRequest;
use crate::engine::remote_run;
use crate::engine::script;
use crate::engine::wsl_transport;
use crate::engine::wsl_transport::TransportView;
use crate::ids;
use crate::json::JsonTree;
use crate::number;
use crate::paths;
use crate::shell;
use crate::shell::Mode;
use crate::shell::Reader;
use crate::split;
use crate::text;
use vstd::prelude::*;

verus! {

// ---------------------------------------------------------------------------
// Transports
// ---------------------------------------------------------------------------
/// A transport whose parts may go on an `ssh` command line and into a remote command string.
pub open spec fn sound(transport: TransportView) -> bool {
    &&& wsl_transport::safe_host(transport.host)
    &&& wsl_transport::safe_user(transport.user)
    &&& transport.distro matches Some(distro) ==> wsl_transport::safe_distro(distro)
    &&& transport.control_path matches Some(path) ==> !text::blank(path)
    &&& transport.workspace matches Some(ws) ==> !text::blank(ws)
    &&& forall|bin: Seq<char>| #[trigger]
        transport.engine_paths.contains_key(bin) ==> {
            let path = transport.engine_paths[bin];
            !text::blank(path) && text::trim(path) == path
        }
}

/// Whatever the metadata of a workspace holds, the transport that it describes, if it describes
/// one, is sound.
pub proof fn law_transport_is_sound(meta: JsonTree)
    ensures
        wsl_transport::meta_transport(meta) matches Some(transport) ==> sound(transport),
{
    if let Some(transport) = wsl_transport::meta_transport(meta) {
        assert forall|bin: Seq<char>| #[trigger]
            transport.engine_paths.contains_key(bin) implies ({
            let path = transport.engine_paths[bin];
            !text::blank(path) && text::trim(path) == path
        }) by {
            let value = match meta.get("ssh"@) {
                Some(ssh) => ssh,
                None => meta.get("wsl"@)->0,
            };
            let fields = value.get("enginePaths"@)->0.object()->0;
            assert(transport.engine_paths == wsl_transport::path_fields(fields));
            text::lemma_trim_twice(fields[bin].text()->0);
        }
    }
}

/// A workspace with an `ssh` field is on a plain host, and one with only a `wsl` field is in a
/// distribution.
pub proof fn law_field_decides_the_host(meta: JsonTree)
    ensures
        wsl_transport::meta_transport(meta) matches Some(transport) ==> (transport.distro is None
            <==> meta.get("ssh"@) is Some),
{
}

// ---------------------------------------------------------------------------
// Command lines
// ---------------------------------------------------------------------------
/// The destination of a call by a sound transport cannot be taken for an option, and the first mark
/// that ends the options of the call stands right before the destination.
pub proof fn law_destination_is_no_option(transport: TransportView)
    requires
        sound(transport),
    ensures
        wsl_transport::target(transport)[0] != '-',
        ({
            let args = wsl_transport::ssh_base(transport).args;
            let n = args.len() - 2;
            &&& n >= 0
            &&& args[n] == "--"@
            &&& args[n + 1] == wsl_transport::target(transport)
            &&& forall|i: int| 0 <= i < n ==> #[trigger] args[i] != "--"@
        }),
{
    reveal_strlit("--");
    reveal_strlit("-o");
    reveal_strlit("-p");
    reveal_strlit("StrictHostKeyChecking=accept-new");
    reveal_strlit("ConnectTimeout=10");
    reveal_strlit("ControlPath=");
    reveal_strlit("BatchMode=yes");
    let port = number::decimal(transport.port as nat);
    number::lemma_decimal(transport.port as nat);
    assert(wsl_transport::target(transport)[0] == transport.user[0]);
    let options = wsl_transport::options(transport);
    let args = wsl_transport::ssh_base(transport).args;
    assert("-o"@[1] != "--"@[1]);
    assert("-p"@[1] != "--"@[1]);
    assert("StrictHostKeyChecking=accept-new"@[0] != "--"@[0]);
    assert("ConnectTimeout=10"@[0] != "--"@[0]);
    assert("BatchMode=yes"@[0] != "--"@[0]);
    assert(port[0] != "--"@[0]);
    if let Some(path) = transport.control_path {
        assert(("ControlPath="@ + path)[0] != "--"@[0]);
    }
    assert forall|i: int| 0 <= i < options.len() implies #[trigger] args[i] != "--"@ by {
        assert(args[i] == options[i]);
    }
}

/// Letters, digits and marks that no shell of a host evaluates between double quotes, and the
/// double quotes and spaces themselves.
pub open spec fn inert(c: char) -> bool {
    text::alnum(c) || c == '/' || c == '_' || c == '.' || c == '-' || c == '~' || c == ' ' || c == '"'
}

/// Each character is inert.
pub open spec fn all_inert(s: Seq<char>) -> bool {
    forall|i: int| 0 <= i < s.len() ==> inert(#[trigger] s[i])
}

proof fn lemma_inert_joined(words: Seq<Seq<char>>)
    requires
        forall|k: int| 0 <= k < words.len() ==> all_inert(#[trigger] words[k]),
    ensures
        all_inert(split::joined(wsl_transport::double_quoted_all(words), " "@)),
    decreases words.len(),
{
    reveal_strlit(" ");
    let list = wsl_transport::double_quoted_all(words);
    if words.len() > 0 {
        assert(all_inert(words.last())) by {
            assert(words[words.len() - 1] == words.last());
        }
        assert(all_inert(list.last()));
        if words.len() > 1 {
            let rest = words.drop_last();
            assert forall|k: int| 0 <= k < rest.len() implies all_inert(#[trigger] rest[k]) by {
                assert(rest[k] == words[k]);
            }
            lemma_inert_joined(rest);
            assert(wsl_transport::double_quoted_all(rest) =~= list.drop_last());
        }
    }
}

/// A remote command string of inert words holds nothing but inert characters: no dollar sign,
/// backquote, percent sign, bar, or other character that the shells of a host give a meaning.
pub proof fn law_remote_string_is_inert(transport: TransportView, words: Seq<Seq<char>>)
    requires
        sound(transport),
        forall|k: int| 0 <= k < words.len() ==> all_inert(#[trigger] words[k]),
    ensures
        all_inert(wsl_transport::remote_string(transport, words)),
{
    lemma_inert_joined(words);
    if let Some(distro) = transport.distro {
        reveal_strlit("wsl.exe -d \"");
        reveal_strlit("\" -- ");
        text::lemma_without_none(distro, '"');
        assert(all_inert("wsl.exe -d \""@));
        assert(all_inert("\" -- "@));
        assert(all_inert(distro));
    }
}

/// The name of a distribution in a remote command string is the one of the transport, as it is.
pub proof fn law_distribution_is_kept(transport: TransportView)
    requires
        sound(transport),
    ensures
        transport.distro matches Some(distro) ==> text::without(distro, '"') == distro,
{
    if let Some(distro) = transport.distro {
        text::lemma_without_none(distro, '"');
    }
}

/// The calls that store and run a script hold nothing but inert characters in their command
/// strings.
pub proof fn law_script_calls_are_inert(transport: TransportView, id: Seq<char>)
    requires
        sound(transport),
        ids::simple_id(id),
    ensures
        all_inert(remote_run::upload_call(transport, id).args.last()),
        all_inert(remote_run::run_call(transport, id).args.last()),
{
    reveal_strlit("tee");
    reveal_strlit("bash");
    reveal_strlit("/tmp/ccgui-wsl-");
    reveal_strlit(".sh");
    let path = remote_run::script_path(id);
    assert(all_inert("/tmp/ccgui-wsl-"@));
    assert(all_inert(".sh"@));
    assert(all_inert(path)) by {
        assert forall|i: int| 0 <= i < path.len() implies inert(#[trigger] path[i]) by {
            let n = "/tmp/ccgui-wsl-"@.len() as int;
            if n <= i < n + 32 {
                assert(ids::hex(id[i - n]));
            }
        }
    }
    law_remote_string_is_inert(transport, seq!["tee"@, path]);
    law_remote_string_is_inert(transport, seq!["bash"@, path]);
}

// ---------------------------------------------------------------------------
// Scripts
// ---------------------------------------------------------------------------
/// The variables that go along to a host are those that have a value and a name that a shell takes.
pub proof fn law_exported(
    envs: Seq<(Seq<char>, Option<Seq<char>>)>,
    name: Seq<char>,
    value: Seq<char>,
)
    ensures
        script::exported(envs).contains((name, value)) <==> script::shell_name(name)
            && envs.contains((name, Some(value))),
    decreases envs.len(),
{
    if envs.len() > 0 {
        let rest = envs.drop_last();
        let all = script::exported(envs);
        law_exported(rest, name, value);
        if all.contains((name, value)) {
            let i = choose|i: int| 0 <= i < all.len() && all[i] == (name, value);
            if i < script::exported(rest).len() {
                assert(script::exported(rest)[i] == (name, value));
                let k = choose|k: int| 0 <= k < rest.len() && rest[k] == (name, Some(value));
                assert(envs[k] == (name, Some(value)));
            } else {
                assert(envs[envs.len() - 1] == (name, Some(value)));
            }
        }
        if script::shell_name(name) && envs.contains((name, Some(value))) {
            let k = choose|k: int| 0 <= k < envs.len() && envs[k] == (name, Some(value));
            if k < rest.len() {
                assert(rest[k] == (name, Some(value)));
                let i = choose|i: int|
                    0 <= i < script::exported(rest).len() && script::exported(rest)[i] == (
                        name,
                        value,
                    );
                assert(all[i] == (name, value));
            } else {
                assert(all[all.len() - 1] == (name, value));
            }
        }
    }
}

/// A shell reads the line that sets a variable as one assignment of exactly its value.
pub proof fn law_export_line_words(name: Seq<char>, value: Seq<char>)
    requires
        script::shell_name(name),
    ensures
        shell::shell_words("export "@ + name + "="@ + shell::quoted(value)) == Some(
            seq!["export"@, name + "="@ + value],
        ),
{
    reveal_strlit("export ");
    reveal_strlit("export");
    reveal_strlit("=");
    let start = Reader::start();
    let left = name + "="@;
    let line = "export "@ + name + "="@ + shell::quoted(value);
    assert(line =~= ("export"@ + seq![' ']) + left + shell::quoted(value));
    shell::lemma_run_add(start, "export"@ + seq![' '] + left, shell::quoted(value));
    shell::lemma_run_add(start, "export"@ + seq![' '], left);
    shell::lemma_run_add(start, "export"@, seq![' ']);
    shell::lemma_run_literal(start, "export"@);
    let word = start.with("export"@, Mode::Plain);
    assert(word.so_far() =~= "export"@);
    shell::lemma_run_one(word, ' ');
    let gap = word.step(' ');
    assert(shell::literal(left)) by {
        assert forall|i: int| 0 <= i < left.len() implies ({
            let c = #[trigger] left[i];
            !shell::special(c) && c != ' ' && c != '\t' && c != '\'' && c != '\\'
        }) by {
            if i < name.len() {
                assert(script::name_char(name[i]));
            }
        }
    }
    shell::lemma_run_literal(gap, left);
    shell::lemma_run_quoted(gap.with(left, Mode::Plain), value);
    assert(gap.with(left, Mode::Plain).with(value, Mode::Plain).so_far() =~= left + value);
    assert(shell::shell_words(line)->0 =~= seq!["export"@, name + "="@ + value]);
}

/// A shell reads the command that enters a workspace as that path alone.
pub proof fn law_cd_words(ws: Seq<char>)
    requires
        wsl_transport::safe_workspace(ws),
    ensures
        shell::shell_words("cd "@ + ws) == Some(seq!["cd"@, ws]),
{
    reveal_strlit("cd ");
    reveal_strlit("cd");
    let start = Reader::start();
    assert("cd "@ + ws =~= ("cd"@ + seq![' ']) + ws);
    shell::lemma_run_add(start, "cd"@ + seq![' '], ws);
    shell::lemma_run_add(start, "cd"@, seq![' ']);
    shell::lemma_run_literal(start, "cd"@);
    let word = start.with("cd"@, Mode::Plain);
    assert(word.so_far() =~= "cd"@);
    shell::lemma_run_one(word, ' ');
    let gap = word.step(' ');
    assert(shell::literal(ws)) by {
        assert forall|i: int| 0 <= i < ws.len() implies ({
            let c = #[trigger] ws[i];
            !shell::special(c) && c != ' ' && c != '\t' && c != '\'' && c != '\\'
        }) by {
            assert(wsl_transport::workspace_char(ws[i]));
        }
    }
    shell::lemma_run_literal(gap, ws);
    assert(gap.with(ws, Mode::Plain).so_far() =~= ws);
    assert(shell::shell_words("cd "@ + ws)->0 =~= seq!["cd"@, ws]);
}

/// A shell reads the command that starts a program with a known place as that place and exactly its
/// arguments, whatever they hold.
pub proof fn law_exec_words(place: Seq<char>, args: Seq<Seq<char>>)
    requires
        !split::starts(place, "__RESOLVE__"@),
    ensures
        shell::shell_words(script::exec_words(place) + shell::quoted_args(args)) == Some(
            seq!["exec"@, place] + args,
        ),
{
    reveal_strlit("exec ");
    reveal_strlit("exec");
    shell::lemma_quoted_args_first(place, args);
    assert(script::exec_words(place) + shell::quoted_args(args) =~= "exec"@ + shell::quoted_args(
        seq![place] + args,
    ));
    shell::law_quoted_command_words("exec"@, seq![place] + args);
    assert(seq!["exec"@] + (seq![place] + args) =~= seq!["exec"@, place] + args);
}

/// The commands that set the exported variables.
pub open spec fn export_commands(envs: Seq<(Seq<char>, Seq<char>)>) -> Seq<Seq<char>> {
    envs.map_values(
        |env: (Seq<char>, Seq<char>)| "export "@ + env.0 + "="@ + shell::quoted(env.1),
    )
}

/// The command that enters the workspace, where there is one.
pub open spec fn cd_commands(workspace: Option<Seq<char>>) -> Seq<Seq<char>> {
    match workspace {
        Some(ws) => seq!["cd "@ + ws + " || exit 61"@],
        None => seq![],
    }
}

/// The commands that start the program: the last one does, with its arguments. One that is to be
/// found on the host is looked for first.
pub open spec fn exec_commands(place: Seq<char>, args: Seq<Seq<char>>) -> Seq<Seq<char>> {
    if split::starts(place, "__RESOLVE__"@) {
        seq![
            "bin=$(bash -lc "@ + shell::quoted(
                "command -v "@ + place.skip("__RESOLVE__"@.len() as int),
            ) + ") || exit 62"@,
            "exec \"$bin\""@ + shell::quoted_args(args),
        ]
    } else {
        seq!["exec "@ + shell::quoted(place) + shell::quoted_args(args)]
    }
}

proof fn lemma_export_commands(script: Seq<char>, envs: Seq<(Seq<char>, Seq<char>)>)
    requires
        shell::shell_commands(script) is Some,
        forall|i: int| 0 <= i < envs.len() ==> script::shell_name((#[trigger] envs[i]).0),
    ensures
        shell::shell_commands(script + script::export_lines(envs)) == Some(
            shell::shell_commands(script)->0 + export_commands(envs),
        ),
    decreases envs.len(),
{
    let all = script::export_lines(envs);
    if envs.len() == 0 {
        assert(script + all =~= script);
        assert(shell::shell_commands(script)->0 + export_commands(envs)
            =~= shell::shell_commands(script)->0);
    } else {
        let rest = envs.drop_last();
        let (name, value) = envs[envs.len() - 1];
        assert forall|i: int| 0 <= i < rest.len() implies script::shell_name(
            (#[trigger] rest[i]).0,
        ) by {
            assert(rest[i] == envs[i]);
        }
        lemma_export_commands(script, rest);
        reveal_strlit("export ");
        reveal_strlit("=");
        reveal_strlit("\n");
        let head = "export "@ + name + "="@;
        assert forall|i: int| 0 <= i < head.len() implies shell::bare(#[trigger] head[i]) by {
            let n = "export "@.len() as int;
            if n <= i < n + name.len() {
                assert(script::name_char(name[i - n]));
            }
        }
        shell::lemma_line_bare(head);
        shell::lemma_line_quoted(value);
        shell::lemma_line_add(head, shell::quoted(value));
        let before = script + script::export_lines(rest);
        let line = head + shell::quoted(value);
        shell::lemma_commands_push(before, line);
        assert(before + line + seq!['\n'] =~= script + all);
        assert(shell::shell_commands(before)->0.push(line) =~= shell::shell_commands(script)->0
            + export_commands(envs));
    }
}

proof fn lemma_cd_commands(script: Seq<char>, workspace: Option<Seq<char>>)
    requires
        shell::shell_commands(script) is Some,
        script::workspace_fits(workspace),
    ensures
        shell::shell_commands(script + script::cd_line(workspace)) == Some(
            shell::shell_commands(script)->0 + cd_commands(workspace),
        ),
{
    let commands = shell::shell_commands(script)->0;
    match workspace {
        Some(ws) => {
            reveal_strlit("cd ");
            reveal_strlit(" || exit 61");
            reveal_strlit(" || exit 61\n");
            let line = "cd "@ + ws + " || exit 61"@;
            assert forall|i: int| 0 <= i < line.len() implies shell::bare(#[trigger] line[i]) by {
                if 3 <= i < 3 + ws.len() {
                    assert(wsl_transport::workspace_char(ws[i - 3]));
                }
            }
            shell::lemma_line_bare(line);
            shell::lemma_commands_push(script, line);
            assert(script + line + seq!['\n'] =~= script + script::cd_line(workspace));
            assert(commands.push(line) =~= commands + cd_commands(workspace));
        },
        None => {
            assert(script + script::cd_line(workspace) =~= script);
            assert(commands + cd_commands(workspace) =~= commands);
        },
    }
}

proof fn lemma_find_command(script: Seq<char>, base: Seq<char>)
    requires
        shell::shell_commands(script) is Some,
    ensures
        ({
            let line = "bin=$(bash -lc "@ + shell::quoted("command -v "@ + base) + ") || exit 62"@;
            shell::shell_commands(
                script + ("bin=$(bash -lc "@ + shell::quoted("command -v "@ + base)
                    + ") || exit 62\n"@),
            ) == Some(shell::shell_commands(script)->0.push(line))
        }),
{
    reveal_strlit("bin=$(bash -lc ");
    reveal_strlit(") || exit 62");
    reveal_strlit(") || exit 62\n");
    let lookup = shell::quoted("command -v "@ + base);
    let line = "bin=$(bash -lc "@ + lookup + ") || exit 62"@;
    shell::lemma_line_bare("bin=$(bash -lc "@);
    shell::lemma_line_quoted("command -v "@ + base);
    shell::lemma_line_bare(") || exit 62"@);
    shell::lemma_line_add("bin=$(bash -lc "@, lookup);
    shell::lemma_line_add("bin=$(bash -lc "@ + lookup, ") || exit 62"@);
    shell::lemma_commands_push(script, line);
    assert(script + line + seq!['\n'] =~= script + ("bin=$(bash -lc "@ + lookup
        + ") || exit 62\n"@));
}

proof fn lemma_exec_commands(script: Seq<char>, place: Seq<char>, args: Seq<Seq<char>>)
    requires
        shell::shell_commands(script) is Some,
    ensures
        shell::shell_commands(
            script + script::exec_words(place) + shell::quoted_args(args) + "\n"@,
        ) == Some(shell::shell_commands(script)->0 + exec_commands(place, args)),
{
    reveal_strlit("\n");
    let commands = shell::shell_commands(script)->0;
    let tail = shell::quoted_args(args);
    let whole = script + script::exec_words(place) + tail + "\n"@;
    shell::lemma_line_quoted_args(args);
    if split::starts(place, "__RESOLVE__"@) {
        let base = place.skip("__RESOLVE__"@.len() as int);
        let find = "bin=$(bash -lc "@ + shell::quoted("command -v "@ + base) + ") || exit 62\n"@;
        lemma_find_command(script, base);
        reveal_strlit("exec \"$bin\"");
        let start = "exec \"$bin\""@;
        let exec = seq!['e', 'x', 'e', 'c', ' '];
        let bin = seq!['$', 'b', 'i', 'n'];
        assert(start =~= exec + (seq!['"'] + bin + seq!['"']));
        shell::lemma_line_bare(exec);
        shell::lemma_line_double(bin);
        shell::lemma_line_add(exec, seq!['"'] + bin + seq!['"']);
        shell::lemma_line_add(start, tail);
        shell::lemma_commands_push(script + find, start + tail);
        assert(script + find + (start + tail) + seq!['\n'] =~= whole);
        assert(shell::shell_commands(script + find)->0.push(start + tail) =~= commands
            + exec_commands(place, args));
    } else {
        reveal_strlit("exec ");
        let line = "exec "@ + shell::quoted(place) + tail;
        shell::lemma_line_bare("exec "@);
        shell::lemma_line_quoted(place);
        shell::lemma_line_add("exec "@, shell::quoted(place));
        shell::lemma_line_add("exec "@ + shell::quoted(place), tail);
        shell::lemma_commands_push(script, line);
        assert(script + line + seq!['\n'] =~= whole);
        assert(commands.push(line) =~= commands + exec_commands(place, args));
    }
}

/// Whatever the arguments, the values of the variables and the place of the program hold, a shell
/// reads a script as exactly these commands: it stops at the first failure, deletes its own file,
/// sets each variable, enters the workspace, and starts the program.
pub proof fn law_script_commands(
    place: Seq<char>,
    args: Seq<Seq<char>>,
    envs: Seq<(Seq<char>, Seq<char>)>,
    workspace: Option<Seq<char>>,
)
    requires
        script::workspace_fits(workspace),
        forall|i: int| 0 <= i < envs.len() ==> script::shell_name((#[trigger] envs[i]).0),
    ensures
        shell::shell_commands(script::script_at(place, args, envs, workspace)) == Some(
            seq!["set -e"@, "rm -f \"$0\""@] + export_commands(envs) + cd_commands(workspace)
                + exec_commands(place, args),
        ),
{
    reveal_strlit("set -e");
    reveal_strlit("set -e\n");
    reveal_strlit("rm -f \"$0\"");
    reveal_strlit("rm -f \"$0\"\n");
    let empty = Seq::<char>::empty();
    assert(shell::shell_commands(empty) == Some(Seq::<Seq<char>>::empty()));
    shell::lemma_line_bare("set -e"@);
    shell::lemma_commands_push(empty, "set -e"@);
    let first = "set -e\n"@;
    assert(empty + "set -e"@ + seq!['\n'] =~= first);
    let rm = seq!['r', 'm', ' ', '-', 'f', ' '];
    let zero = seq!['$', '0'];
    shell::lemma_line_bare(rm);
    shell::lemma_line_double(zero);
    shell::lemma_line_add(rm, seq!['"'] + zero + seq!['"']);
    assert("rm -f \"$0\""@ =~= rm + (seq!['"'] + zero + seq!['"']));
    shell::lemma_commands_push(first, "rm -f \"$0\""@);
    let head = first + "rm -f \"$0\"\n"@;
    assert(first + "rm -f \"$0\""@ + seq!['\n'] =~= head);
    assert(shell::shell_commands(head)->0 =~= seq!["set -e"@, "rm -f \"$0\""@]);
    lemma_export_commands(head, envs);
    lemma_cd_commands(head + script::export_lines(envs), workspace);
    lemma_exec_commands(
        head + script::export_lines(envs) + script::cd_line(workspace),
        place,
        args,
    );
}

/// The script of a wrapped command is read as exactly the commands that set its variables and start
/// its program, whatever the command holds.
pub proof fn law_wrapped_commands(command: CommandView, base: Seq<char>, transport: TransportView)
    requires
        script::workspace_fits(transport.workspace),
    ensures
        shell::shell_commands(remote_run::command_script(command, base, transport)) == Some(
            seq!["set -e"@, "rm -f \"$0\""@] + export_commands(script::exported(command.envs))
                + cd_commands(transport.workspace) + exec_commands(
                script::resolved(command.program, base, transport.engine_paths),
                command.args,
            ),
        ),
{
    let envs = script::exported(command.envs);
    assert forall|i: int| 0 <= i < envs.len() implies script::shell_name(
        (#[trigger] envs[i]).0,
    ) by {
        let (name, value) = envs[i];
        assert(envs.contains((name, value)));
        law_exported(command.envs, name, value);
    }
    law_script_commands(
        script::resolved(command.program, base, transport.engine_paths),
        command.args,
        envs,
        transport.workspace,
    );
}

/// Where a program without an engine path of its own is on this machine makes no difference to the
/// script: only its name does.
pub proof fn law_local_place_is_dropped(
    program: Seq<char>,
    other: Seq<char>,
    args: Seq<Seq<char>>,
    envs: Seq<(Seq<char>, Seq<char>)>,
    transport: TransportView,
)
    requires
        paths::base_name(program) == paths::base_name(other),
        !transport.engine_paths.contains_key(program),
        !transport.engine_paths.contains_key(other),
    ensures
        script::script_text(program, paths::base_name(program), args, envs, transport)
            == script::script_text(other, paths::base_name(other), args, envs, transport),
{
}

/// A script for a workspace that may not stand in one does nothing but fail, whatever it was to
/// run.
pub proof fn law_unfit_workspace_is_refused(
    program: Seq<char>,
    base: Seq<char>,
    args: Seq<Seq<char>>,
    envs: Seq<(Seq<char>, Seq<char>)>,
    transport: TransportView,
)
    requires
        transport.workspace matches Some(ws) && !wsl_transport::safe_workspace(ws),
    ensures
        script::script_text(program, base, args, envs, transport) == script::refusal(),
{
}

// ---------------------------------------------------------------------------
// Output
// ---------------------------------------------------------------------------
/// The lines that are no noise.
pub open spec fn kept(lines: Seq<Seq<char>>) -> Seq<Seq<char>>
    decreases lines.len(),
{
    if lines.len() == 0 {
        seq![]
    } else if remote_run::noise(lines.last()) {
        kept(lines.drop_last())
    } else {
        kept(lines.drop_last()).push(lines.last())
    }
}

/// A line of a text: without a line feed.
pub open spec fn one_line(line: Seq<char>) -> bool {
    forall|i: int| 0 <= i < line.len() ==> #[trigger] line[i] != '\n'
}

/// A line without NUL characters.
pub open spec fn no_nul(line: Seq<char>) -> bool {
    forall|i: int| 0 <= i < line.len() ==> #[trigger] line[i] != '\0'
}

proof fn lemma_kept(lines: Seq<Seq<char>>)
    ensures
        remote_run::payload(kept(lines)) == remote_run::payload(lines),
        forall|i: int|
            0 <= i < kept(lines).len() ==> !remote_run::noise(#[trigger] kept(lines)[i])
                && lines.contains(kept(lines)[i]),
    decreases lines.len(),
{
    if lines.len() > 0 {
        let rest = lines.drop_last();
        lemma_kept(rest);
        assert(lines.last() == lines[lines.len() - 1]);
        assert forall|i: int| 0 <= i < kept(lines).len() implies !remote_run::noise(
            #[trigger] kept(lines)[i],
        ) && lines.contains(kept(lines)[i]) by {
            if i < kept(rest).len() {
                assert(kept(rest)[i] == kept(lines)[i]);
                let k = choose|k: int| 0 <= k < rest.len() && rest[k] == kept(rest)[i];
                assert(lines[k] == kept(lines)[i]);
            }
        }
        if !remote_run::noise(lines.last()) {
            assert(kept(lines).drop_last() =~= kept(rest));
        }
    }
}

proof fn lemma_payload_lines(lines: Seq<Seq<char>>)
    requires
        forall|i: int|
            0 <= i < lines.len() ==> one_line(#[trigger] lines[i]) && !remote_run::noise(lines[i]),
    ensures
        remote_run::payload(lines).len() > 0 ==> remote_run::payload(lines).last() == '\n',
        split::lines(remote_run::payload(lines)) == lines.map_values(
            |line: Seq<char>| split::drop_cr(line),
        ),
    decreases lines.len(),
{
    if lines.len() == 0 {
        assert(split::lines(remote_run::payload(lines)) =~= lines.map_values(
            |line: Seq<char>| split::drop_cr(line),
        ));
    } else {
        let rest = lines.drop_last();
        assert forall|i: int| 0 <= i < rest.len() implies one_line(#[trigger] rest[i])
            && !remote_run::noise(rest[i]) by {
            assert(rest[i] == lines[i]);
        }
        lemma_payload_lines(rest);
        let last = lines[lines.len() - 1];
        split::lemma_lines_push(remote_run::payload(rest), last);
        assert(split::lines(remote_run::payload(lines)) =~= lines.map_values(
            |line: Seq<char>| split::drop_cr(line),
        ));
    }
}

proof fn lemma_payload_no_nul(lines: Seq<Seq<char>>)
    requires
        forall|i: int| 0 <= i < lines.len() ==> no_nul(#[trigger] lines[i]),
    ensures
        no_nul(remote_run::payload(lines)),
    decreases lines.len(),
{
    if lines.len() > 0 {
        let rest = lines.drop_last();
        assert forall|i: int| 0 <= i < rest.len() implies no_nul(#[trigger] rest[i]) by {
            assert(rest[i] == lines[i]);
        }
        lemma_payload_no_nul(rest);
        assert(no_nul(lines[lines.len() - 1]));
    }
}

/// Lines that are no noise come through as they are.
pub proof fn law_payload_passes(lines: Seq<Seq<char>>)
    requires
        forall|i: int|
            0 <= i < lines.len() ==> {
                let line = #[trigger] lines[i];
                &&& one_line(line)
                &&& no_nul(line)
                &&& split::drop_cr(line) == line
                &&& !remote_run::noise(line)
            },
    ensures
        remote_run::denoised(remote_run::payload(lines)) == remote_run::payload(lines),
{
    let output = remote_run::payload(lines);
    assert forall|i: int| 0 <= i < lines.len() implies no_nul(#[trigger] lines[i]) by {}
    lemma_payload_no_nul(lines);
    text::lemma_without_none(output, '\0');
    assert forall|i: int| 0 <= i < lines.len() implies one_line(#[trigger] lines[i])
        && !remote_run::noise(lines[i]) by {}
    lemma_payload_lines(lines);
    assert(lines.map_values(|line: Seq<char>| split::drop_cr(line)) =~= lines) by {
        assert forall|i: int| 0 <= i < lines.len() implies split::drop_cr(#[trigger] lines[i])
            == lines[i] by {}
    }
}

/// The lines of a clean text.
proof fn lemma_clean_lines(output: Seq<char>)
    ensures
        ({
            let lines = split::lines(text::without(output, '\0'));
            forall|i: int|
                0 <= i < lines.len() ==> one_line(#[trigger] lines[i]) && no_nul(lines[i])
        }),
{
    let clean = text::without(output, '\0');
    let lines = split::lines(clean);
    text::lemma_without(output, '\0');
    split::lemma_lines(clean);
    assert forall|i: int| 0 <= i < lines.len() implies one_line(#[trigger] lines[i]) && no_nul(
        lines[i],
    ) by {
        assert forall|k: int| 0 <= k < lines[i].len() implies #[trigger] lines[i][k] != '\n'
            && lines[i][k] != '\0' by {
            assert(clean.contains(lines[i][k]));
            let n = choose|n: int| 0 <= n < clean.len() && clean[n] == lines[i][k];
            assert(clean[n] != '\0');
        }
    }
}

/// Stripping an output twice is stripping it once, unless one of its lines ends in a carriage
/// return beside that of the line's end.
pub proof fn law_denoised_twice(output: Seq<char>)
    requires
        ({
            let lines = split::lines(text::without(output, '\0'));
            forall|i: int|
                0 <= i < lines.len() ==> split::drop_cr(#[trigger] lines[i]) == lines[i]
        }),
    ensures
        remote_run::denoised(remote_run::denoised(output)) == remote_run::denoised(output),
{
    let lines = split::lines(text::without(output, '\0'));
    lemma_clean_lines(output);
    lemma_kept(lines);
    let payload = kept(lines);
    assert forall|i: int| 0 <= i < payload.len() implies ({
        let line = #[trigger] payload[i];
        &&& one_line(line)
        &&& no_nul(line)
        &&& split::drop_cr(line) == line
        &&& !remote_run::noise(line)
    }) by {
        let k = choose|k: int| 0 <= k < lines.len() && lines[k] == payload[i];
        assert(one_line(lines[k]));
        assert(split::drop_cr(lines[k]) == lines[k]);
    }
    law_payload_passes(payload);
}

/// A line that is noise without the carriage return at its end is noise with it.
proof fn lemma_noise_cr(line: Seq<char>)
    requires
        remote_run::noise(split::drop_cr(line)),
    ensures
        remote_run::noise(line),
{
    reveal_strlit("wsl:");
    reveal_strlit("wsl.");
    let short = split::drop_cr(line);
    if short != line {
        let solid = |c: char| !text::white(c);
        text::lemma_first_where(short, solid);
        let i = text::first_where(short, solid);
        assert forall|j: int| 0 <= j < i implies text::white(#[trigger] short[j]) by {
            assert(!solid(short[j]));
        }
        if i < short.len() {
            assert(solid(short[i]));
        }
        text::lemma_trim_start(short, i);
        assert(i < short.len());
        assert forall|j: int| 0 <= j < i implies text::white(#[trigger] line[j]) by {
            assert(line[j] == short[j]);
        }
        text::lemma_trim_start(line, i);
        assert(line.skip(i).take(4) =~= short.skip(i).take(4));
    }
}

/// What is left of an output has no NUL character, and none of its lines is noise.
pub proof fn law_denoised_is_clean(output: Seq<char>)
    ensures
        no_nul(remote_run::denoised(output)),
        ({
            let lines = split::lines(remote_run::denoised(output));
            forall|i: int| 0 <= i < lines.len() ==> !remote_run::noise(#[trigger] lines[i])
        }),
{
    let lines = split::lines(text::without(output, '\0'));
    lemma_clean_lines(output);
    lemma_kept(lines);
    let payload = kept(lines);
    assert forall|i: int| 0 <= i < payload.len() implies one_line(#[trigger] payload[i]) && no_nul(
        payload[i],
    ) && !remote_run::noise(payload[i]) by {
        let k = choose|k: int| 0 <= k < lines.len() && lines[k] == payload[i];
        assert(one_line(lines[k]));
    }
    lemma_payload_no_nul(payload);
    lemma_payload_lines(payload);
    let left = split::lines(remote_run::denoised(output));
    assert forall|i: int| 0 <= i < left.len() implies !remote_run::noise(#[trigger] left[i]) by {
        assert(left[i] == split::drop_cr(payload[i]));
        if remote_run::noise(left[i]) {
            lemma_noise_cr(payload[i]);
        }
    }
}

// ---------------------------------------------------------------------------
// Turns of the Muse engine
// ---------------------------------------------------------------------------
/// Whatever a prompt holds, it is the last argument of its turn, right behind the mark that ends the
/// options.
pub proof fn law_prompt_is_no_option(req: SendRequest)
    ensures
        ({
            let args = muse::turn_args(req);
            let n = args.len() - 2;
            &&& n >= 0
            &&& args[n] == "--"@
            &&& args[n + 1] == req.prompt@
        }),
{
}

/// What lines report does not depend on how they come in pieces.
pub proof fn law_events_add_up(lines: Seq<Seq<char>>, more: Seq<Seq<char>>)
    ensures
        muse::all_events(lines + more) == muse::all_events(lines) + muse::all_events(more),
    decreases more.len(),
{
    if more.len() == 0 {
        assert(lines + more =~= lines);
        assert(muse::all_events(lines + more) =~= muse::all_events(lines) + muse::all_events(more));
    } else {
        law_events_add_up(lines, more.drop_last());
        assert((lines + more).drop_last() =~= lines + more.drop_last());
        assert(muse::all_events(lines + more) =~= muse::all_events(lines) + muse::all_events(more));
    }
}

/// A line reports one event at most.
pub proof fn law_one_event_per_line(lines: Seq<Seq<char>>)
    ensures
        muse::all_events(lines).len() <= lines.len(),
    decreases lines.len(),
{
    if lines.len() > 0 {
        law_one_event_per_line(lines.drop_last());
    }
}

/// An envelope that ends the turn reports that it is over or that it has failed, and no other
/// envelope does.
pub proof fn law_terminal_ends_the_turn(value: JsonTree)
    ensures
        ({
            let kind = muse::or_empty(value.text_at("payload_type"@));
            split::starts(kind, "run.terminal."@) <==> (muse::event_of(value) matches Some(event)
                && (event is Done || event is Error))
        }),
{
    reveal_strlit("run.terminal.");
    reveal_strlit("run.output.delta");
    reveal_strlit("run.lifecycle.started");
    reveal_strlit("run.model.configured");
    let kind = muse::or_empty(value.text_at("payload_type"@));
    if split::starts(kind, "run.terminal."@) {
        assert(kind.take(13)[4] == 't');
        assert("run.output.delta"@[4] == 'o');
        assert("run.lifecycle.started"@[4] == 'l');
        assert("run.model.configured"@[4] == 'm');
    }
}

} // verus!
