//! The script that runs an engine command on a host.
use crate::engine::command;
use crate::engine::command::CommandLine;
use crate::engine::wsl_transport;
use crate::engine::wsl_transport::TransportView;
use crate::engine::wsl_transport::WslTransport;
use crate::paths;
use crate::shell;
use crate::split;
use crate::table;
use crate::text;
use vstd::prelude::*;

verus! {

// ---------------------------------------------------------------------------
// What a command brings along
// ---------------------------------------------------------------------------
/// A character of a shell variable's name.
pub open spec fn name_char(c: char) -> bool {
    text::alnum(c) || c == '_'
}

/// The name of a shell variable.
pub open spec fn shell_name(s: Seq<char>) -> bool {
    &&& s.len() > 0
    &&& !('0' <= s[0] && s[0] <= '9')
    &&& forall|i: int| 0 <= i < s.len() ==> name_char(#[trigger] s[i])
}

/// Tells whether `s` can be the name of a shell variable.
pub fn is_shell_name(s: &str) -> (r: bool)
    ensures
        r == shell_name(s@),
{
    let chars: Vec<char> = text::chars_of(s);
    if chars.len() == 0 || ('0' <= chars[0] && chars[0] <= '9') {
        return false;
    }
    let mut i: usize = 0;
    while i < chars.len()
        invariant
            i <= chars@.len(),
            chars@ == s@,
            forall|j: int| 0 <= j < i ==> name_char(#[trigger] chars@[j]),
        decreases chars.len() - i,
    {
        let c: char = chars[i];
        if !(text::is_alnum(c) || c == '_') {
            return false;
        }
        i = i + 1;
    }
    true
}

/// The variables that go along to the host: those with a value, under a name that a shell takes.
pub open spec fn exported(envs: Seq<(Seq<char>, Option<Seq<char>>)>) -> Seq<(Seq<char>, Seq<char>)>
    decreases envs.len(),
{
    if envs.len() == 0 {
        seq![]
    } else {
        let rest = exported(envs.drop_last());
        match envs.last().1 {
            Some(value) => if shell_name(envs.last().0) {
                rest.push((envs.last().0, value))
            } else {
                rest
            },
            None => rest,
        }
    }
}

/// The program, the arguments and the exported variables of `command`.
pub fn program_args_env(command: &CommandLine) -> (r: (String, Vec<String>, Vec<(String, String)>))
    ensures
        r.0@ == command@.program,
        split::views(r.1@) == command@.args,
        table::pair_views(r.2@) == exported(command@.envs),
{
    let mut args: Vec<String> = Vec::new();
    let mut i: usize = 0;
    while i < command.args.len()
        invariant
            i <= command.args@.len(),
            split::views(args@) == command@.args.take(i as int),
        decreases command.args.len() - i,
    {
        command::push_arg(&mut args, command.args[i].as_str());
        proof {
            assert(command@.args.take(i + 1) =~= command@.args.take(i as int).push(
                command@.args[i as int],
            ));
        }
        i = i + 1;
    }
    proof {
        assert(command@.args.take(i as int) =~= command@.args);
    }
    let mut envs: Vec<(String, String)> = Vec::new();
    let ghost all = command@.envs;
    let mut k: usize = 0;
    while k < command.envs.len()
        invariant
            k <= command.envs@.len(),
            all == command@.envs,
            table::pair_views(envs@) == exported(all.take(k as int)),
        decreases command.envs.len() - k,
    {
        let entry: &(String, Option<String>) = &command.envs[k];
        let ghost before = envs@;
        proof {
            let next = all.take(k + 1);
            assert(next.drop_last() =~= all.take(k as int));
            assert(next.last() == (entry.0@, command::maybe(entry.1)));
        }
        if let Some(value) = &entry.1 {
            if is_shell_name(entry.0.as_str()) {
                envs.push((entry.0.clone(), value.clone()));
                proof {
                    assert(table::pair_views(envs@) =~= table::pair_views(before).push(
                        (entry.0@, value@),
                    ));
                }
            }
        }
        k = k + 1;
    }
    proof {
        assert(all.take(k as int) =~= all);
    }
    (command.program.clone(), args, envs)
}

// ---------------------------------------------------------------------------
// The program on the host
// ---------------------------------------------------------------------------
/// Where the program called `base` is on the host: what the engine paths say of the program or of
/// its name, or else a mark that leaves it to the host to find that name.
pub open spec fn resolved(
    program: Seq<char>,
    base: Seq<char>,
    engine_paths: Map<Seq<char>, Seq<char>>,
) -> Seq<char> {
    if engine_paths.contains_key(program) {
        engine_paths[program]
    } else if engine_paths.contains_key(base) {
        engine_paths[base]
    } else {
        "__RESOLVE__"@ + base
    }
}

/// Where the program called `base` is on the host.
pub fn resolve_named(program: &str, base: &str, transport: &WslTransport) -> (r: String)
    ensures
        r@ == resolved(program@, base@, transport@.engine_paths),
{
    if let Some(path) = transport.engine_paths.get(program) {
        return path.clone();
    }
    if let Some(path) = transport.engine_paths.get(base) {
        return path.clone();
    }
    let mut r: String = "__RESOLVE__".to_owned();
    r.append(base);
    r
}

/// Where `program`, a path on this machine, is on the host.
pub fn resolve_remote_program(program: &str, transport: &WslTransport) -> (r: String)
    ensures
        exists|base: Seq<char>|
            paths::called(program@, base) && r@ == #[trigger] resolved(
                program@,
                base,
                transport@.engine_paths,
            ),
        paths::portable(program@) ==> r@ == resolved(
            program@,
            paths::base_name(program@),
            transport@.engine_paths,
        ),
{
    let base: String = paths::name_of(program);
    resolve_named(program, base.as_str(), transport)
}

// ---------------------------------------------------------------------------
// The script
// ---------------------------------------------------------------------------
/// The lines that set the exported variables.
pub open spec fn export_lines(envs: Seq<(Seq<char>, Seq<char>)>) -> Seq<char>
    decreases envs.len(),
{
    if envs.len() == 0 {
        seq![]
    } else {
        export_lines(envs.drop_last()) + "export "@ + envs.last().0 + "="@ + shell::quoted(
            envs.last().1,
        ) + "\n"@
    }
}

/// The line that enters the workspace.
pub open spec fn cd_line(workspace: Option<Seq<char>>) -> Seq<char> {
    match workspace {
        Some(ws) => "cd "@ + ws + " || exit 61\n"@,
        None => seq![],
    }
}

/// What starts the program: its path, or what a login shell on the host finds under its name.
pub open spec fn exec_words(place: Seq<char>) -> Seq<char> {
    if split::starts(place, "__RESOLVE__"@) {
        "bin=$(bash -lc "@ + shell::quoted(
            "command -v "@ + place.skip("__RESOLVE__"@.len() as int),
        ) + ") || exit 62\n"@ + "exec \"$bin\""@
    } else {
        "exec "@ + shell::quoted(place)
    }
}

/// The workspace, where there is one, may stand in the script.
pub open spec fn workspace_fits(workspace: Option<Seq<char>>) -> bool {
    match workspace {
        Some(ws) => wsl_transport::safe_workspace(ws),
        None => true,
    }
}

/// The script for a workspace that may not stand in one.
pub open spec fn refusal() -> Seq<char> {
    "echo 'workspace 路径含不支持的字符' >&2; exit 60\n"@
}

/// The script that runs the program at `place`: it deletes its own file, sets the variables,
/// enters the workspace, and replaces itself with the program and its arguments.
pub open spec fn script_at(
    place: Seq<char>,
    args: Seq<Seq<char>>,
    envs: Seq<(Seq<char>, Seq<char>)>,
    workspace: Option<Seq<char>>,
) -> Seq<char> {
    if workspace_fits(workspace) {
        "set -e\n"@ + "rm -f \"$0\"\n"@ + export_lines(envs) + cd_line(workspace) + exec_words(
            place,
        ) + shell::quoted_args(args) + "\n"@
    } else {
        refusal()
    }
}

/// The script that runs `program`, which is called `base`, by a transport.
pub open spec fn script_text(
    program: Seq<char>,
    base: Seq<char>,
    args: Seq<Seq<char>>,
    envs: Seq<(Seq<char>, Seq<char>)>,
    transport: TransportView,
) -> Seq<char> {
    script_at(
        resolved(program, base, transport.engine_paths),
        args,
        envs,
        transport.workspace,
    )
}

/// The lines that set the exported variables.
fn write_exports(envs: &[(String, String)]) -> (r: String)
    ensures
        r@ == export_lines(table::pair_views(envs@)),
{
    let mut r: String = String::new();
    let ghost all = table::pair_views(envs@);
    let mut i: usize = 0;
    while i < envs.len()
        invariant
            i <= envs@.len(),
            all == table::pair_views(envs@),
            r@ == export_lines(all.take(i as int)),
        decreases envs.len() - i,
    {
        let entry: &(String, String) = &envs[i];
        proof {
            let next = all.take(i + 1);
            assert(next.drop_last() =~= all.take(i as int));
            assert(next.last() == (entry.0@, entry.1@));
        }
        r.append("export ");
        r.append(entry.0.as_str());
        r.append("=");
        r.append(shell::sh_quote(entry.1.as_str()).as_str());
        r.append("\n");
        i = i + 1;
    }
    proof {
        assert(all.take(i as int) =~= all);
    }
    r
}

/// Each argument, quoted, behind a space.
fn write_args(args: &[String]) -> (r: String)
    ensures
        r@ == shell::quoted_args(split::views(args@)),
{
    let mut r: String = String::new();
    let ghost all = split::views(args@);
    let mut i: usize = 0;
    while i < args.len()
        invariant
            i <= args@.len(),
            all == split::views(args@),
            r@ == shell::quoted_args(all.take(i as int)),
        decreases args.len() - i,
    {
        proof {
            let next = all.take(i + 1);
            assert(next.drop_last() =~= all.take(i as int));
            assert(next.last() == args@[i as int]@);
        }
        r.push(' ');
        r.append(shell::sh_quote(args[i].as_str()).as_str());
        proof {
            assert(r@ =~= shell::quoted_args(all.take(i + 1)));
        }
        i = i + 1;
    }
    proof {
        assert(all.take(i as int) =~= all);
    }
    r
}

/// The script that runs `program`, which is called `base`, by `transport`.
pub fn build_script_named(
    program: &str,
    base: &str,
    args: &[String],
    envs: &[(String, String)],
    transport: &WslTransport,
) -> (r: String)
    ensures
        r@ == script_text(
            program@,
            base@,
            split::views(args@),
            table::pair_views(envs@),
            transport@,
        ),
{
    let mut script: String = "set -e\n".to_owned();
    // The shell reads on from the file that it has open.
    script.append("rm -f \"$0\"\n");
    script.append(write_exports(envs).as_str());
    if let Some(ws) = &transport.workspace {
        if !wsl_transport::is_safe_workspace(ws.as_str()) {
            return "echo 'workspace 路径含不支持的字符' >&2; exit 60\n".to_owned();
        }
        script.append("cd ");
        script.append(ws.as_str());
        script.append(" || exit 61\n");
    }
    let ghost head = script@;
    proof {
        assert(head =~= "set -e\n"@ + "rm -f \"$0\"\n"@ + export_lines(table::pair_views(envs@))
            + cd_line(transport@.workspace));
    }
    let place: String = resolve_named(program, base, transport);
    match split::strip_prefix(place.as_str(), "__RESOLVE__") {
        Some(name) => {
            let mut lookup: String = "command -v ".to_owned();
            lookup.append(name.as_str());
            script.append("bin=$(bash -lc ");
            script.append(shell::sh_quote(lookup.as_str()).as_str());
            script.append(") || exit 62\n");
            script.append("exec \"$bin\"");
        },
        None => {
            script.append("exec ");
            script.append(shell::sh_quote(place.as_str()).as_str());
        },
    }
    proof {
        assert(script@ =~= head + exec_words(place@));
    }
    script.append(write_args(args).as_str());
    script.append("\n");
    script
}

/// The script that runs `program`, a path on this machine, on the host of `transport`.
pub fn build_script(
    program: &str,
    args: &[String],
    envs: &[(String, String)],
    transport: &WslTransport,
) -> (r: String)
    ensures
        exists|base: Seq<char>|
            paths::called(program@, base) && r@ == #[trigger] script_text(
                program@,
                base,
                split::views(args@),
                table::pair_views(envs@),
                transport@,
            ),
        paths::portable(program@) ==> r@ == script_text(
            program@,
            paths::base_name(program@),
            split::views(args@),
            table::pair_views(envs@),
            transport@,
        ),
{
    let base: String = paths::name_of(program);
    build_script_named(program, base.as_str(), args, envs, transport)
}

} // verus!
