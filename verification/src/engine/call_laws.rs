//! What the functions of the engine give, call by call.
use crate::engine::command::CommandLine;
use crate::engine::muse;
use crate::engine::muse::BuiltCommand;
use crate::engine::muse::EngineEvent;
use crate::engine::muse::EventView;
use crate::engine::muse::MuseEngine;
use crate::engine::muse::SendRequest;
use crate::engine::remote_run;
use crate::engine::remote_run::RunOutcome;
use crate::engine::remote_run::ScriptRun;
use crate::engine::remote_run::UploadOutcome;
use crate::engine::remote_run::Wrapped;
use crate::engine::script;
use crate::engine::turn_laws;
use crate::engine::wsl_transport;
use crate::engine::wsl_transport::SshTransport;
use crate::json;
use crate::json::Json;
use crate::paths;
use crate::split;
use crate::text;
#[allow(unused_imports)]
use vstd::utf8::*;
use vstd::prelude::*;

verus! {

// ---------------------------------------------------------------------------
// Names
// ---------------------------------------------------------------------------
/// Something of ASCII letters and digits and some further characters.
pub open spec fn made_of(s: Seq<char>, more: Seq<char>) -> bool {
    &&& s.len() > 0
    &&& forall|i: int|
        0 <= i < s.len() ==> {
            let c = #[trigger] s[i];
            ||| 'a' <= c && c <= 'z'
            ||| 'A' <= c && c <= 'Z'
            ||| '0' <= c && c <= '9'
            ||| more.contains(c)
        }
}

proof fn lemma_more(c: char)
    ensures
        seq!['.', '_', '-'].contains(c) <==> c == '.' || c == '_' || c == '-',
        seq!['.', '_', '-', ':'].contains(c) <==> c == '.' || c == '_' || c == '-' || c == ':',
        seq!['.', '_', '-', ' '].contains(c) <==> c == '.' || c == '_' || c == '-' || c == ' ',
        seq!['/', '_', '.', '-', '~'].contains(c) <==> c == '/' || c == '_' || c == '.' || c == '-'
            || c == '~',
{
    let a = seq!['.', '_', '-'];
    assert(a[0] == '.' && a[1] == '_' && a[2] == '-');
    let b = seq!['.', '_', '-', ':'];
    assert(b[0] == '.' && b[1] == '_' && b[2] == '-' && b[3] == ':');
    let d = seq!['.', '_', '-', ' '];
    assert(d[0] == '.' && d[1] == '_' && d[2] == '-' && d[3] == ' ');
    let e = seq!['/', '_', '.', '-', '~'];
    assert(e[0] == '/' && e[1] == '_' && e[2] == '.' && e[3] == '-' && e[4] == '~');
}

/// A user name is safe exactly when it is made of letters, digits, dots, underscores and hyphens,
/// and starts with no hyphen.
pub proof fn law_user_names(s: &str, r: bool)
    requires
        call_ensures(wsl_transport::is_safe_user, (s,), r),
    ensures
        r <==> made_of(s@, seq!['.', '_', '-']) && s@[0] != '-',
{
    assert forall|c: char| #[trigger] wsl_transport::user_char(c) <==> ({
        ||| 'a' <= c && c <= 'z'
        ||| 'A' <= c && c <= 'Z'
        ||| '0' <= c && c <= '9'
        ||| seq!['.', '_', '-'].contains(c)
    }) by {
        lemma_more(c);
    }
}

/// A host name is safe exactly when it is made of letters, digits, dots, underscores, hyphens and
/// colons, and starts with no hyphen.
pub proof fn law_host_names(s: &str, r: bool)
    requires
        call_ensures(wsl_transport::is_safe_host, (s,), r),
    ensures
        r <==> made_of(s@, seq!['.', '_', '-', ':']) && s@[0] != '-',
{
    assert forall|c: char| #[trigger] wsl_transport::host_char(c) <==> ({
        ||| 'a' <= c && c <= 'z'
        ||| 'A' <= c && c <= 'Z'
        ||| '0' <= c && c <= '9'
        ||| seq!['.', '_', '-', ':'].contains(c)
    }) by {
        lemma_more(c);
    }
}

/// The name of a distribution is safe exactly when it is made of letters, digits, dots, underscores,
/// hyphens and spaces.
pub proof fn law_distro_names(s: &str, r: bool)
    requires
        call_ensures(wsl_transport::is_safe_distro, (s,), r),
    ensures
        r <==> made_of(s@, seq!['.', '_', '-', ' ']),
{
    assert forall|c: char| #[trigger] wsl_transport::distro_char(c) <==> ({
        ||| 'a' <= c && c <= 'z'
        ||| 'A' <= c && c <= 'Z'
        ||| '0' <= c && c <= '9'
        ||| seq!['.', '_', '-', ' '].contains(c)
    }) by {
        lemma_more(c);
    }
}

/// A workspace path is safe exactly when it is made of letters, digits, slashes, underscores, dots,
/// hyphens and tildes.
pub proof fn law_workspace_paths(s: &str, r: bool)
    requires
        call_ensures(wsl_transport::is_safe_workspace, (s,), r),
    ensures
        r <==> made_of(s@, seq!['/', '_', '.', '-', '~']),
{
    assert forall|c: char| #[trigger] wsl_transport::workspace_char(c) <==> ({
        ||| 'a' <= c && c <= 'z'
        ||| 'A' <= c && c <= 'Z'
        ||| '0' <= c && c <= '9'
        ||| seq!['/', '_', '.', '-', '~'].contains(c)
    }) by {
        lemma_more(c);
    }
}

// ---------------------------------------------------------------------------
// Turns
// ---------------------------------------------------------------------------
/// A turn is one call of the binary with the arguments of the request: nothing is written to it, no
/// variable is set for it, and nothing is left to remove. It is told the session of the request.
pub proof fn law_turn_is_built(
    engine: &MuseEngine,
    req: &SendRequest,
    bin: &str,
    r: Result<BuiltCommand, String>,
)
    requires
        call_ensures(MuseEngine::build_command, (engine, req, bin), r),
    ensures
        r is Err <==> req.computer_use == Some(true) || req.workspace@.len() == 0,
        r matches Ok(built) ==> {
            let args = built.command.args@;
            let turn = muse::turn_args(*req);
            &&& built.command.program@ == bin@
            &&& args.len() == turn.len()
            &&& forall|i: int| 0 <= i < args.len() ==> (#[trigger] args[i])@ == turn[i]
            &&& built.command.envs@.len() == 0
            &&& built.stdin_payload is None
            &&& !built.keep_stdin_open
            &&& built.cleanup_files@.len() == 0
            &&& req.session_id is None ==> built.preassigned_session_id is None
            &&& req.session_id matches Some(id) ==> {
                &&& text::blank(id@) ==> built.preassigned_session_id is None
                &&& !text::blank(id@) ==> built.preassigned_session_id is Some
                    && built.preassigned_session_id->0@ == text::trim(id@)
            }
        },
{
    if let Ok(built) = r {
        let args = built.command.args@;
        let turn = muse::turn_args(*req);
        assert(split::views(args) == turn);
        assert(split::views(args).len() == args.len());
        assert forall|i: int| 0 <= i < args.len() implies (#[trigger] args[i])@ == turn[i] by {
            assert(split::views(args)[i] == args[i]@);
        }
        assert(built.command@.envs.len() == built.command.envs@.len());
    }
}

/// What an event says is what it holds.
pub proof fn law_event_views(event: EngineEvent, s: Seq<char>, id: Option<Seq<char>>)
    ensures
        event@ == EventView::Delta(s) <==> (event matches EngineEvent::Delta(t) && t@ == s),
        event@ == EventView::SessionId(s) <==> (event matches EngineEvent::SessionId(t) && t@ == s),
        event@ == EventView::Model(s) <==> (event matches EngineEvent::Model(t) && t@ == s),
        event@ == EventView::Error(s) <==> (event matches EngineEvent::Error(t) && t@ == s),
        event@ == (EventView::Done { session_id: id }) <==> (event matches EngineEvent::Done {
            session_id,
        } && (session_id is Some <==> id is Some) && (id is Some ==> session_id->0@ == id->0)),
{
}

/// An envelope with a piece of the answer gives that piece, character for character.
pub proof fn law_delta_is_given(value: &Json, s: Seq<char>, r: Option<EngineEvent>)
    requires
        call_ensures(muse::parse_event, (value,), r),
        turn_laws::is_envelope(value@, "run.output.delta"@),
        turn_laws::carries(value@, "text"@, s),
    ensures
        s.len() == 0 ==> r is None,
        s.len() > 0 ==> (r matches Some(EngineEvent::Delta(t)) && t@ == s),
{
    turn_laws::law_delta_is_kept_whole(value@, s);
}

/// Any envelope gives what it reports, and nothing where it reports nothing.
pub proof fn law_event_is_given(value: &Json, r: Option<EngineEvent>)
    requires
        call_ensures(muse::parse_event, (value,), r),
    ensures
        r is Some <==> muse::event_of(value@) is Some,
        r matches Some(event) ==> event@ == muse::event_of(value@)->0,
{
}

/// The lines of a turn give their events in order.
pub proof fn law_events_are_given(engine: &MuseEngine, lines: &[&str], r: Vec<EngineEvent>)
    requires
        call_ensures(muse::parse_all, (engine, lines), r),
    ensures
        r@.map_values(|e: EngineEvent| e@) == muse::all_events(
            lines@.map_values(|s: &str| s@),
        ),
{
    assert(muse::event_views(r@) =~= r@.map_values(|e: EngineEvent| e@));
}

/// The engine is called `muse`, takes images and efforts, and knows one permission.
pub proof fn law_engine(
    engine: &MuseEngine,
    id: &'static str,
    images: bool,
    effort: bool,
    permissions: &'static [&'static str],
)
    requires
        call_ensures(MuseEngine::id, (engine,), id),
        call_ensures(MuseEngine::supports_images, (engine,), images),
        call_ensures(MuseEngine::supports_effort, (engine,), effort),
        call_ensures(MuseEngine::supported_permissions, (engine,), permissions),
    ensures
        id@ == "muse"@,
        images,
        effort,
        permissions@.len() == 1,
        permissions@[0]@ == "auto"@,
{
}

// ---------------------------------------------------------------------------
// Transports
// ---------------------------------------------------------------------------
/// What a transport says is what it holds.
pub proof fn law_transport_views(transport: SshTransport)
    ensures
        transport@.host == transport.host@,
        transport@.port == transport.port,
        transport@.user == transport.user@,
        transport@.distro is Some <==> transport.distro is Some,
        transport.distro matches Some(s) ==> transport@.distro == Some(s@),
        transport@.control_path is Some <==> transport.control_path is Some,
        transport.control_path matches Some(s) ==> transport@.control_path == Some(s@),
        transport@.engine_paths == transport.engine_paths@,
        transport@.workspace is Some <==> transport.workspace is Some,
        transport.workspace matches Some(s) ==> transport@.workspace == Some(s@),
{
}

/// What a command says is what it holds.
pub proof fn law_command_views(command: CommandLine, i: int)
    ensures
        command@.program == command.program@,
        command@.args.len() == command.args@.len(),
        command@.envs.len() == command.envs@.len(),
        0 <= i < command.args@.len() ==> command@.args[i] == command.args@[i]@,
        0 <= i < command.envs@.len() ==> {
            let (name, value) = command.envs@[i];
            let (name_view, value_view) = command@.envs[i];
            &&& name_view == name@
            &&& value_view is Some <==> value is Some
            &&& value matches Some(s) ==> value_view == Some(s@)
        },
{
}

/// The transport of a workspace is the one that its metadata describes. Metadata that is missing,
/// cannot be looked up or is not JSON describes none.
pub proof fn law_transport_is_given(
    meta: &Json,
    by_value: Option<SshTransport>,
    raw: Option<&str>,
    by_text: Option<SshTransport>,
)
    requires
        call_ensures(wsl_transport::from_workspace_meta, (meta,), by_value),
        call_ensures(wsl_transport::transport_from_meta_json, (raw,), by_text),
    ensures
        by_value is Some <==> wsl_transport::meta_transport(meta@) is Some,
        by_value matches Some(t) ==> wsl_transport::meta_transport(meta@) == Some(t@),
        raw is None ==> by_text is None,
        raw matches Some(s) ==> json::json_text(s@) is None ==> by_text is None,
        raw matches Some(s) ==> (json::json_text(s@) matches Some(value) ==> {
            &&& by_text is Some <==> wsl_transport::meta_transport(value) is Some
            &&& by_text matches Some(t) ==> wsl_transport::meta_transport(value) == Some(t@)
        }),
{
}

/// The metadata of a workspace is what the lookup found, as it stands.
pub proof fn law_metadata_is_given(
    found: Option<String>,
    e: String,
    given: Option<String>,
    none: Option<String>,
)
    requires
        call_ensures(wsl_transport::workspace_meta_json, (Ok(found),), given),
        call_ensures(wsl_transport::workspace_meta_json, (Err(e),), none),
    ensures
        given == found,
        none is None,
{
}

/// A workspace has the transport that the metadata found for it describes, and none where the
/// lookup failed or found nothing.
pub proof fn law_workspace_transport(
    lookup: Result<Option<String>, String>,
    r: Option<SshTransport>,
)
    requires
        call_ensures(wsl_transport::transport_for_workspace, (lookup,), r),
    ensures
        lookup is Err ==> r is None,
        lookup matches Ok(None) ==> r is None,
        lookup matches Ok(Some(s)) ==> json::json_text(s@) is None ==> r is None,
        lookup matches Ok(Some(s)) ==> (json::json_text(s@) matches Some(value) ==> {
            &&& r is Some <==> wsl_transport::meta_transport(value) is Some
            &&& r matches Some(t) ==> wsl_transport::meta_transport(value) == Some(t@)
        }),
{
}

/// A call without a command is that of `ssh` with its options, the mark that ends them, and the
/// destination; the place to run it in is the current directory.
pub proof fn law_calls_are_given(
    transport: &SshTransport,
    options: Vec<String>,
    target: String,
    base: CommandLine,
    place: &'static str,
)
    requires
        call_ensures(wsl_transport::ssh_options, (transport,), options),
        call_ensures(wsl_transport::ssh_target, (transport,), target),
        call_ensures(wsl_transport::base_ssh_command, (transport,), base),
        call_ensures(wsl_transport::fallback_cwd, (), place),
    ensures
        base.program@ == "ssh"@,
        base.envs@.len() == 0,
        base.args@.len() == options@.len() + 2,
        forall|i: int| 0 <= i < options@.len() ==> (#[trigger] base.args@[i])@ == options@[i]@,
        base.args@[options@.len() as int]@ == "--"@,
        base.args@[options@.len() as int + 1]@ == target@,
        target@ == transport.user@ + seq!['@'] + transport.host@,
        place@ == "."@,
{
    reveal_strlit("@");
    assert("@"@ =~= seq!['@']);
    let views = split::views(options@);
    assert(views.len() == options@.len());
    assert(base@.args.len() == base.args@.len());
    assert(base@.envs.len() == base.envs@.len());
    let n = options@.len() as int;
    assert forall|i: int| 0 <= i < n implies (#[trigger] base.args@[i])@ == options@[i]@ by {
        assert(base@.args[i] == base.args@[i]@);
        assert(views[i] == options@[i]@);
    }
    assert(base@.args[n] == base.args@[n]@);
    assert(base@.args[n + 1] == base.args@[n + 1]@);
}

/// A call with a command is a call without one, with the command string behind it.
pub proof fn law_command_is_added(
    transport: &SshTransport,
    words: &[&str],
    base: CommandLine,
    line: String,
    call: CommandLine,
)
    requires
        call_ensures(wsl_transport::base_ssh_command, (transport,), base),
        call_ensures(wsl_transport::remote_command_string, (transport, words), line),
        call_ensures(wsl_transport::remote_call, (transport, words), call),
    ensures
        call.program@ == base.program@,
        call.envs@.len() == 0,
        call.args@.len() == base.args@.len() + 1,
        forall|i: int| 0 <= i < base.args@.len() ==> (#[trigger] call.args@[i])@ == base.args@[i]@,
        call.args@.last()@ == line@,
        line@ == wsl_transport::remote_string(
            transport@,
            words@.map_values(|s: &str| s@),
        ),
{
    assert(call@.args.len() == call.args@.len());
    assert(base@.args.len() == base.args@.len());
    assert(call@.envs.len() == call.envs@.len());
    let n = base.args@.len() as int;
    assert forall|i: int| 0 <= i < n implies (#[trigger] call.args@[i])@ == base.args@[i]@ by {
        assert(call@.args[i] == call.args@[i]@);
        assert(base@.args[i] == base.args@[i]@);
    }
    assert(call@.args[n] == call.args@[n]@);
    assert(wsl_transport::str_views(words@) =~= words@.map_values(|s: &str| s@));
}

// ---------------------------------------------------------------------------
// Scripts
// ---------------------------------------------------------------------------
/// A command is taken apart into its program, its arguments and the variables that are set for it.
pub proof fn law_command_is_taken_apart(
    command: &CommandLine,
    r: (String, Vec<String>, Vec<(String, String)>),
)
    requires
        call_ensures(script::program_args_env, (command,), r),
    ensures
        r.0@ == command.program@,
        r.1@.len() == command.args@.len(),
        forall|i: int| 0 <= i < r.1@.len() ==> (#[trigger] r.1@[i])@ == command.args@[i]@,
        r.2@.map_values(|p: (String, String)| (p.0@, p.1@)) == script::exported(command@.envs),
{
    assert(split::views(r.1@).len() == r.1@.len());
    assert(command@.args.len() == command.args@.len());
    assert forall|i: int| 0 <= i < r.1@.len() implies (#[trigger] r.1@[i])@
        == command.args@[i]@ by {
        assert(split::views(r.1@)[i] == r.1@[i]@);
        assert(command@.args[i] == command.args@[i]@);
    }
}

/// A program whose path means the same everywhere is found on the host by its base name, whether it
/// is named alone or in a script.
pub proof fn law_programs_are_found(
    program: &str,
    args: &[String],
    envs: &[(String, String)],
    transport: &SshTransport,
    place: String,
    body: String,
)
    requires
        call_ensures(script::resolve_remote_program, (program, transport), place),
        call_ensures(script::build_script, (program, args, envs, transport), body),
        paths::portable(program@),
    ensures
        place@ == script::resolved(
            program@,
            paths::base_name(program@),
            transport.engine_paths@,
        ),
        body@ == script::script_text(
            program@,
            paths::base_name(program@),
            args@.map_values(|s: String| s@),
            envs@.map_values(|p: (String, String)| (p.0@, p.1@)),
            transport@,
        ),
{
    assert(split::views(args@) =~= args@.map_values(|s: String| s@));
}

/// A wrapped command stores its script, runs it, and leaves one marker file to remove.
pub proof fn law_command_is_wrapped(
    command: &CommandLine,
    transport: &SshTransport,
    id: &str,
    r: Wrapped,
)
    requires
        call_ensures(remote_run::wrap_with_id, (command, transport, id), r),
        paths::portable(command.program@),
    ensures
        r.upload.command@ == remote_run::upload_call(transport@, id@),
        r.upload.body@ == remote_run::command_script(
            command@,
            paths::base_name(command.program@),
            transport@,
        ),
        r.command@ == remote_run::run_call(transport@, id@),
        r.cleanup_files@.len() == 1,
        r.cleanup_files@[0]@ == "ccgui-wsl-"@ + id@ + ".marker"@,
        r.skip_local_cwd,
{
    assert(split::views(r.cleanup_files@).len() == r.cleanup_files@.len());
    assert(split::views(r.cleanup_files@)[0] == r.cleanup_files@[0]@);
}

/// A script of the caller's own is stored, with a first line that deletes its file, and run.
pub proof fn law_script_is_run(transport: &SshTransport, body: &str, id: &str, r: ScriptRun)
    requires
        call_ensures(remote_run::script_run_with_id, (transport, body, id), r),
    ensures
        r.upload.command@ == remote_run::upload_call(transport@, id@),
        r.upload.body@ == "rm -f \"$0\"\n"@ + body@,
        r.command@ == remote_run::run_call(transport@, id@),
{
}

// ---------------------------------------------------------------------------
// What calls came to
// ---------------------------------------------------------------------------
/// Storing a script succeeds exactly when its call ended and succeeded, and else its message tells
/// what went wrong.
pub proof fn law_upload_results(outcome: UploadOutcome, r: Result<(), String>)
    requires
        call_ensures(remote_run::upload_result, (outcome,), r),
    ensures
        r is Ok <==> (outcome matches UploadOutcome::Ended { success } && success),
        r matches Err(message) ==> remote_run::upload_error(outcome) == Some(message@),
{
}

/// The output of a script is what it printed, without the noise of the transport, and the message of
/// one that failed tells its exit code and what it complained of.
pub proof fn law_run_results(outcome: RunOutcome, r: Result<String, String>)
    requires
        call_ensures(remote_run::run_script_output, (outcome,), r),
    ensures
        r is Ok <==> (outcome matches RunOutcome::Ended { success: true, .. }),
        outcome matches RunOutcome::Ended { success: true, stdout, .. } ==> valid_utf8(stdout@)
            ==> r->Ok_0@ == remote_run::denoised(decode_utf8(stdout@)),
        outcome matches RunOutcome::Ended { success: false, code, stderr, .. } ==> valid_utf8(
            stderr@,
        ) ==> r->Err_0@ == remote_run::exit_text(code, decode_utf8(stderr@)),
        r matches Err(message) ==> remote_run::output_of(outcome) == Err::<Seq<char>, Seq<char>>(
            message@,
        ),
{
}

/// Noise is taken out of bytes as it is out of the text that they encode.
pub proof fn law_noise_is_stripped(raw: &[u8], r: Vec<u8>, output: &str, plain: String)
    requires
        call_ensures(remote_run::strip_transport_noise, (raw,), r),
        call_ensures(remote_run::denoise, (output,), plain),
        valid_utf8(raw@),
        decode_utf8(raw@) == output@,
    ensures
        plain@ == remote_run::denoised(output@),
        r@ == encode_utf8(plain@),
{
}

} // verus!
