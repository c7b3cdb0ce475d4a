//! Running scripts on a host: what to call, and what the calls came to.
use crate::engine::command::CommandLine;
use crate::engine::command::CommandView;
use crate::engine::script;
use crate::engine::wsl_transport;
use crate::engine::wsl_transport::TransportView;
use crate::engine::wsl_transport::WslTransport;
use crate::ids;
use crate::number;
use crate::paths;
use crate::split;
use crate::text;
#[allow(unused_imports)]
use vstd::utf8::*;
use vstd::prelude::*;

verus! {

/// How long a short remote call may take, in seconds.
pub const REMOTE_CALL_TIMEOUT_SECS: u64 = 30;

// ---------------------------------------------------------------------------
// What to call
// ---------------------------------------------------------------------------
/// The file on the host that holds the script called `id`.
pub open spec fn script_path(id: Seq<char>) -> Seq<char> {
    "/tmp/ccgui-wsl-"@ + id + ".sh"@
}

/// The local marker file of the script called `id`, in the directory for temporary files.
pub open spec fn marker_name(id: Seq<char>) -> Seq<char> {
    "ccgui-wsl-"@ + id + ".marker"@
}

/// The file on the host that holds the script called `id`.
fn write_script_path(id: &str) -> (r: String)
    ensures
        r@ == script_path(id@),
{
    let mut r: String = "/tmp/ccgui-wsl-".to_owned();
    r.append(id);
    r.append(".sh");
    r
}

/// A script to be written to the host: the call that stores what it reads, and what to give it.
#[derive(Debug)]
pub struct Upload {
    pub command: CommandLine,
    pub body: String,
}

/// The call that stores a script called `id` on the host.
pub open spec fn upload_call(transport: TransportView, id: Seq<char>) -> CommandView {
    wsl_transport::ssh_call(transport, seq!["tee"@, script_path(id)])
}

/// The call that runs the script called `id` on the host.
pub open spec fn run_call(transport: TransportView, id: Seq<char>) -> CommandView {
    wsl_transport::ssh_call(transport, seq!["bash"@, script_path(id)])
}

/// How to store `body` on the host, as the script called `id`.
fn plan_upload(transport: &WslTransport, body: String, id: &str) -> (r: Upload)
    ensures
        r.command@ == upload_call(transport@, id@),
        r.body@ == body@,
{
    let path: String = write_script_path(id);
    let words: [&str; 2] = ["tee", path.as_str()];
    let command: CommandLine = wsl_transport::remote_call(transport, &words);
    proof {
        assert(wsl_transport::str_views(words@) =~= seq!["tee"@, script_path(id@)]);
    }
    Upload { command, body }
}

/// How to run the script called `id` on the host.
fn plan_run(transport: &WslTransport, id: &str) -> (r: CommandLine)
    ensures
        r@ == run_call(transport@, id@),
{
    let path: String = write_script_path(id);
    let words: [&str; 2] = ["bash", path.as_str()];
    let command: CommandLine = wsl_transport::remote_call(transport, &words);
    proof {
        assert(wsl_transport::str_views(words@) =~= seq!["bash"@, script_path(id@)]);
    }
    command
}

/// An engine command, wrapped for a host.
#[derive(Debug)]
pub struct Wrapped {
    /// The script, to be stored on the host before anything else.
    pub upload: Upload,
    /// The call that runs it.
    pub command: CommandLine,
    /// Marker files in the directory for temporary files: to be created empty once the script is
    /// stored, and removed when the run ends.
    pub cleanup_files: Vec<String>,
    /// The call is not to be run in the directory of the workspace, which is on the host.
    pub skip_local_cwd: bool,
}

impl Wrapped {
    /// This is how `transport` runs the script `body` under the name `id`.
    pub open spec fn runs(self, transport: TransportView, body: Seq<char>, id: Seq<char>) -> bool {
        &&& self.upload.command@ == upload_call(transport, id)
        &&& self.upload.body@ == body
        &&& self.command@ == run_call(transport, id)
        &&& split::views(self.cleanup_files@) == seq![marker_name(id)]
        &&& self.skip_local_cwd
    }
}

/// The script for a command by a transport, where the program of the command is called `base`.
pub open spec fn command_script(
    command: CommandView,
    base: Seq<char>,
    transport: TransportView,
) -> Seq<char> {
    script::script_text(
        command.program,
        base,
        command.args,
        script::exported(command.envs),
        transport,
    )
}

/// Wraps `command` for the host of `transport`, with a script that is called `id`.
pub fn wrap_with_id(command: &CommandLine, transport: &WslTransport, id: &str) -> (r: Wrapped)
    ensures
        exists|base: Seq<char>|
            paths::called(command@.program, base) && #[trigger] r.runs(
                transport@,
                command_script(command@, base, transport@),
                id@,
            ),
        paths::portable(command@.program) ==> r.runs(
            transport@,
            command_script(command@, paths::base_name(command@.program), transport@),
            id@,
        ),
{
    let (program, args, envs) = script::program_args_env(command);
    let body: String = script::build_script(
        program.as_str(),
        args.as_slice(),
        envs.as_slice(),
        transport,
    );
    let ghost text = body@;
    let upload: Upload = plan_upload(transport, body, id);
    let mut marker: String = "ccgui-wsl-".to_owned();
    marker.append(id);
    marker.append(".marker");
    let mut cleanup_files: Vec<String> = Vec::new();
    cleanup_files.push(marker);
    let r: Wrapped = Wrapped {
        upload,
        command: plan_run(transport, id),
        cleanup_files,
        skip_local_cwd: true,
    };
    proof {
        assert(split::views(r.cleanup_files@) =~= seq![marker_name(id@)]);
        assert(r.runs(transport@, text, id@));
        let base = choose|base: Seq<char>|
            paths::called(command@.program, base) && text == #[trigger] script::script_text(
                command@.program,
                base,
                command@.args,
                script::exported(command@.envs),
                transport@,
            );
        assert(r.runs(transport@, command_script(command@, base, transport@), id@));
    }
    r
}

/// Wraps `command` for the host of `transport`, with a script under a fresh random name.
pub fn wrap(command: &CommandLine, transport: &WslTransport) -> (r: Wrapped)
    ensures
        exists|base: Seq<char>, id: Seq<char>|
            ids::simple_id(id) && paths::called(command@.program, base) && #[trigger] r.runs(
                transport@,
                command_script(command@, base, transport@),
                id,
            ),
        paths::portable(command@.program) ==> exists|id: Seq<char>|
            ids::simple_id(id) && #[trigger] r.runs(
                transport@,
                command_script(command@, paths::base_name(command@.program), transport@),
                id,
            ),
{
    let id: String = ids::fresh_id();
    wrap_with_id(command, transport, id.as_str())
}

/// A script of the caller's own, to be stored and run on a host.
#[derive(Debug)]
pub struct ScriptRun {
    pub upload: Upload,
    pub command: CommandLine,
}

impl ScriptRun {
    /// This is how `transport` runs the script `body` under the name `id`.
    pub open spec fn runs(self, transport: TransportView, body: Seq<char>, id: Seq<char>) -> bool {
        &&& self.upload.command@ == upload_call(transport, id)
        &&& self.upload.body@ == body
        &&& self.command@ == run_call(transport, id)
    }
}

/// A script that first deletes its own file.
pub open spec fn self_deleting(body: Seq<char>) -> Seq<char> {
    "rm -f \"$0\"\n"@ + body
}

/// How to run `script_body` on the host of `transport`, as a script that is called `id`.
pub fn script_run_with_id(transport: &WslTransport, script_body: &str, id: &str) -> (r: ScriptRun)
    ensures
        r.runs(transport@, self_deleting(script_body@), id@),
{
    let mut body: String = "rm -f \"$0\"\n".to_owned();
    body.append(script_body);
    ScriptRun { upload: plan_upload(transport, body, id), command: plan_run(transport, id) }
}

/// How to run `script_body` on the host of `transport`, as a script under a fresh random name.
pub fn script_run(transport: &WslTransport, script_body: &str) -> (r: ScriptRun)
    ensures
        exists|id: Seq<char>|
            ids::simple_id(id) && #[trigger] r.runs(
                transport@,
                self_deleting(script_body@),
                id,
            ),
{
    let id: String = ids::fresh_id();
    script_run_with_id(transport, script_body, id.as_str())
}

// ---------------------------------------------------------------------------
// What storing a script came to
// ---------------------------------------------------------------------------
/// How the call that stores a script ended.
#[derive(Debug)]
pub enum UploadOutcome {
    /// It could not be started.
    NotStarted(String),
    /// It did not take the script.
    NotWritten(String),
    /// Waiting for its end failed.
    NotAwaited(String),
    /// It did not end in time.
    TimedOut,
    /// It ended.
    Ended { success: bool },
}

/// The message for a script that could not be stored, or nothing.
pub open spec fn upload_error(outcome: UploadOutcome) -> Option<Seq<char>> {
    match outcome {
        UploadOutcome::NotStarted(e) => Some("ssh 脚本上传失败: "@ + e@),
        UploadOutcome::NotWritten(e) => Some("ssh 脚本写入失败: "@ + e@),
        UploadOutcome::NotAwaited(e) => Some("ssh 脚本上传等待失败: "@ + e@),
        UploadOutcome::TimedOut => Some(
            "ssh 脚本上传超时("@ + number::decimal(REMOTE_CALL_TIMEOUT_SECS as nat)
                + "s,检查远程主机是否无响应)"@,
        ),
        UploadOutcome::Ended { success } => if success {
            None
        } else {
            Some(
                "ssh 脚本上传失败(检查远程主机连接/认证;ControlMaster 可能已过期,请重连该主机)"@,
            )
        },
    }
}

/// One text behind another.
fn prefixed(a: &str, b: &str) -> (r: String)
    ensures
        r@ == a@ + b@,
{
    let mut r: String = a.to_owned();
    r.append(b);
    r
}

/// Whether the script is stored, or the message that says why not.
pub fn upload_result(outcome: UploadOutcome) -> (r: Result<(), String>)
    ensures
        match r {
            Ok(_) => upload_error(outcome) is None,
            Err(message) => upload_error(outcome) == Some(message@),
        },
{
    match outcome {
        UploadOutcome::NotStarted(e) => Err(prefixed("ssh 脚本上传失败: ", e.as_str())),
        UploadOutcome::NotWritten(e) => Err(prefixed("ssh 脚本写入失败: ", e.as_str())),
        UploadOutcome::NotAwaited(e) => Err(prefixed("ssh 脚本上传等待失败: ", e.as_str())),
        UploadOutcome::TimedOut => {
            let mut message: String = prefixed(
                "ssh 脚本上传超时(",
                number::natural_text(REMOTE_CALL_TIMEOUT_SECS).as_str(),
            );
            message.append("s,检查远程主机是否无响应)");
            Err(message)
        },
        UploadOutcome::Ended { success } => if success {
            Ok(())
        } else {
            Err(
                "ssh 脚本上传失败(检查远程主机连接/认证;ControlMaster 可能已过期,请重连该主机)".to_owned(),
            )
        },
    }
}

// ---------------------------------------------------------------------------
// What a script printed
// ---------------------------------------------------------------------------
/// A line that `wsl.exe` adds about itself.
pub open spec fn noise(line: Seq<char>) -> bool {
    let rest = text::trim_start(line);
    split::starts(rest, "wsl:"@) || split::starts(rest, "wsl."@)
}

/// The lines that are no noise, each with a line feed.
pub open spec fn payload(lines: Seq<Seq<char>>) -> Seq<char>
    decreases lines.len(),
{
    if lines.len() == 0 {
        seq![]
    } else if noise(lines.last()) {
        payload(lines.drop_last())
    } else {
        payload(lines.drop_last()) + lines.last().push('\n')
    }
}

/// The payload of what came over the channel: its lines without NUL characters and noise.
pub open spec fn denoised(output: Seq<char>) -> Seq<char> {
    payload(split::lines(text::without(output, '\0')))
}

/// Tells whether `line` is one that `wsl.exe` adds about itself.
fn is_noise(line: &str) -> (r: bool)
    ensures
        r == noise(line@),
{
    let chars: Vec<char> = text::chars_of(line);
    let (from, _to): (usize, usize) = text::trim_bounds(&chars);
    let rest: String = text::string_of(&chars, from, chars.len());
    proof {
        assert(rest@ =~= line@.skip(from as int));
    }
    split::starts_with(rest.as_str(), "wsl:") || split::starts_with(rest.as_str(), "wsl.")
}

/// The payload of a text that came over the channel.
pub fn denoise(output: &str) -> (r: String)
    ensures
        r@ == denoised(output@),
{
    let clean: String = text::remove_char(output, '\0');
    let list: Vec<String> = split::lines_of(clean.as_str());
    let ghost all = split::views(list@);
    let mut r: String = String::new();
    let mut i: usize = 0;
    while i < list.len()
        invariant
            i <= list@.len(),
            all == split::views(list@),
            r@ == payload(all.take(i as int)),
        decreases list.len() - i,
    {
        proof {
            let next = all.take(i + 1);
            assert(next.drop_last() =~= all.take(i as int));
            assert(next.last() == list@[i as int]@);
        }
        if !is_noise(list[i].as_str()) {
            let ghost before = r@;
            r.append(list[i].as_str());
            r.push('\n');
            proof {
                assert(r@ =~= before + list@[i as int]@.push('\n'));
            }
        }
        i = i + 1;
    }
    proof {
        assert(all.take(i as int) =~= all);
    }
    r
}

/// The payload of what came over the channel, in bytes.
pub fn strip_transport_noise(raw: &[u8]) -> (r: Vec<u8>)
    ensures
        r@ == encode_utf8(denoised(text::lossy_text(raw@))),
        valid_utf8(raw@) ==> r@ == encode_utf8(denoised(decode_utf8(raw@))),
{
    let output: String = text::from_utf8_lossy(raw);
    denoise(output.as_str()).as_str().as_bytes_vec()
}

/// How the call that runs a script ended.
#[derive(Debug)]
pub enum RunOutcome {
    /// It could not be run.
    Failed(String),
    /// It did not end in time.
    TimedOut,
    /// It ended.
    Ended { success: bool, code: Option<i32>, stdout: Vec<u8>, stderr: Vec<u8> },
}

/// An exit code that may be missing.
pub open spec fn code_text(code: Option<i32>) -> Seq<char> {
    match code {
        Some(n) => "Some("@ + number::integer(n as int) + ")"@,
        None => "None"@,
    }
}

/// The message for a script that failed, from its exit code and its complaint.
pub open spec fn exit_text(code: Option<i32>, complaint: Seq<char>) -> Seq<char> {
    "远程命令退出码 "@ + code_text(code) + ": "@ + text::trim(complaint)
}

/// What a script printed, or the message that says why there is nothing.
pub open spec fn output_of(outcome: RunOutcome) -> Result<Seq<char>, Seq<char>> {
    match outcome {
        RunOutcome::Failed(e) => Err("远程命令执行失败: "@ + e@),
        RunOutcome::TimedOut => Err(
            "远程命令超时("@ + number::decimal(REMOTE_CALL_TIMEOUT_SECS as nat)
                + "s,检查远程主机是否无响应)"@,
        ),
        RunOutcome::Ended { success, code, stdout, stderr } => if success {
            Ok(denoised(text::lossy_text(stdout@)))
        } else {
            Err(exit_text(code, text::lossy_text(stderr@)))
        },
    }
}

/// The message for a script that failed.
pub fn exit_message(code: Option<i32>, complaint: &str) -> (r: String)
    ensures
        r@ == exit_text(code, complaint@),
{
    let mut message: String = "远程命令退出码 ".to_owned();
    match code {
        Some(n) => {
            message.append("Some(");
            message.append(number::integer_text(n as i64).as_str());
            message.append(")");
        },
        None => message.append("None"),
    }
    message.append(": ");
    message.append(text::trimmed(complaint));
    proof {
        assert(message@ =~= exit_text(code, complaint@));
    }
    message
}

/// What a script printed, without the noise of the channel, or the message that says why there is
/// nothing.
pub fn run_script_output(outcome: RunOutcome) -> (r: Result<String, String>)
    ensures
        match r {
            Ok(output) => output_of(outcome) == Ok::<Seq<char>, Seq<char>>(output@),
            Err(message) => output_of(outcome) == Err::<Seq<char>, Seq<char>>(message@),
        },
        outcome matches RunOutcome::Ended { success: true, stdout, .. } ==> valid_utf8(stdout@)
            ==> r is Ok && r->Ok_0@ == denoised(decode_utf8(stdout@)),
        outcome matches RunOutcome::Ended { success: false, code, stderr, .. } ==> valid_utf8(
            stderr@,
        ) ==> r is Err && r->Err_0@ == exit_text(code, decode_utf8(stderr@)),
{
    match outcome {
        RunOutcome::Failed(e) => Err(prefixed("远程命令执行失败: ", e.as_str())),
        RunOutcome::TimedOut => {
            let mut message: String = prefixed(
                "远程命令超时(",
                number::natural_text(REMOTE_CALL_TIMEOUT_SECS).as_str(),
            );
            message.append("s,检查远程主机是否无响应)");
            Err(message)
        },
        RunOutcome::Ended { success, code, stdout, stderr } => if success {
            let bytes: Vec<u8> = strip_transport_noise(stdout.as_slice());
            let output: String = text::from_utf8_lossy(bytes.as_slice());
            proof {
                let kept = denoised(text::lossy_text(stdout@));
                encode_utf8_valid_utf8(kept);
                encode_utf8_decode_utf8(kept);
                if valid_utf8(stdout@) {
                    encode_utf8_valid_utf8(denoised(decode_utf8(stdout@)));
                    encode_utf8_decode_utf8(denoised(decode_utf8(stdout@)));
                }
            }
            Ok(output)
        } else {
            let complaint: String = text::from_utf8_lossy(stderr.as_slice());
            Err(exit_message(code, complaint.as_str()))
        },
    }
}

} // verus!
