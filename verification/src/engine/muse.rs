//! The Muse engine: `muse exec --json`, its command line and the event lines it prints.
//!
//! Each line is an envelope `{stream: {kind, id}, record_type, payload_type, payload: {...}}`. Text
//! comes in `run.output.delta`, the session is announced by `run.lifecycle.started`, and a
//! `run.terminal.*` ends the turn.
use crate::engine::command;
use crate::engine::command::CommandLine;
use crate::engine::command::CommandView;
use crate::json;
use crate::json::Json;
use crate::json::JsonTree;
use crate::split;
use crate::text;
use vstd::prelude::*;

verus! {

/// The Muse engine: one child process per turn.
#[derive(Debug, Clone, Copy)]
pub struct MuseEngine;

// ---------------------------------------------------------------------------
// The command line
// ---------------------------------------------------------------------------
/// What a turn asks of the engine.
#[derive(Debug)]
pub struct SendRequest {
    /// The session to continue, or to start under this name.
    pub session_id: Option<String>,
    /// The directory to work in.
    pub workspace: String,
    pub prompt: String,
    /// The absolute path of each attached image, where it has one.
    pub images: Vec<Option<String>>,
    pub model: Option<String>,
    pub effort: Option<String>,
    /// Whether the engine is to operate the computer.
    pub computer_use: Option<bool>,
}

/// A command that is ready to be started.
#[derive(Debug)]
pub struct BuiltCommand {
    pub command: CommandLine,
    /// What to write to its standard input.
    pub stdin_payload: Option<String>,
    pub keep_stdin_open: bool,
    /// Files to remove when it has ended.
    pub cleanup_files: Vec<String>,
    /// The session it was told to use.
    pub preassigned_session_id: Option<String>,
}

/// A choice that was made: trimmed, and none where it is blank.
pub open spec fn chosen(text: Option<Seq<char>>) -> Option<Seq<char>> {
    match text {
        Some(s) => if text::blank(s) {
            None
        } else {
            Some(text::trim(s))
        },
        None => None,
    }
}

/// A flag with its value, where there is one.
pub open spec fn flag(name: Seq<char>, value: Option<Seq<char>>) -> Seq<Seq<char>> {
    match value {
        Some(v) => seq![name, v],
        None => seq![],
    }
}

/// One flag for each image that has a path.
pub open spec fn image_flags(images: Seq<Option<String>>) -> Seq<Seq<char>>
    decreases images.len(),
{
    if images.len() == 0 {
        seq![]
    } else {
        image_flags(images.drop_last()) + flag("--image"@, command::maybe(images.last()))
    }
}

/// The arguments of a turn. The prompt stands behind the mark that ends the options.
pub open spec fn turn_args(req: SendRequest) -> Seq<Seq<char>> {
    seq!["exec"@, "--json"@] + flag("--session-id"@, chosen(command::maybe(req.session_id))) + flag(
        "--model"@,
        chosen(command::maybe(req.model)),
    ) + flag("--reasoning-effort"@, chosen(command::maybe(req.effort))) + image_flags(req.images@)
        + seq!["--workspace"@, req.workspace@, "--"@, req.prompt@]
}

/// Why a turn cannot be run, where it cannot.
pub open spec fn turn_error(req: SendRequest) -> Option<Seq<char>> {
    if req.computer_use == Some(true) {
        Some("操作电脑不支持 muse:没有可挂载的 MCP 驱动旗标"@)
    } else if req.workspace@.len() == 0 {
        Some("muse 需要非空工作区(--workspace)"@)
    } else {
        None
    }
}

/// A choice that was made: trimmed, and none where it is blank.
fn read_choice(text: &Option<String>) -> (r: Option<String>)
    ensures
        command::maybe(r) == chosen(command::maybe(*text)),
{
    match text {
        Some(s) => if text::is_blank(s.as_str()) {
            None
        } else {
            Some(text::trimmed(s.as_str()).to_owned())
        },
        None => None,
    }
}

/// Adds a flag with its value, where there is one.
fn push_flag(args: &mut Vec<String>, name: &str, value: &Option<String>)
    ensures
        split::views(final(args)@) == split::views(old(args)@) + flag(
            name@,
            command::maybe(*value),
        ),
{
    let ghost before = split::views(args@);
    if let Some(v) = value {
        command::push_arg(args, name);
        command::push_arg(args, v.as_str());
    }
    proof {
        assert(split::views(args@) =~= before + flag(name@, command::maybe(*value)));
    }
}

impl MuseEngine {
    /// The name of the engine.
    pub fn id(&self) -> (r: &'static str)
        ensures
            r@ == "muse"@,
    {
        "muse"
    }

    /// Images can be attached, by path.
    pub fn supports_images(&self) -> (r: bool)
        ensures
            r,
    {
        true
    }

    /// The reasoning effort can be chosen.
    pub fn supports_effort(&self) -> (r: bool)
        ensures
            r,
    {
        true
    }

    /// The permission modes: only the one that never asks.
    pub fn supported_permissions(&self) -> (r: &'static [&'static str])
        ensures
            r@.len() == 1,
            r@[0]@ == "auto"@,
    {
        &["auto"]
    }

    /// The command that runs the turn `req` with the binary `bin`, or the reason why there is none.
    pub fn build_command(&self, req: &SendRequest, bin: &str) -> (r: Result<BuiltCommand, String>)
        ensures
            match r {
                Ok(built) => {
                    &&& turn_error(*req) is None
                    &&& built.command@ == (CommandView {
                        program: bin@,
                        args: turn_args(*req),
                        envs: seq![],
                    })
                    &&& built.stdin_payload is None
                    &&& !built.keep_stdin_open
                    &&& built.cleanup_files@.len() == 0
                    &&& command::maybe(built.preassigned_session_id) == chosen(
                        command::maybe(req.session_id),
                    )
                },
                Err(message) => turn_error(*req) == Some(message@),
            },
    {
        if let Some(computer_use) = req.computer_use {
            if computer_use {
                return Err("操作电脑不支持 muse:没有可挂载的 MCP 驱动旗标".to_owned());
            }
        }
        if req.workspace.as_str().is_empty() {
            return Err("muse 需要非空工作区(--workspace)".to_owned());
        }
        let mut args: Vec<String> = Vec::new();
        command::push_arg(&mut args, "exec");
        command::push_arg(&mut args, "--json");
        let session: Option<String> = read_choice(&req.session_id);
        push_flag(&mut args, "--session-id", &session);
        push_flag(&mut args, "--model", &read_choice(&req.model));
        push_flag(&mut args, "--reasoning-effort", &read_choice(&req.effort));
        let ghost head = split::views(args@);
        proof {
            assert(head =~= seq!["exec"@, "--json"@] + flag(
                "--session-id"@,
                chosen(command::maybe(req.session_id)),
            ) + flag("--model"@, chosen(command::maybe(req.model))) + flag(
                "--reasoning-effort"@,
                chosen(command::maybe(req.effort)),
            ));
        }
        let mut i: usize = 0;
        proof {
            assert(head + image_flags(req.images@.take(0)) =~= head);
        }
        while i < req.images.len()
            invariant
                i <= req.images@.len(),
                split::views(args@) == head + image_flags(req.images@.take(i as int)),
            decreases req.images.len() - i,
        {
            push_flag(&mut args, "--image", &req.images[i]);
            proof {
                let next = req.images@.take(i + 1);
                assert(next.drop_last() =~= req.images@.take(i as int));
                assert(next.last() == req.images@[i as int]);
                assert(split::views(args@) =~= head + image_flags(next));
            }
            i = i + 1;
        }
        proof {
            assert(req.images@.take(i as int) =~= req.images@);
        }
        command::push_arg(&mut args, "--workspace");
        command::push_arg(&mut args, req.workspace.as_str());
        command::push_arg(&mut args, "--");
        command::push_arg(&mut args, req.prompt.as_str());
        let line: CommandLine = CommandLine { program: bin.to_owned(), args, envs: Vec::new() };
        proof {
            assert(line@.args =~= turn_args(*req));
            assert(line@.envs =~= seq![]);
        }
        Ok(
            BuiltCommand {
                command: line,
                stdin_payload: None,
                keep_stdin_open: false,
                cleanup_files: Vec::new(),
                preassigned_session_id: session,
            },
        )
    }
}

// ---------------------------------------------------------------------------
// Events
// ---------------------------------------------------------------------------
/// What an engine reports.
#[derive(Debug)]
pub enum EngineEvent {
    /// More of the answer.
    Delta(String),
    /// The session that the turn is in.
    SessionId(String),
    /// The model that answers.
    Model(String),
    /// The turn is over.
    Done { session_id: Option<String> },
    /// The turn has failed.
    Error(String),
}

/// What an [`EngineEvent`] says.
pub enum EventView {
    Delta(Seq<char>),
    SessionId(Seq<char>),
    Model(Seq<char>),
    Done { session_id: Option<Seq<char>> },
    Error(Seq<char>),
}

impl View for EngineEvent {
    type V = EventView;

    open spec fn view(&self) -> EventView {
        match self {
            EngineEvent::Delta(s) => EventView::Delta(s@),
            EngineEvent::SessionId(s) => EventView::SessionId(s@),
            EngineEvent::Model(s) => EventView::Model(s@),
            EngineEvent::Done { session_id } => EventView::Done {
                session_id: command::maybe(*session_id),
            },
            EngineEvent::Error(s) => EventView::Error(s@),
        }
    }
}

/// What each event of a list says.
pub open spec fn event_views(events: Seq<EngineEvent>) -> Seq<EventView> {
    events.map_values(|e: EngineEvent| e@)
}

/// The id of the stream that an envelope belongs to.
pub open spec fn stream_of(value: JsonTree) -> Option<Seq<char>> {
    match value.get("stream"@) {
        Some(stream) => chosen(stream.text_at("id"@)),
        None => None,
    }
}

/// A text of the payload of an envelope.
pub open spec fn payload_text(value: JsonTree, key: Seq<char>) -> Option<Seq<char>> {
    match value.get("payload"@) {
        Some(payload) => payload.text_at(key),
        None => None,
    }
}

/// A text that may be missing, or else an empty one.
pub open spec fn or_empty(text: Option<Seq<char>>) -> Seq<char> {
    match text {
        Some(s) => s,
        None => seq![],
    }
}

/// Why a turn failed: the reason, or else the text, or else the label, whichever first says
/// something.
pub open spec fn failure_detail(value: JsonTree, label: Seq<char>) -> Seq<char> {
    match chosen(payload_text(value, "reason"@)) {
        Some(reason) => reason,
        None => match chosen(payload_text(value, "text"@)) {
            Some(s) => s,
            None => label,
        },
    }
}

/// How an envelope ends the turn.
pub open spec fn terminal_event(value: JsonTree) -> EventView {
    let label = or_empty(payload_text(value, "terminal"@));
    if label == "completed"@ {
        EventView::Done { session_id: stream_of(value) }
    } else {
        EventView::Error("muse run "@ + label + ": "@ + failure_detail(value, label))
    }
}

/// What an envelope reports, where it reports anything.
pub open spec fn event_of(value: JsonTree) -> Option<EventView> {
    let kind = or_empty(value.text_at("payload_type"@));
    if kind == "run.output.delta"@ {
        match payload_text(value, "text"@) {
            Some(s) => if s.len() > 0 {
                Some(EventView::Delta(s))
            } else {
                None
            },
            None => None,
        }
    } else if kind == "run.lifecycle.started"@ {
        match stream_of(value) {
            Some(id) => Some(EventView::SessionId(id)),
            None => None,
        }
    } else if kind == "run.model.configured"@ {
        match chosen(payload_text(value, "model_id"@)) {
            Some(model) => Some(EventView::Model(model)),
            None => None,
        }
    } else if split::starts(kind, "run.terminal."@) {
        Some(terminal_event(value))
    } else {
        None
    }
}

/// The events of a line: at most one, and none where the line is not JSON.
pub open spec fn line_events(line: Seq<char>) -> Seq<EventView> {
    match json::json_text(line) {
        Some(value) => match event_of(value) {
            Some(event) => seq![event],
            None => seq![],
        },
        None => seq![],
    }
}

/// The events of some lines.
pub open spec fn all_events(lines: Seq<Seq<char>>) -> Seq<EventView>
    decreases lines.len(),
{
    if lines.len() == 0 {
        seq![]
    } else {
        all_events(lines.drop_last()) + line_events(lines.last())
    }
}

/// A borrowed choice: trimmed, and none where it is blank.
fn choose_str(text: Option<&str>) -> (r: Option<String>)
    ensures
        command::maybe(r) == chosen(
            match text {
                Some(s) => Some(s@),
                None => None,
            },
        ),
{
    match text {
        Some(s) => if text::is_blank(s) {
            None
        } else {
            Some(text::trimmed(s).to_owned())
        },
        None => None,
    }
}

/// The id of the stream that an envelope belongs to.
pub fn stream_id(value: &Json) -> (r: Option<String>)
    ensures
        command::maybe(r) == stream_of(value@),
{
    match value.get("stream") {
        Some(stream) => choose_str(stream.str_at("id")),
        None => None,
    }
}

/// A text of the payload of an envelope.
fn read_payload<'a>(value: &'a Json, key: &str) -> (r: Option<&'a str>)
    ensures
        match r {
            Some(s) => payload_text(value@, key@) == Some(s@),
            None => payload_text(value@, key@) is None,
        },
{
    match value.get("payload") {
        Some(payload) => payload.str_at(key),
        None => None,
    }
}

/// How an envelope ends the turn.
fn read_terminal(value: &Json) -> (r: EngineEvent)
    ensures
        r@ == terminal_event(value@),
{
    let label: &str = match read_payload(value, "terminal") {
        Some(s) => s,
        None => "",
    };
    proof {
        reveal_strlit("");
        assert(""@ =~= seq![]);
    }
    if text::same(label, "completed") {
        return EngineEvent::Done { session_id: stream_id(value) };
    }
    let detail: String = match choose_str(read_payload(value, "reason")) {
        Some(reason) => reason,
        None => match choose_str(read_payload(value, "text")) {
            Some(s) => s,
            None => label.to_owned(),
        },
    };
    let mut message: String = "muse run ".to_owned();
    message.append(label);
    message.append(": ");
    message.append(detail.as_str());
    EngineEvent::Error(message)
}

/// What an envelope reports, where it reports anything.
pub fn parse_event(value: &Json) -> (r: Option<EngineEvent>)
    ensures
        match r {
            Some(event) => event_of(value@) == Some(event@),
            None => event_of(value@) is None,
        },
{
    let kind: &str = match value.str_at("payload_type") {
        Some(s) => s,
        None => "",
    };
    proof {
        reveal_strlit("");
        assert(""@ =~= seq![]);
    }
    if text::same(kind, "run.output.delta") {
        match read_payload(value, "text") {
            Some(s) => if s.is_empty() {
                None
            } else {
                Some(EngineEvent::Delta(s.to_owned()))
            },
            None => None,
        }
    } else if text::same(kind, "run.lifecycle.started") {
        match stream_id(value) {
            Some(id) => Some(EngineEvent::SessionId(id)),
            None => None,
        }
    } else if text::same(kind, "run.model.configured") {
        match choose_str(read_payload(value, "model_id")) {
            Some(model) => Some(EngineEvent::Model(model)),
            None => None,
        }
    } else if split::starts_with(kind, "run.terminal.") {
        Some(read_terminal(value))
    } else {
        None
    }
}

impl MuseEngine {
    /// Adds what `line` reports to `out`. A line that is not JSON, or of another kind, reports
    /// nothing.
    pub fn parse_line(&self, line: &str, out: &mut Vec<EngineEvent>)
        ensures
            event_views(final(out)@) == event_views(old(out)@) + line_events(line@),
            old(out)@.is_prefix_of(final(out)@),
    {
        let ghost before = out@;
        if let Some(value) = json::parse_json(line) {
            if let Some(event) = parse_event(&value) {
                out.push(event);
            }
        }
        proof {
            assert(event_views(out@) =~= event_views(before) + line_events(line@));
        }
    }
}

/// What `lines` report, in their order.
pub fn parse_all(engine: &MuseEngine, lines: &[&str]) -> (r: Vec<EngineEvent>)
    ensures
        event_views(r@) == all_events(lines@.map_values(|s: &str| s@)),
{
    let mut r: Vec<EngineEvent> = Vec::new();
    let ghost all = lines@.map_values(|s: &str| s@);
    let mut i: usize = 0;
    proof {
        assert(event_views(r@) =~= seq![]);
    }
    while i < lines.len()
        invariant
            i <= lines@.len(),
            all == lines@.map_values(|s: &str| s@),
            event_views(r@) == all_events(all.take(i as int)),
        decreases lines.len() - i,
    {
        engine.parse_line(lines[i], &mut r);
        proof {
            let next = all.take(i + 1);
            assert(next.drop_last() =~= all.take(i as int));
            assert(next.last() == lines@[i as int]@);
        }
        i = i + 1;
    }
    proof {
        assert(all.take(i as int) =~= all);
    }
    r
}

} // verus!
