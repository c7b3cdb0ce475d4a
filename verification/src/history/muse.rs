//! Past Muse sessions: which there are, their summaries, and what the user said in them.
//!
//! The session index has a row for each session, with its title, workspace and times, and the path
//! of its journal. The journal has a JSON record on each line; a `runtime.user_intent.accepted`
//! record is a turn of the user.
use crate::engine::command;
use crate::json;
use crate::json::Json;
use crate::json::JsonTree;
use crate::number;
use crate::paths;
use crate::split;
use crate::text;
use vstd::prelude::*;

verus! {

// ---------------------------------------------------------------------------
// Places
// ---------------------------------------------------------------------------
/// The directory of Muse below the home directory `home`.
pub fn muse_home(home: &str) -> (r: String)
    ensures
        paths::joins(home@, ".local/share/muse"@, r@),
{
    paths::join(home, ".local/share/muse")
}

/// The session index below the home directory `home`.
pub fn index_db_path(home: &str) -> (r: String)
    ensures
        exists|dir: Seq<char>|
            #![trigger paths::joins(home@, ".local/share/muse"@, dir)]
            paths::joins(home@, ".local/share/muse"@, dir) && paths::joins(
                dir,
                "session-index.db"@,
                r@,
            ),
{
    let dir: String = muse_home(home);
    paths::join(dir.as_str(), "session-index.db")
}

// ---------------------------------------------------------------------------
// The index
// ---------------------------------------------------------------------------
/// A row of the session index, as it is stored. Times are in microseconds.
#[derive(Debug)]
pub struct StoredRow {
    pub session_id: String,
    pub log_path: String,
    pub workspace_root: Option<String>,
    pub title: String,
    pub first_prompt: Option<String>,
    pub prompt_count: Option<i64>,
    pub created_us: Option<i64>,
    pub updated_us: Option<i64>,
}

/// A row of the session index. Times are in milliseconds.
#[derive(Debug)]
pub struct IndexRow {
    pub session_id: String,
    pub log_path: String,
    pub workspace_root: String,
    pub title: String,
    pub first_prompt: String,
    pub prompt_count: i64,
    pub created_ms: Option<i64>,
    pub updated_ms: Option<i64>,
}

/// Microseconds as whole milliseconds, towards zero.
pub open spec fn to_ms(us: int) -> int {
    if us >= 0 {
        us / 1000
    } else {
        -((-us) / 1000)
    }
}

/// Microseconds as whole milliseconds, towards zero.
pub fn us_to_ms(us: i64) -> (r: i64)
    ensures
        r == to_ms(us as int),
{
    us / 1000
}

/// A time that may be missing, in milliseconds.
pub open spec fn maybe_ms(us: Option<i64>) -> Option<int> {
    match us {
        Some(us) => Some(to_ms(us as int)),
        None => None,
    }
}

/// A number that may be missing, as an integer.
pub open spec fn maybe_int(n: Option<i64>) -> Option<int> {
    match n {
        Some(n) => Some(n as int),
        None => None,
    }
}

fn convert_time(us: Option<i64>) -> (r: Option<i64>)
    ensures
        maybe_int(r) == maybe_ms(us),
{
    match us {
        Some(us) => Some(us_to_ms(us)),
        None => None,
    }
}

/// A text that may be missing, or else an empty one.
fn or_empty(text: Option<String>) -> (r: String)
    ensures
        r@ == (match text {
            Some(s) => s@,
            None => seq![],
        }),
{
    match text {
        Some(s) => s,
        None => String::new(),
    }
}

/// The row as the rest of the library reads it: missing texts are empty, a missing count is zero,
/// and times are in milliseconds.
pub fn index_row(row: StoredRow) -> (r: IndexRow)
    ensures
        r.session_id@ == row.session_id@,
        r.log_path@ == row.log_path@,
        r.workspace_root@ == (match row.workspace_root {
            Some(s) => s@,
            None => seq![],
        }),
        r.title@ == row.title@,
        r.first_prompt@ == (match row.first_prompt {
            Some(s) => s@,
            None => seq![],
        }),
        r.prompt_count == (match row.prompt_count {
            Some(n) => n,
            None => 0,
        }),
        maybe_int(r.created_ms) == maybe_ms(row.created_us),
        maybe_int(r.updated_ms) == maybe_ms(row.updated_us),
{
    IndexRow {
        session_id: row.session_id,
        log_path: row.log_path,
        workspace_root: or_empty(row.workspace_root),
        title: row.title,
        first_prompt: or_empty(row.first_prompt),
        prompt_count: match row.prompt_count {
            Some(n) => n,
            None => 0,
        },
        created_ms: convert_time(row.created_us),
        updated_ms: convert_time(row.updated_us),
    }
}

// ---------------------------------------------------------------------------
// The sessions of a workspace
// ---------------------------------------------------------------------------
/// A session that was found.
#[derive(Debug)]
pub struct SessionFile {
    /// The engine it is of.
    pub engine: &'static str,
    pub session_id: String,
    pub workspace_path: String,
    /// Its journal.
    pub file_path: String,
}

/// What a [`SessionFile`] says.
#[verifier::ext_equal]
pub struct SessionView {
    pub engine: Seq<char>,
    pub session_id: Seq<char>,
    pub workspace_path: Seq<char>,
    pub file_path: Seq<char>,
}

impl View for SessionFile {
    type V = SessionView;

    open spec fn view(&self) -> SessionView {
        SessionView {
            engine: self.engine@,
            session_id: self.session_id@,
            workspace_path: self.workspace_path@,
            file_path: self.file_path@,
        }
    }
}

/// What each session of a list says.
pub open spec fn session_views(sessions: Seq<SessionFile>) -> Seq<SessionView> {
    sessions.map_values(|s: SessionFile| s@)
}

/// The session of an index row.
pub open spec fn session_of(row: IndexRow) -> SessionView {
    SessionView {
        engine: "muse"@,
        session_id: row.session_id@,
        workspace_path: row.workspace_root@,
        file_path: row.log_path@,
    }
}

/// A row of the session index, beside a workspace.
#[derive(Debug)]
pub struct PlacedRow {
    pub row: IndexRow,
    /// Its root is the same directory as the workspace, or one below it.
    pub inside: bool,
}

/// The row belongs to the workspace: it has a root, which is the workspace or lies inside it.
pub open spec fn belongs(placed: PlacedRow, workspace: Seq<char>) -> bool {
    let root = placed.row.workspace_root@;
    root.len() > 0 && (root == workspace || placed.inside)
}

/// The sessions of the rows that belong to the workspace, in the order of the rows.
pub open spec fn sessions_of(rows: Seq<PlacedRow>, workspace: Seq<char>) -> Seq<SessionView>
    decreases rows.len(),
{
    if rows.len() == 0 {
        seq![]
    } else {
        let rest = sessions_of(rows.drop_last(), workspace);
        if belongs(rows.last(), workspace) {
            rest.push(session_of(rows.last().row))
        } else {
            rest
        }
    }
}

/// The sessions whose root is `workspace` or lies inside it.
pub fn discover_muse(rows: &Vec<PlacedRow>, workspace: &str) -> (r: Vec<SessionFile>)
    ensures
        session_views(r@) == sessions_of(rows@, workspace@),
{
    let mut r: Vec<SessionFile> = Vec::new();
    let mut i: usize = 0;
    proof {
        assert(session_views(r@) =~= seq![]);
    }
    while i < rows.len()
        invariant
            i <= rows@.len(),
            session_views(r@) == sessions_of(rows@.take(i as int), workspace@),
        decreases rows.len() - i,
    {
        let row: &IndexRow = &rows[i].row;
        proof {
            let next = rows@.take(i + 1);
            assert(next.drop_last() =~= rows@.take(i as int));
            assert(next.last() == rows@[i as int]);
        }
        if !row.workspace_root.as_str().is_empty() && (text::same(
            row.workspace_root.as_str(),
            workspace,
        ) || rows[i].inside) {
            let ghost before = r@;
            let session: SessionFile = SessionFile {
                engine: "muse",
                session_id: row.session_id.clone(),
                workspace_path: row.workspace_root.clone(),
                file_path: row.log_path.clone(),
            };
            proof {
                assert(session@ =~= session_of(*row));
            }
            r.push(session);
            proof {
                assert(session_views(r@) =~= session_views(before).push(session@));
            }
        }
        i = i + 1;
    }
    proof {
        assert(rows@.take(i as int) =~= rows@);
    }
    r
}

/// The session that a journal belongs to: the name of the directory that the journal is in.
pub open spec fn journal_session(path: Seq<char>) -> Option<Seq<char>> {
    let names = paths::components(path);
    if names.len() > 0 {
        paths::last_name(names.drop_last())
    } else {
        None
    }
}

/// `id` is the session that a journal belongs to, by the ways to read its path.
pub open spec fn session_in(path: Seq<char>, id: Option<Seq<char>>) -> bool {
    exists|up: Option<Seq<char>>| #[trigger]
        paths::above(path, up) && (match up {
            Some(dir) => paths::named(dir, id),
            None => id is None,
        })
}

/// The session that the journal at `path` belongs to.
pub fn session_id_from_log(path: &str) -> (r: Option<String>)
    ensures
        session_in(path@, command::maybe(r)),
        paths::portable(path@) ==> command::maybe(r) == journal_session(path@),
{
    let up: Option<String> = paths::parent(path);
    proof {
        assert(paths::above(path@, command::maybe(up)));
        if paths::portable(path@) {
            paths::lemma_portable(path@);
            if up is Some {
                let dir = up->0@;
                paths::lemma_portable_start(path@, dir.len() as int);
                paths::lemma_portable(dir);
            }
        }
    }
    match up {
        Some(dir) => paths::file_name(dir.as_str()),
        None => None,
    }
}

// ---------------------------------------------------------------------------
// Summaries
// ---------------------------------------------------------------------------
/// A text that is to be shown, cut to a number of characters.
#[derive(Debug)]
pub struct Excerpt {
    pub text: String,
    pub max_chars: usize,
}

/// The summary of a session.
#[derive(Debug)]
pub struct ScanSummary {
    pub title: Excerpt,
    pub preview: Excerpt,
    /// When it began, in milliseconds.
    pub first_ts: Option<i64>,
    /// When it was last active, in milliseconds.
    pub last_ts: Option<i64>,
    pub message_count: i64,
}

/// The summary of an index row: its title, or its first prompt where the title is blank.
pub open spec fn summarizes(summary: ScanSummary, row: IndexRow) -> bool {
    &&& summary.title.text@ == (if text::blank(row.title@) {
        row.first_prompt@
    } else {
        row.title@
    })
    &&& summary.title.max_chars == 80
    &&& summary.preview.text@ == row.first_prompt@
    &&& summary.preview.max_chars == 120
    &&& summary.first_ts == row.created_ms
    &&& summary.last_ts == row.updated_ms
    &&& summary.message_count == row.prompt_count
}

/// The summary of an index row.
pub fn summary_from_row(row: &IndexRow) -> (r: ScanSummary)
    ensures
        summarizes(r, *row),
{
    let title: String = if text::is_blank(row.title.as_str()) {
        row.first_prompt.clone()
    } else {
        row.title.clone()
    };
    ScanSummary {
        title: Excerpt { text: title, max_chars: 80 },
        preview: Excerpt { text: row.first_prompt.clone(), max_chars: 120 },
        first_ts: row.created_ms,
        last_ts: row.updated_ms,
        message_count: row.prompt_count,
    }
}

/// The place of the first row of a session, or the number of rows.
pub open spec fn row_place(rows: Seq<IndexRow>, id: Seq<char>) -> int
    decreases rows.len(),
{
    if rows.len() == 0 || rows[0].session_id@ == id {
        0
    } else {
        1 + row_place(rows.drop_first(), id)
    }
}

/// The place of the first row of the session `id`, or the number of rows.
pub fn find_row(rows: &Vec<IndexRow>, id: &str) -> (r: usize)
    ensures
        r == row_place(rows@, id@),
        r <= rows@.len(),
{
    let mut i: usize = 0;
    proof {
        assert(rows@.skip(0) =~= rows@);
    }
    while i < rows.len()
        invariant
            i <= rows@.len(),
            row_place(rows@, id@) == i + row_place(rows@.skip(i as int), id@),
        decreases rows.len() - i,
    {
        if text::same(rows[i].session_id.as_str(), id) {
            return i;
        }
        proof {
            assert(rows@.skip(i as int).drop_first() =~= rows@.skip(i + 1));
        }
        i = i + 1;
    }
    i
}

/// What the index tells of a session: the summary of its first row, or nothing where it has none.
pub open spec fn tells(rows: Seq<IndexRow>, id: Option<Seq<char>>, told: Option<ScanSummary>) -> bool {
    match told {
        Some(summary) => {
            &&& id matches Some(name)
            &&& 0 <= row_place(rows, name) < rows.len()
            &&& summarizes(summary, rows[row_place(rows, name)])
        },
        None => id matches Some(name) ==> row_place(rows, name) >= rows.len(),
    }
}

/// The summary of session `id` by the index `rows`, or nothing where the index does not have it.
pub fn index_summary(id: Option<&str>, rows: &Vec<IndexRow>) -> (r: Option<ScanSummary>)
    ensures
        tells(
            rows@,
            match id {
                Some(name) => Some(name@),
                None => None,
            },
            r,
        ),
{
    match id {
        Some(name) => {
            let i: usize = find_row(rows, name);
            if i < rows.len() {
                Some(summary_from_row(&rows[i]))
            } else {
                None
            }
        },
        None => None,
    }
}

/// The summary, by the index `rows`, of the session whose journal is at `path`. There is none
/// where the index does not have the session; the journal itself tells then.
pub fn scan_muse_summary(path: &str, rows: &Vec<IndexRow>) -> (r: Option<ScanSummary>)
    ensures
        exists|id: Option<Seq<char>>| #[trigger]
            session_in(path@, id) && tells(rows@, id, r),
        paths::portable(path@) ==> tells(rows@, journal_session(path@), r),
{
    let id: Option<String> = session_id_from_log(path);
    proof {
        assert(session_in(path@, command::maybe(id)));
    }
    match id {
        Some(name) => index_summary(Some(name.as_str()), rows),
        None => index_summary(None, rows),
    }
}

// ---------------------------------------------------------------------------
// The journal
// ---------------------------------------------------------------------------
/// A message of a session.
#[derive(Debug)]
pub struct Message {
    /// Its number, from one.
    pub seq: i64,
    pub role: String,
    pub text: String,
    /// When it was recorded: milliseconds, in decimal.
    pub ts: Option<String>,
}

/// The messages of a session.
#[derive(Debug)]
pub struct ParsedSession {
    pub messages: Vec<Message>,
}

/// What a [`Message`] says.
#[verifier::ext_equal]
pub struct MessageView {
    pub seq: int,
    pub role: Seq<char>,
    pub text: Seq<char>,
    pub ts: Option<Seq<char>>,
}

impl View for Message {
    type V = MessageView;

    open spec fn view(&self) -> MessageView {
        MessageView {
            seq: self.seq as int,
            role: self.role@,
            text: self.text@,
            ts: command::maybe(self.ts),
        }
    }
}

/// What each message of a list says.
pub open spec fn message_views(messages: Seq<Message>) -> Seq<MessageView> {
    messages.map_values(|m: Message| m@)
}

/// The text of a content part: one of kind `text` that is not blank.
pub open spec fn part_texts(part: JsonTree) -> Seq<Seq<char>> {
    match (part.text_at("kind"@), part.text_at("text"@)) {
        (Some(kind), Some(s)) => if kind == "text"@ && !text::blank(s) {
            seq![s]
        } else {
            seq![]
        },
        _ => seq![],
    }
}

/// The texts of content parts.
pub open spec fn parts_texts(parts: Seq<JsonTree>) -> Seq<Seq<char>>
    decreases parts.len(),
{
    if parts.len() == 0 {
        seq![]
    } else {
        parts_texts(parts.drop_last()) + part_texts(parts.last())
    }
}

/// The texts under `content` of a model message.
pub open spec fn message_texts(message: JsonTree) -> Seq<Seq<char>> {
    match message.get("content"@) {
        Some(content) => match content.list() {
            Some(parts) => parts_texts(parts),
            None => seq![],
        },
        None => seq![],
    }
}

/// The texts of model messages.
pub open spec fn messages_texts(messages: Seq<JsonTree>) -> Seq<Seq<char>>
    decreases messages.len(),
{
    if messages.len() == 0 {
        seq![]
    } else {
        messages_texts(messages.drop_last()) + message_texts(messages.last())
    }
}

/// The texts of a payload.
pub open spec fn payload_texts(payload: JsonTree) -> Seq<Seq<char>> {
    match payload.get("model_messages"@) {
        Some(messages) => match messages.list() {
            Some(list) => messages_texts(list),
            None => seq![],
        },
        None => seq![],
    }
}

/// When a record was made: milliseconds, in decimal.
pub open spec fn record_ts(record: JsonTree) -> Option<Seq<char>> {
    match record.get("recorded_at"@) {
        Some(at) => match at.integer() {
            Some(us) => Some(number::integer(to_ms(us as int))),
            None => None,
        },
        None => None,
    }
}

/// The texts that a record says the user said.
pub open spec fn record_texts(record: JsonTree) -> Seq<Seq<char>> {
    if record.text_at("payload_type"@) == Some("runtime.user_intent.accepted"@) {
        match record.get("payload"@) {
            Some(payload) => payload_texts(payload),
            None => seq![],
        }
    } else {
        seq![]
    }
}

/// The message that a record is, as number `seq`, where it is a turn of the user that says
/// something.
pub open spec fn turn_of(record: JsonTree, seq: int) -> Option<MessageView> {
    if record_texts(record).len() > 0 {
        Some(
            MessageView {
                seq: seq,
                role: "user"@,
                text: split::joined(record_texts(record), "\n"@),
                ts: record_ts(record),
            },
        )
    } else {
        None
    }
}

/// The messages, with that of one more record where it is a turn.
pub open spec fn with_record(messages: Seq<MessageView>, record: JsonTree) -> Seq<MessageView> {
    match turn_of(record, messages.len() as int + 1) {
        Some(message) => messages.push(message),
        None => messages,
    }
}

/// The messages, with that of one more line of the journal. Lines that are blank or not JSON say
/// nothing.
pub open spec fn with_line(messages: Seq<MessageView>, line: Seq<char>) -> Seq<MessageView> {
    if text::blank(line) {
        messages
    } else {
        match json::json_text(text::trim(line)) {
            Some(record) => with_record(messages, record),
            None => messages,
        }
    }
}

/// The messages of the lines of a journal.
pub open spec fn journal_messages(lines: Seq<Seq<char>>) -> Seq<MessageView>
    decreases lines.len(),
{
    if lines.len() == 0 {
        seq![]
    } else {
        with_line(journal_messages(lines.drop_last()), lines.last())
    }
}

/// Adds the texts of a content part.
fn push_part(texts: &mut Vec<String>, part: &Json)
    ensures
        split::views(final(texts)@) == split::views(old(texts)@) + part_texts(part@),
{
    let ghost before = split::views(texts@);
    if let Some(kind) = part.str_at("kind") {
        if text::same(kind, "text") {
            if let Some(s) = part.str_at("text") {
                if !text::is_blank(s) {
                    command::push_arg(texts, s);
                }
            }
        }
    }
    proof {
        assert(split::views(texts@) =~= before + part_texts(part@));
    }
}

/// Adds the texts of a model message.
fn push_message(texts: &mut Vec<String>, message: &Json)
    ensures
        split::views(final(texts)@) == split::views(old(texts)@) + message_texts(message@),
{
    let ghost before = split::views(texts@);
    if let Some(content) = message.get("content") {
        if let Some(parts) = content.as_array() {
            let ghost trees = json::item_trees(parts@);
            let mut i: usize = 0;
            proof {
                assert(before + parts_texts(trees.take(0)) =~= before);
            }
            while i < parts.len()
                invariant
                    i <= parts@.len(),
                    trees == json::item_trees(parts@),
                    split::views(texts@) == before + parts_texts(trees.take(i as int)),
                decreases parts.len() - i,
            {
                push_part(texts, &parts[i]);
                proof {
                    let next = trees.take(i + 1);
                    assert(next.drop_last() =~= trees.take(i as int));
                    assert(next.last() == parts@[i as int]@);
                    assert(split::views(texts@) =~= before + parts_texts(next));
                }
                i = i + 1;
            }
            proof {
                assert(trees.take(i as int) =~= trees);
            }
            return;
        }
    }
    proof {
        assert(split::views(texts@) =~= before + message_texts(message@));
    }
}

/// The texts of a payload.
fn read_payload_texts(payload: &Json) -> (r: Vec<String>)
    ensures
        split::views(r@) == payload_texts(payload@),
{
    let mut r: Vec<String> = Vec::new();
    proof {
        assert(split::views(r@) =~= seq![]);
    }
    if let Some(messages) = payload.get("model_messages") {
        if let Some(list) = messages.as_array() {
            let ghost trees = json::item_trees(list@);
            let mut i: usize = 0;
            while i < list.len()
                invariant
                    i <= list@.len(),
                    trees == json::item_trees(list@),
                    split::views(r@) == messages_texts(trees.take(i as int)),
                decreases list.len() - i,
            {
                push_message(&mut r, &list[i]);
                proof {
                    let next = trees.take(i + 1);
                    assert(next.drop_last() =~= trees.take(i as int));
                    assert(next.last() == list@[i as int]@);
                }
                i = i + 1;
            }
            proof {
                assert(trees.take(i as int) =~= trees);
            }
        }
    }
    r
}

/// When a record was made.
fn read_ts(record: &Json) -> (r: Option<String>)
    ensures
        command::maybe(r) == record_ts(record@),
{
    match record.get("recorded_at") {
        Some(at) => match at.as_i64() {
            Some(us) => Some(number::integer_text(us_to_ms(us))),
            None => None,
        },
        None => None,
    }
}

/// Adds the message that `record` is, where it is a turn of the user that says something.
pub fn push_record(messages: &mut Vec<Message>, record: &Json)
    requires
        old(messages)@.len() < i64::MAX,
    ensures
        message_views(final(messages)@) == with_record(message_views(old(messages)@), record@),
{
    match record.str_at("payload_type") {
        Some(kind) => {
            if !text::same(kind, "runtime.user_intent.accepted") {
                return;
            }
        },
        None => {
            return;
        },
    }
    let payload: &Json = match record.get("payload") {
        Some(payload) => payload,
        None => {
            return;
        },
    };
    let texts: Vec<String> = read_payload_texts(payload);
    proof {
        assert(split::views(texts@).len() == texts@.len());
    }
    if texts.len() == 0 {
        return;
    }
    let ghost before = messages@;
    let message: Message = Message {
        seq: messages.len() as i64 + 1,
        role: "user".to_owned(),
        text: split::join(&texts, "\n"),
        ts: read_ts(record),
    };
    messages.push(message);
    proof {
        assert(message_views(messages@) =~= message_views(before).push(message@));
    }
}

/// The turns of the user in a journal with the text `data`.
pub fn parse_muse_session(data: &str) -> (r: ParsedSession)
    requires
        data@.len() < i64::MAX,
    ensures
        message_views(r.messages@) == journal_messages(split::lines(data@)),
{
    let list: Vec<String> = split::lines_of(data);
    let ghost all = split::views(list@);
    let mut messages: Vec<Message> = Vec::new();
    let mut i: usize = 0;
    proof {
        assert(message_views(messages@) =~= seq![]);
    }
    while i < list.len()
        invariant
            i <= list@.len() <= data@.len() < i64::MAX,
            all == split::views(list@),
            messages@.len() <= i,
            message_views(messages@) == journal_messages(all.take(i as int)),
        decreases list.len() - i,
    {
        let ghost before = messages@;
        let line: &str = text::trimmed(list[i].as_str());
        proof {
            let next = all.take(i + 1);
            assert(next.drop_last() =~= all.take(i as int));
            assert(next.last() == list@[i as int]@);
        }
        if !line.is_empty() {
            if let Some(record) = json::parse_json(line) {
                push_record(&mut messages, &record);
                proof {
                    assert(message_views(messages@).len() == messages@.len());
                    assert(message_views(before).len() == before.len());
                }
            }
        }
        i = i + 1;
    }
    proof {
        assert(all.take(i as int) =~= all);
    }
    ParsedSession { messages }
}

/// The first of some times that is known.
pub open spec fn first_known(times: Seq<Option<i64>>) -> Option<i64>
    decreases times.len(),
{
    if times.len() == 0 {
        None
    } else if first_known(times.drop_last()) is Some {
        first_known(times.drop_last())
    } else {
        times.last()
    }
}

/// The first message that is not blank, or an empty text.
pub open spec fn first_said(messages: Seq<MessageView>) -> Seq<char>
    decreases messages.len(),
{
    if messages.len() == 0 {
        seq![]
    } else if first_said(messages.drop_last()).len() > 0 || text::blank(messages.last().text) {
        first_said(messages.drop_last())
    } else {
        messages.last().text
    }
}

/// A message with its time.
#[derive(Debug)]
pub struct TimedMessage {
    pub message: Message,
    /// Its `ts` as milliseconds, where it can be read.
    pub time: Option<i64>,
}

/// What each message of a list says.
pub open spec fn timed_views(turns: Seq<TimedMessage>) -> Seq<MessageView> {
    turns.map_values(|t: TimedMessage| t.message@)
}

/// The time of each message of a list.
pub open spec fn times_of(turns: Seq<TimedMessage>) -> Seq<Option<i64>> {
    turns.map_values(|t: TimedMessage| t.time)
}

/// The summary of a session from its journal: what the user said first, no preview, the first time
/// that is known, the time of the last message, and the number of messages.
pub open spec fn sums_up(summary: ScanSummary, turns: Seq<TimedMessage>) -> bool {
    &&& summary.title.text@ == first_said(timed_views(turns))
    &&& summary.title.max_chars == 80
    &&& summary.preview.text@.len() == 0
    &&& summary.preview.max_chars == 120
    &&& summary.first_ts == first_known(times_of(turns))
    &&& summary.last_ts == (if turns.len() > 0 {
        turns.last().time
    } else {
        None
    })
    &&& summary.message_count == turns.len()
}

/// The summary of a session from the messages of its journal.
pub fn journal_summary(turns: &Vec<TimedMessage>) -> (r: ScanSummary)
    requires
        turns@.len() <= i64::MAX,
    ensures
        sums_up(r, turns@),
{
    let mut title: String = String::new();
    let mut first_ts: Option<i64> = None;
    let mut last_ts: Option<i64> = None;
    let mut i: usize = 0;
    let ghost all = timed_views(turns@);
    let ghost times = times_of(turns@);
    while i < turns.len()
        invariant
            i <= turns@.len(),
            all == timed_views(turns@),
            times == times_of(turns@),
            title@ == first_said(all.take(i as int)),
            first_ts == first_known(times.take(i as int)),
            last_ts == (if i > 0 {
                turns@[i - 1].time
            } else {
                None
            }),
        decreases turns.len() - i,
    {
        let turn: &TimedMessage = &turns[i];
        proof {
            let next = all.take(i + 1);
            assert(next.drop_last() =~= all.take(i as int));
            assert(next.last() == turn.message@);
            let next_times = times.take(i + 1);
            assert(next_times.drop_last() =~= times.take(i as int));
            assert(next_times.last() == turn.time);
        }
        if title.as_str().is_empty() && !text::is_blank(turn.message.text.as_str()) {
            title = turn.message.text.clone();
        }
        if first_ts.is_none() {
            first_ts = turn.time;
        }
        last_ts = turn.time;
        i = i + 1;
    }
    proof {
        assert(all.take(i as int) =~= all);
        assert(times.take(i as int) =~= times);
    }
    ScanSummary {
        title: Excerpt { text: title, max_chars: 80 },
        preview: Excerpt { text: String::new(), max_chars: 120 },
        first_ts,
        last_ts,
        message_count: turns.len() as i64,
    }
}

/// The summary of a session: what the index told of it, or else what its journal says.
pub fn session_summary(told: Option<ScanSummary>, turns: &Vec<TimedMessage>) -> (r: ScanSummary)
    requires
        turns@.len() <= i64::MAX,
    ensures
        match told {
            Some(summary) => r == summary,
            None => sums_up(r, turns@),
        },
{
    match told {
        Some(summary) => summary,
        None => journal_summary(turns),
    }
}

} // verus!
