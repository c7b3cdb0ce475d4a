//! What holds of past sessions, row by row and line by line.
use crate::history::muse;
use crate::history::muse::IndexRow;
use crate::history::muse::Message;
use crate::history::muse::MessageView;
use crate::history::muse::ParsedSession;
use crate::history::muse::PlacedRow;
use crate::history::muse::ScanSummary;
use crate::history::muse::SessionFile;
use crate::history::muse::SessionView;
use crate::history::muse::StoredRow;
use crate::history::muse::TimedMessage;
use crate::json;
use crate::json::JsonTree;
use crate::laws;
use crate::number;
use crate::paths;
use crate::split;
use crate::text;
use vstd::prelude::*;

verus! {

// ---------------------------------------------------------------------------
// The index
// ---------------------------------------------------------------------------
/// `ms` is the whole number of milliseconds in `us` microseconds: less than one millisecond is left
/// over, and it is left over away from zero.
pub open spec fn whole_ms(us: int, ms: int) -> bool {
    &&& -1000 < us - 1000 * ms < 1000
    &&& us >= 0 ==> 0 <= 1000 * ms <= us
    &&& us <= 0 ==> us <= 1000 * ms <= 0
}

/// Times are cut to whole milliseconds.
pub proof fn law_milliseconds(us: int, ms: int)
    ensures
        whole_ms(us, muse::to_ms(us)),
        whole_ms(us, ms) ==> ms == muse::to_ms(us),
{
}

/// What a conversion of a time gives.
pub proof fn law_time_is_converted(us: i64, ms: i64)
    requires
        call_ensures(muse::us_to_ms, (us,), ms),
    ensures
        whole_ms(us as int, ms as int),
{
    law_milliseconds(us as int, ms as int);
}

/// `ms` is the time `us` in whole milliseconds, where that is known.
pub open spec fn same_time(us: Option<i64>, ms: Option<i64>) -> bool {
    &&& us is Some <==> ms is Some
    &&& us is Some ==> whole_ms(us->0 as int, ms->0 as int)
}

/// A row is read field by field: texts as they stand, what is missing as empty or zero, and times in
/// milliseconds.
pub proof fn law_row_is_read(row: StoredRow, r: IndexRow)
    requires
        call_ensures(muse::index_row, (row,), r),
    ensures
        r.session_id@ == row.session_id@,
        r.log_path@ == row.log_path@,
        r.title@ == row.title@,
        row.workspace_root matches Some(s) ==> r.workspace_root@ == s@,
        row.workspace_root is None ==> r.workspace_root@.len() == 0,
        row.first_prompt matches Some(s) ==> r.first_prompt@ == s@,
        row.first_prompt is None ==> r.first_prompt@.len() == 0,
        row.prompt_count matches Some(n) ==> r.prompt_count == n,
        row.prompt_count is None ==> r.prompt_count == 0,
        same_time(row.created_us, r.created_ms),
        same_time(row.updated_us, r.updated_ms),
{
    if row.created_us is Some && r.created_ms is Some {
        law_milliseconds(row.created_us->0 as int, r.created_ms->0 as int);
    }
    if row.updated_us is Some && r.updated_ms is Some {
        law_milliseconds(row.updated_us->0 as int, r.updated_ms->0 as int);
    }
}

/// The sessions of a workspace are those of the rows with a root that is the workspace or lies inside
/// it, in the order of the rows, each with the id, the root and the journal of its row.
pub proof fn law_sessions_in_order(rows: Seq<PlacedRow>, workspace: Seq<char>)
    ensures
        muse::sessions_of(rows, workspace) == rows.filter(
            |p: PlacedRow|
                p.row.workspace_root@.len() > 0 && (p.inside || p.row.workspace_root@ == workspace),
        ).map_values(
            |p: PlacedRow|
                (SessionView {
                    engine: "muse"@,
                    session_id: p.row.session_id@,
                    workspace_path: p.row.workspace_root@,
                    file_path: p.row.log_path@,
                }),
        ),
    decreases rows.len(),
{
    reveal(Seq::filter);
    let picked = rows.filter(
        |p: PlacedRow|
            p.row.workspace_root@.len() > 0 && (p.inside || p.row.workspace_root@ == workspace),
    );
    if rows.len() > 0 {
        law_sessions_in_order(rows.drop_last(), workspace);
    }
    assert(muse::sessions_of(rows, workspace) =~= picked.map_values(
        |p: PlacedRow|
            (SessionView {
                engine: "muse"@,
                session_id: p.row.session_id@,
                workspace_path: p.row.workspace_root@,
                file_path: p.row.log_path@,
            }),
    ));
}

/// The name of a file or of a directory below another.
pub open spec fn plain_name(name: Seq<char>) -> bool {
    name.len() > 0 && laws::lacks(name, '/') && name != seq!['.']
}

/// A journal belongs to the session that the directory is called after in which it lies, and one
/// that lies in no directory with a name belongs to none.
pub proof fn law_journal_places(dir: Seq<char>, id: Seq<char>, file: Seq<char>)
    requires
        plain_name(id),
        plain_name(file),
    ensures
        muse::journal_session(dir + seq!['/'] + id + seq!['/'] + file) == (if id == seq![
            '.',
            '.',
        ] {
            None
        } else {
            Some(id)
        }),
        muse::journal_session(id + seq!['/'] + file) == (if id == seq!['.', '.'] {
            None
        } else {
            Some(id)
        }),
        muse::journal_session(file) is None,
        muse::journal_session(seq!['/'] + file) is None,
        muse::journal_session(seq![]) is None,
{
    let none = Seq::<char>::empty();
    let inner = dir + seq!['/'] + id;
    laws::law_one_name(id);
    laws::law_one_name(file);
    laws::law_one_name(none);
    laws::law_names_add_up(dir, id);
    laws::law_names_add_up(inner, file);
    laws::law_names_add_up(id, file);
    laws::law_names_add_up(none, file);
    let names = paths::components(inner);
    assert((names + seq![file]).drop_last() =~= names);
    assert(names.last() == id);
    assert((seq![id] + seq![file]).drop_last() =~= seq![id]);
    assert(none + seq!['/'] + file =~= seq!['/'] + file);
    assert(paths::components(none) + seq![file] =~= seq![file]);
    assert(seq![file].drop_last() =~= seq![]);
}

// ---------------------------------------------------------------------------
// Summaries
// ---------------------------------------------------------------------------
/// The summary of a row has its title, or its first prompt where the title says nothing, its first
/// prompt for a preview, its times and its number of prompts.
pub proof fn law_row_summaries(summary: ScanSummary, row: IndexRow)
    requires
        muse::summarizes(summary, row),
    ensures
        laws::all_white(row.title@) ==> summary.title.text@ == row.first_prompt@,
        !laws::all_white(row.title@) ==> summary.title.text@ == row.title@,
        summary.title.max_chars == 80,
        summary.preview.text@ == row.first_prompt@,
        summary.preview.max_chars == 120,
        summary.first_ts == row.created_ms,
        summary.last_ts == row.updated_ms,
        summary.message_count == row.prompt_count,
{
    laws::law_trim_blank(row.title@);
}

/// The row at place `i` is the first of the session.
pub open spec fn first_row(rows: Seq<IndexRow>, i: int, id: Seq<char>) -> bool {
    &&& 0 <= i < rows.len()
    &&& rows[i].session_id@ == id
    &&& forall|j: int| 0 <= j < i ==> (#[trigger] rows[j]).session_id@ != id
}

proof fn lemma_row_place(rows: Seq<IndexRow>, i: int, id: Seq<char>)
    requires
        first_row(rows, i, id),
    ensures
        muse::row_place(rows, id) == i,
    decreases rows.len(),
{
    if i > 0 {
        let rest = rows.drop_first();
        assert(rows[0].session_id@ != id);
        assert forall|j: int| 0 <= j < i - 1 implies (#[trigger] rest[j]).session_id@ != id by {
            assert(rows[j + 1] == rest[j]);
        }
        lemma_row_place(rest, i - 1, id);
    }
}

proof fn lemma_no_row(rows: Seq<IndexRow>, id: Seq<char>)
    requires
        forall|i: int| 0 <= i < rows.len() ==> (#[trigger] rows[i]).session_id@ != id,
    ensures
        muse::row_place(rows, id) == rows.len(),
    decreases rows.len(),
{
    if rows.len() > 0 {
        let rest = rows.drop_first();
        assert(rows[0].session_id@ != id);
        assert forall|j: int| 0 <= j < rest.len() implies (#[trigger] rest[j]).session_id@
            != id by {
            assert(rows[j + 1] == rest[j]);
        }
        lemma_no_row(rest, id);
    }
}

/// The index tells of a session what its first row says, and tells nothing exactly when no row is of
/// the session, or the session is not known.
pub proof fn law_index_tells(
    rows: Seq<IndexRow>,
    id: Seq<char>,
    i: int,
    told: Option<ScanSummary>,
)
    requires
        muse::tells(rows, Some(id), told),
    ensures
        first_row(rows, i, id) ==> told is Some && muse::summarizes(told->0, rows[i]),
        (forall|k: int| 0 <= k < rows.len() ==> (#[trigger] rows[k]).session_id@ != id)
            ==> told is None,
{
    if first_row(rows, i, id) {
        lemma_row_place(rows, i, id);
    }
    if forall|k: int| 0 <= k < rows.len() ==> (#[trigger] rows[k]).session_id@ != id {
        lemma_no_row(rows, id);
    }
}

/// Of a session that is not known the index tells nothing.
pub proof fn law_index_tells_nothing(rows: Seq<IndexRow>, told: Option<ScanSummary>)
    requires
        muse::tells(rows, None, told),
    ensures
        told is None,
{
}

/// Place `i` has the first time that is known.
pub open spec fn known_first(times: Seq<Option<i64>>, i: int) -> bool {
    &&& 0 <= i < times.len()
    &&& times[i] is Some
    &&& forall|j: int| 0 <= j < i ==> (#[trigger] times[j]) is None
}

/// The first time that is known is found, and none where no time is.
pub proof fn law_first_time(times: Seq<Option<i64>>, i: int)
    ensures
        known_first(times, i) ==> muse::first_known(times) == times[i],
        (forall|j: int| 0 <= j < times.len() ==> (#[trigger] times[j]) is None)
            ==> muse::first_known(times) is None,
    decreases times.len(),
{
    if times.len() > 0 {
        let rest = times.drop_last();
        let last = times.len() - 1;
        law_first_time(rest, i);
        if known_first(times, i) && i < last {
            assert forall|j: int| 0 <= j < i implies (#[trigger] rest[j]) is None by {
                assert(times[j] == rest[j]);
            }
            assert(known_first(rest, i));
        }
        if known_first(times, i) && i == last {
            assert forall|j: int| 0 <= j < rest.len() implies (#[trigger] rest[j]) is None by {
                assert(times[j] == rest[j]);
            }
        }
        if forall|j: int| 0 <= j < times.len() ==> (#[trigger] times[j]) is None {
            assert forall|j: int| 0 <= j < rest.len() implies (#[trigger] rest[j]) is None by {
                assert(times[j] == rest[j]);
            }
            assert(times[last] is None);
        }
    }
}

/// Place `i` has the first message that says something.
pub open spec fn says_first(messages: Seq<MessageView>, i: int) -> bool {
    &&& 0 <= i < messages.len()
    &&& !laws::all_white(messages[i].text)
    &&& forall|j: int| 0 <= j < i ==> laws::all_white((#[trigger] messages[j]).text)
}

/// The first message that says something is found, whole, and an empty text where none does.
pub proof fn law_first_message(messages: Seq<MessageView>, i: int)
    ensures
        says_first(messages, i) ==> muse::first_said(messages) == messages[i].text,
        (forall|j: int| 0 <= j < messages.len() ==> laws::all_white((#[trigger] messages[j]).text))
            ==> muse::first_said(messages).len() == 0,
    decreases messages.len(),
{
    if messages.len() > 0 {
        let rest = messages.drop_last();
        let last = messages.len() - 1;
        law_first_message(rest, i);
        laws::law_trim_blank(messages.last().text);
        assert(messages[last] == messages.last());
        if says_first(messages, i) && i < last {
            assert forall|j: int| 0 <= j < i implies laws::all_white((#[trigger] rest[j]).text) by {
                assert(messages[j] == rest[j]);
            }
            assert(rest[i] == messages[i]);
            assert(says_first(rest, i));
            assert(rest[i].text.len() > 0);
        }
        if says_first(messages, i) && i == last {
            assert forall|j: int| 0 <= j < rest.len() implies laws::all_white(
                (#[trigger] rest[j]).text,
            ) by {
                assert(messages[j] == rest[j]);
            }
        }
        if forall|j: int|
            0 <= j < messages.len() ==> laws::all_white((#[trigger] messages[j]).text) {
            assert forall|j: int| 0 <= j < rest.len() implies laws::all_white(
                (#[trigger] rest[j]).text,
            ) by {
                assert(messages[j] == rest[j]);
            }
            assert(laws::all_white(messages[last].text));
        }
    }
}

/// The summary of a journal has the first message that says something for its title, no preview, the
/// first time that is known, the time of the last message and the number of messages.
pub proof fn law_journal_summaries(summary: ScanSummary, turns: Seq<TimedMessage>)
    requires
        muse::sums_up(summary, turns),
    ensures
        summary.title.text@ == muse::first_said(turns.map_values(|t: TimedMessage| t.message@)),
        summary.title.max_chars == 80,
        summary.preview.text@.len() == 0,
        summary.preview.max_chars == 120,
        summary.first_ts == muse::first_known(turns.map_values(|t: TimedMessage| t.time)),
        turns.len() > 0 ==> summary.last_ts == turns[turns.len() - 1].time,
        turns.len() == 0 ==> summary.last_ts is None,
        summary.message_count == turns.len(),
{
    assert(muse::timed_views(turns) =~= turns.map_values(|t: TimedMessage| t.message@));
    assert(muse::times_of(turns) =~= turns.map_values(|t: TimedMessage| t.time));
}

// ---------------------------------------------------------------------------
// The journal
// ---------------------------------------------------------------------------
/// The part is a text that says something.
pub open spec fn says(part: JsonTree, s: Seq<char>) -> bool {
    &&& part matches JsonTree::Object(fields)
    &&& fields.contains_key("kind"@)
    &&& fields["kind"@] == JsonTree::Text("text"@)
    &&& fields.contains_key("text"@)
    &&& fields["text"@] == JsonTree::Text(s)
    &&& !laws::all_white(s)
}

/// A part of kind `text` gives its text, whole, unless that says nothing, and any other part gives
/// nothing.
pub proof fn law_parts(part: JsonTree, s: Seq<char>)
    ensures
        says(part, s) ==> muse::part_texts(part) == seq![s],
        (forall|t: Seq<char>| !#[trigger] says(part, t)) ==> muse::part_texts(part).len() == 0,
{
    laws::law_trim_blank(s);
    if muse::part_texts(part).len() > 0 {
        let t = part.text_at("text"@)->0;
        laws::law_trim_blank(t);
        assert(says(part, t));
    }
}

/// The value has the list under the key.
pub open spec fn holds(value: JsonTree, key: Seq<char>, items: Seq<JsonTree>) -> bool {
    &&& value matches JsonTree::Object(fields)
    &&& fields.contains_key(key)
    &&& fields[key] == JsonTree::List(items)
}

/// The value has no list under the key.
pub open spec fn holds_none(value: JsonTree, key: Seq<char>) -> bool {
    value matches JsonTree::Object(fields) ==> fields.contains_key(key) ==> !(fields[key] is List)
}

/// A message gives what its parts give, in their order.
pub proof fn law_messages(
    message: JsonTree,
    parts: Seq<JsonTree>,
    part: JsonTree,
)
    ensures
        muse::parts_texts(seq![]).len() == 0,
        muse::parts_texts(parts.push(part)) == muse::parts_texts(parts) + muse::part_texts(part),
        holds(message, "content"@, parts) ==> muse::message_texts(message) == muse::parts_texts(
            parts,
        ),
        holds_none(message, "content"@) ==> muse::message_texts(message).len() == 0,
{
    assert(parts.push(part).drop_last() =~= parts);
}

/// A payload gives what its messages give, in their order.
pub proof fn law_payloads(
    payload: JsonTree,
    messages: Seq<JsonTree>,
    message: JsonTree,
)
    ensures
        muse::messages_texts(seq![]).len() == 0,
        muse::messages_texts(messages.push(message)) == muse::messages_texts(messages)
            + muse::message_texts(message),
        holds(payload, "model_messages"@, messages) ==> muse::payload_texts(payload)
            == muse::messages_texts(messages),
        holds_none(payload, "model_messages"@) ==> muse::payload_texts(payload).len() == 0,
{
    assert(messages.push(message).drop_last() =~= messages);
}

/// A record is a turn exactly when it accepts what the user meant and its payload gives a text. The
/// turn is what the user said: all the texts, with line feeds between them.
pub proof fn law_turns(fields: Map<Seq<char>, JsonTree>, number: int)
    ensures
        ({
            let record = JsonTree::Object(fields);
            let accepted = fields.contains_key("payload_type"@) && fields["payload_type"@]
                == JsonTree::Text("runtime.user_intent.accepted"@) && fields.contains_key(
                "payload"@,
            );
            let texts = muse::payload_texts(fields["payload"@]);
            let turn = muse::turn_of(record, number);
            &&& turn is Some <==> accepted && texts.len() > 0
            &&& turn is Some ==> {
                &&& turn->0.seq == number
                &&& turn->0.role == "user"@
                &&& turn->0.text == split::joined(texts, seq!['\n'])
                &&& turn->0.ts == muse::record_ts(record)
            }
        }),
{
    reveal_strlit("\n");
    assert("\n"@ =~= seq!['\n']);
}

/// What is no object is no turn.
pub proof fn law_no_turns(record: JsonTree, number: int)
    requires
        !(record is Object),
    ensures
        muse::turn_of(record, number) is None,
{
}

/// The time of a turn is when it was recorded, in whole milliseconds and in decimal, where the
/// record has a whole number of microseconds for it.
pub proof fn law_turn_times(fields: Map<Seq<char>, JsonTree>, us: i64, ms: int)
    requires
        whole_ms(us as int, ms),
    ensures
        ({
            let ts = muse::record_ts(JsonTree::Object(fields));
            let at = fields["recorded_at"@];
            &&& !fields.contains_key("recorded_at"@) ==> ts is None
            &&& fields.contains_key("recorded_at"@) && at == JsonTree::Negative(us) ==> ts == Some(
                number::integer(ms),
            )
            &&& fields.contains_key("recorded_at"@) && us >= 0 && at == JsonTree::Natural(us as u64)
                ==> ts == Some(number::integer(ms))
            &&& fields.contains_key("recorded_at"@) && !(at is Negative) && !(at is Natural) ==> ts
                is None
        }),
{
    law_milliseconds(us as int, ms);
}

/// A line with a record adds the turn that the record is, as the next number, whatever white space
/// stands around it. Any other line adds nothing.
pub proof fn law_lines(
    messages: Seq<MessageView>,
    front: Seq<char>,
    core: Seq<char>,
    back: Seq<char>,
    record: JsonTree,
)
    requires
        laws::all_white(front),
        laws::all_white(back),
        laws::solid(core),
    ensures
        ({
            let more = muse::with_line(messages, front + core + back);
            &&& json::json_text(core) is None ==> more == messages
            &&& json::json_text(core) == Some(record) ==> more == (match muse::turn_of(
                record,
                messages.len() as int + 1,
            ) {
                Some(turn) => messages.push(turn),
                None => messages,
            })
        }),
        muse::with_line(messages, front) == messages,
{
    laws::law_trim(front, core, back);
    laws::law_trim_blank(front);
}

/// A journal is read line by line.
pub proof fn law_journal_is_read_in_order(lines: Seq<Seq<char>>, line: Seq<char>)
    ensures
        muse::journal_messages(seq![]).len() == 0,
        muse::journal_messages(lines.push(line)) == muse::with_line(
            muse::journal_messages(lines),
            line,
        ),
{
    assert(lines.push(line).drop_last() =~= lines);
}

// ---------------------------------------------------------------------------
// Calls
// ---------------------------------------------------------------------------
/// What a message says is what it holds.
pub proof fn law_message_views(message: Message)
    ensures
        message@.seq == message.seq,
        message@.role == message.role@,
        message@.text == message.text@,
        message@.ts is Some <==> message.ts is Some,
        message.ts matches Some(s) ==> message@.ts == Some(s@),
{
}

/// The sessions that are found are those of the workspace, in the order of the rows.
pub proof fn law_sessions_are_given(rows: &Vec<PlacedRow>, workspace: &str, r: Vec<SessionFile>)
    requires
        call_ensures(muse::discover_muse, (rows, workspace), r),
    ensures
        ({
            let sessions = muse::sessions_of(rows@, workspace@);
            &&& r@.len() == sessions.len()
            &&& forall|i: int|
                0 <= i < r@.len() ==> {
                    let session = #[trigger] r@[i];
                    &&& session.engine@ == sessions[i].engine
                    &&& session.session_id@ == sessions[i].session_id
                    &&& session.workspace_path@ == sessions[i].workspace_path
                    &&& session.file_path@ == sessions[i].file_path
                }
        }),
{
    let views = muse::session_views(r@);
    assert(views.len() == r@.len());
    assert forall|i: int| 0 <= i < r@.len() implies ({
        let session = #[trigger] r@[i];
        &&& session.engine@ == views[i].engine
        &&& session.session_id@ == views[i].session_id
        &&& session.workspace_path@ == views[i].workspace_path
        &&& session.file_path@ == views[i].file_path
    }) by {
        assert(views[i] == r@[i]@);
    }
}

/// The session of a journal is the one that its path gives, where the path means the same everywhere,
/// and its summary by the index is what the index tells of it.
pub proof fn law_journal_is_looked_up(
    path: &str,
    rows: &Vec<IndexRow>,
    id: Option<String>,
    told: Option<ScanSummary>,
)
    requires
        call_ensures(muse::session_id_from_log, (path,), id),
        call_ensures(muse::scan_muse_summary, (path, rows), told),
        paths::portable(path@),
    ensures
        id is Some <==> muse::journal_session(path@) is Some,
        id matches Some(s) ==> muse::journal_session(path@) == Some(s@),
        id matches Some(s) ==> muse::tells(rows@, Some(s@), told),
        id is None ==> told is None,
{
}

/// The summary of a row has what the row says.
pub proof fn law_row_is_summed_up(row: &IndexRow, r: ScanSummary)
    requires
        call_ensures(muse::summary_from_row, (row,), r),
    ensures
        laws::all_white(row.title@) ==> r.title.text@ == row.first_prompt@,
        !laws::all_white(row.title@) ==> r.title.text@ == row.title@,
        r.preview.text@ == row.first_prompt@,
        r.title.max_chars == 80,
        r.preview.max_chars == 120,
        r.first_ts == row.created_ms,
        r.last_ts == row.updated_ms,
        r.message_count == row.prompt_count,
{
    law_row_summaries(r, *row);
}

/// The messages of a journal are those of its lines.
pub proof fn law_journal_is_read(data: &str, r: ParsedSession)
    requires
        call_ensures(muse::parse_muse_session, (data,), r),
    ensures
        r.messages@.map_values(|m: Message| m@) == muse::journal_messages(split::lines(data@)),
{
    assert(muse::message_views(r.messages@) =~= r.messages@.map_values(|m: Message| m@));
}

/// The summary of a session is what the index told of it, and where it told nothing, what the journal
/// says.
pub proof fn law_session_is_summed_up(
    told: ScanSummary,
    turns: &Vec<TimedMessage>,
    kept: ScanSummary,
    summed: ScanSummary,
)
    requires
        call_ensures(muse::session_summary, (Some(told), turns), kept),
        call_ensures(muse::session_summary, (None, turns), summed),
    ensures
        kept == told,
        muse::sums_up(summed, turns@),
{
}

/// What stands between the names of a path: a slash or a backslash, or nothing more where the path
/// ends with something that parts names already.
pub open spec fn parts_names(between: Seq<char>) -> bool {
    between.len() == 0 || between == seq!['/'] || between == seq!['\\']
}

/// The directory of Muse lies below the home directory, and its index lies in it.
pub proof fn law_places(home: &str, dir: String, db: String) -> (between: (
    Seq<char>,
    Seq<char>,
    Seq<char>,
))
    requires
        call_ensures(muse::muse_home, (home,), dir),
        call_ensures(muse::index_db_path, (home,), db),
        paths::portable(home@),
    ensures
        parts_names(between.0),
        parts_names(between.1),
        parts_names(between.2),
        dir@ == home@ + between.0 + ".local/share/muse"@,
        db@ == home@ + between.1 + ".local/share/muse"@ + between.2 + "session-index.db"@,
{
    reveal_strlit(".local/share/muse");
    reveal_strlit("session-index.db");
    paths::lemma_portable(home@);
    let a = lemma_below(home@, ".local/share/muse"@, dir@);
    let inner = choose|inner: Seq<char>|
        #![trigger paths::joins(home@, ".local/share/muse"@, inner)]
        paths::joins(home@, ".local/share/muse"@, inner) && paths::joins(
            inner,
            "session-index.db"@,
            db@,
        );
    let b = lemma_below(home@, ".local/share/muse"@, inner);
    if home@.len() > 0 {
        assert(inner[0] == home@[0]);
        assert(home@.contains(home@[0]));
    } else {
        assert(paths::put_below(home@, ".local/share/muse"@, inner));
        assert(inner =~= ".local/share/muse"@);
    }
    let c = lemma_below(inner, "session-index.db"@, db@);
    (a, b, c)
}

proof fn lemma_below(base: Seq<char>, relative: Seq<char>, joined: Seq<char>) -> (between: Seq<char>)
    requires
        paths::joins(base, relative, joined),
        !paths::verbatim(base),
        relative.len() > 0,
        relative[0] != '/',
        relative[0] != '\\',
        !paths::drive(relative),
    ensures
        parts_names(between),
        joined == base + between + relative,
{
    let none = Seq::<char>::empty();
    assert(base + none =~= base);
    if joined == base + relative {
        none
    } else if joined == base + seq!['/'] + relative {
        seq!['/']
    } else {
        seq!['\\']
    }
}

} // verus!
