//! What holds of past sessions as a whole.
use crate::history::muse;
use crate::history::muse::IndexRow;
use crate::history::muse::MessageView;
use crate::history::muse::PlacedRow;
use crate::history::muse::SessionView;
use crate::json;
use crate::json::JsonTree;
use crate::split;
use crate::text;
use vstd::prelude::*;

verus! {

// ---------------------------------------------------------------------------
// The index
// ---------------------------------------------------------------------------
/// The row that tells of a session is the first of the session, and there is none only where no row
/// is of the session.
pub proof fn law_first_row_counts(rows: Seq<IndexRow>, id: Seq<char>)
    ensures
        ({
            let n = muse::row_place(rows, id);
            &&& 0 <= n <= rows.len()
            &&& n < rows.len() ==> rows[n].session_id@ == id
            &&& forall|i: int| 0 <= i < n ==> (#[trigger] rows[i]).session_id@ != id
        }),
    decreases rows.len(),
{
    if rows.len() > 0 && rows[0].session_id@ != id {
        let rest = rows.drop_first();
        law_first_row_counts(rest, id);
        assert forall|i: int| 0 <= i < muse::row_place(rows, id) implies (
        #[trigger] rows[i]).session_id@ != id by {
            if i > 0 {
                assert(rest[i - 1] == rows[i]);
            }
        }
    }
}

/// The sessions of a workspace are exactly those of the rows that belong to it.
pub proof fn law_sessions_of_workspace(
    rows: Seq<PlacedRow>,
    workspace: Seq<char>,
    session: SessionView,
)
    ensures
        muse::sessions_of(rows, workspace).contains(session) <==> exists|i: int|
            0 <= i < rows.len() && muse::belongs(#[trigger] rows[i], workspace)
                && muse::session_of(rows[i].row) == session,
    decreases rows.len(),
{
    if rows.len() > 0 {
        let rest = rows.drop_last();
        let n = rows.len() - 1;
        law_sessions_of_workspace(rest, workspace, session);
        let some = muse::sessions_of(rest, workspace);
        let all = muse::sessions_of(rows, workspace);
        if all.contains(session) {
            let k = choose|k: int| 0 <= k < all.len() && all[k] == session;
            if k < some.len() {
                assert(some[k] == session);
                let i = choose|i: int|
                    0 <= i < rest.len() && muse::belongs(#[trigger] rest[i], workspace)
                        && muse::session_of(rest[i].row) == session;
                assert(rows[i] == rest[i]);
            } else {
                assert(muse::belongs(rows[n], workspace));
            }
        }
        if exists|i: int|
            0 <= i < rows.len() && muse::belongs(#[trigger] rows[i], workspace)
                && muse::session_of(rows[i].row) == session {
            let i = choose|i: int|
                0 <= i < rows.len() && muse::belongs(#[trigger] rows[i], workspace)
                    && muse::session_of(rows[i].row) == session;
            if i < n {
                assert(rest[i] == rows[i]);
                let k = choose|k: int| 0 <= k < some.len() && some[k] == session;
                assert(all[k] == session);
            } else {
                assert(all[some.len() as int] == session);
            }
        }
    }
}

// ---------------------------------------------------------------------------
// The journal
// ---------------------------------------------------------------------------
proof fn lemma_joined_says(list: Seq<Seq<char>>, sep: Seq<char>)
    requires
        list.len() > 0,
        !text::blank(list.last()),
    ensures
        !text::blank(split::joined(list, sep)),
{
    let whole = split::joined(list, sep);
    let last = list.last();
    text::lemma_blank(last);
    text::lemma_blank(whole);
    let i = choose|i: int| 0 <= i < last.len() && !text::white(#[trigger] last[i]);
    assert(whole[whole.len() - last.len() + i] == last[i]);
}

proof fn lemma_parts_say(parts: Seq<JsonTree>)
    ensures
        forall|i: int|
            0 <= i < muse::parts_texts(parts).len() ==> !text::blank(
                #[trigger] muse::parts_texts(parts)[i],
            ),
    decreases parts.len(),
{
    if parts.len() > 0 {
        let some = muse::parts_texts(parts.drop_last());
        let all = muse::parts_texts(parts);
        lemma_parts_say(parts.drop_last());
        assert forall|i: int| 0 <= i < all.len() implies !text::blank(#[trigger] all[i]) by {
            if i < some.len() {
                assert(all[i] == some[i]);
            }
        }
    }
}

proof fn lemma_messages_say(messages: Seq<JsonTree>)
    ensures
        forall|i: int|
            0 <= i < muse::messages_texts(messages).len() ==> !text::blank(
                #[trigger] muse::messages_texts(messages)[i],
            ),
    decreases messages.len(),
{
    if messages.len() > 0 {
        let some = muse::messages_texts(messages.drop_last());
        let all = muse::messages_texts(messages);
        lemma_messages_say(messages.drop_last());
        let content = messages.last().get("content"@);
        if content is Some && content->0.list() is Some {
            lemma_parts_say(content->0.list()->0);
        }
        assert forall|i: int| 0 <= i < all.len() implies !text::blank(#[trigger] all[i]) by {
            if i < some.len() {
                assert(all[i] == some[i]);
            } else {
                assert(all[i] == muse::message_texts(messages.last())[i - some.len()]);
            }
        }
    }
}

proof fn lemma_record_says(record: JsonTree)
    ensures
        forall|i: int|
            0 <= i < muse::record_texts(record).len() ==> !text::blank(
                #[trigger] muse::record_texts(record)[i],
            ),
{
    let payload = record.get("payload"@);
    if payload is Some {
        let messages = payload->0.get("model_messages"@);
        if messages is Some && messages->0.list() is Some {
            lemma_messages_say(messages->0.list()->0);
        }
    }
}

/// A message of the user that says something.
pub open spec fn spoken(message: MessageView) -> bool {
    message.role == "user"@ && !text::blank(message.text)
}

proof fn lemma_with_line(messages: Seq<MessageView>, line: Seq<char>)
    ensures
        ({
            let more = muse::with_line(messages, line);
            ||| more == messages
            ||| (more == messages.push(more.last()) && more.last().seq == more.len() && spoken(
                more.last(),
            ))
        }),
{
    if !text::blank(line) {
        if let Some(record) = json::json_text(text::trim(line)) {
            let texts = muse::record_texts(record);
            lemma_record_says(record);
            if texts.len() > 0 {
                assert(!text::blank(texts[texts.len() - 1]));
                lemma_joined_says(texts, "\n"@);
            }
        }
    }
}

/// The messages of a journal are turns of the user that say something, numbered from one.
pub proof fn law_turns_are_numbered(lines: Seq<Seq<char>>)
    ensures
        muse::journal_messages(lines).len() <= lines.len(),
        forall|i: int|
            0 <= i < muse::journal_messages(lines).len() ==> {
                let message = #[trigger] muse::journal_messages(lines)[i];
                message.seq == i + 1 && spoken(message)
            },
    decreases lines.len(),
{
    if lines.len() > 0 {
        let rest = lines.drop_last();
        law_turns_are_numbered(rest);
        lemma_with_line(muse::journal_messages(rest), lines.last());
    }
}

/// A journal that grows keeps its messages: further lines only add messages behind them.
pub proof fn law_journal_grows(lines: Seq<Seq<char>>, more: Seq<Seq<char>>)
    ensures
        ({
            let messages = muse::journal_messages(lines);
            let all = muse::journal_messages(lines + more);
            messages.len() <= all.len() && all.take(messages.len() as int) == messages
        }),
    decreases more.len(),
{
    let messages = muse::journal_messages(lines);
    let all = muse::journal_messages(lines + more);
    if more.len() == 0 {
        assert(lines + more =~= lines);
        assert(messages.take(messages.len() as int) =~= messages);
    } else {
        let fewer = lines + more.drop_last();
        let some = muse::journal_messages(fewer);
        law_journal_grows(lines, more.drop_last());
        assert((lines + more).drop_last() =~= fewer);
        lemma_with_line(some, more.last());
        assert(all.take(messages.len() as int) =~= messages) by {
            assert forall|i: int| 0 <= i < messages.len() implies all[i] == messages[i] by {
                assert(some.take(messages.len() as int)[i] == some[i]);
            }
        }
    }
}

proof fn lemma_first_said(messages: Seq<MessageView>)
    requires
        messages.len() > 0,
        !text::blank(messages[0].text),
    ensures
        muse::first_said(messages) == messages[0].text,
    decreases messages.len(),
{
    text::lemma_blank(messages[0].text);
    if messages.len() > 1 {
        lemma_first_said(messages.drop_last());
    } else {
        assert(messages.drop_last() =~= seq![]);
        assert(muse::first_said(messages.drop_last()) =~= seq![]);
    }
}

/// The title that a journal gives a session is what the user said first.
pub proof fn law_title_is_the_first_turn(lines: Seq<Seq<char>>)
    ensures
        ({
            let messages = muse::journal_messages(lines);
            muse::first_said(messages) == (if messages.len() > 0 {
                messages[0].text
            } else {
                seq![]
            })
        }),
{
    let messages = muse::journal_messages(lines);
    law_turns_are_numbered(lines);
    if messages.len() > 0 {
        assert(spoken(messages[0]));
        lemma_first_said(messages);
    }
}

} // verus!
