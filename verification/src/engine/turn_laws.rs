//! What holds of the turns of the Muse engine.
use crate::engine::command;
use crate::engine::muse;
use crate::engine::muse::EventView;
use crate::engine::muse::SendRequest;
use crate::json;
use crate::json::JsonTree;
use crate::laws;
use crate::text;
use vstd::prelude::*;

verus! {

// ---------------------------------------------------------------------------
// The command line
// ---------------------------------------------------------------------------
/// The paths of the images that have one, in their order.
pub open spec fn image_paths(images: Seq<Option<String>>) -> Seq<Seq<char>> {
    images.filter(|image: Option<String>| image is Some).map_values(
        |image: Option<String>| image->0@,
    )
}

/// Pair `k` of the arguments is the flag and the value.
pub open spec fn flag_at(
    flags: Seq<Seq<char>>,
    k: int,
    name: Seq<char>,
    value: Seq<char>,
) -> bool {
    flags[2 * k] == name && flags[2 * k + 1] == value
}

/// `flags` names each of the paths, in their order, by a flag of its own, and nothing else.
pub open spec fn flags_of(flags: Seq<Seq<char>>, name: Seq<char>, paths: Seq<Seq<char>>) -> bool {
    &&& flags.len() == 2 * paths.len()
    &&& forall|k: int| 0 <= k < paths.len() ==> #[trigger] flag_at(flags, k, name, paths[k])
}

proof fn lemma_image_flags(images: Seq<Option<String>>)
    ensures
        flags_of(muse::image_flags(images), "--image"@, image_paths(images)),
    decreases images.len(),
{
    reveal(Seq::filter);
    let flags = muse::image_flags(images);
    let paths = image_paths(images);
    if images.len() > 0 {
        let rest = images.drop_last();
        lemma_image_flags(rest);
        let some = muse::image_flags(rest);
        let fewer = image_paths(rest);
        if images.last() is Some {
            assert(paths =~= fewer.push(images.last()->0@));
            assert(flags =~= some.push("--image"@).push(images.last()->0@));
            assert(flags.len() == 2 * paths.len());
            assert forall|k: int| 0 <= k < paths.len() implies #[trigger] flag_at(
                flags,
                k,
                "--image"@,
                paths[k],
            ) by {
                if k < fewer.len() {
                    assert(flag_at(some, k, "--image"@, fewer[k]));
                }
            }
        } else {
            assert(paths =~= fewer);
            assert(flags =~= some);
        }
    } else {
        assert(images.filter(|image: Option<String>| image is Some) =~= images);
        assert(paths.len() == 0);
    }
}

/// The value of a choice that says something, without the white space around it, behind its flag. A
/// choice that is missing or blank leaves nothing.
pub open spec fn choice_flag(name: Seq<char>, choice: Option<String>) -> Seq<Seq<char>> {
    if choice is Some && !laws::all_white(choice->0@) {
        seq![name, text::trim(choice->0@)]
    } else {
        seq![]
    }
}

/// How many arguments stand ahead of the images.
pub open spec fn option_count(req: SendRequest) -> int {
    2int + choice_flag("--session-id"@, req.session_id).len() + choice_flag(
        "--model"@,
        req.model,
    ).len() + choice_flag("--reasoning-effort"@, req.effort).len()
}

/// Each image that has a path is named by a flag of its own, in the order of the images, behind the
/// choices of session, model and effort, and ahead of the workspace, the mark and the prompt.
pub proof fn law_turn_arguments(req: SendRequest)
    ensures
        ({
            let args = muse::turn_args(req);
            let head = seq!["exec"@, "--json"@] + choice_flag("--session-id"@, req.session_id)
                + choice_flag("--model"@, req.model) + choice_flag(
                "--reasoning-effort"@,
                req.effort,
            );
            let paths = image_paths(req.images@);
            let n = option_count(req);
            &&& args.len() == n + 2 * paths.len() + 4
            &&& args.take(n) == head
            &&& flags_of(args.subrange(n, n + 2 * paths.len()), "--image"@, paths)
            &&& args.skip(n + 2 * paths.len()) == seq![
                "--workspace"@,
                req.workspace@,
                "--"@,
                req.prompt@,
            ]
        }),
{
    let args = muse::turn_args(req);
    let paths = image_paths(req.images@);
    let n = option_count(req);
    lemma_image_flags(req.images@);
    if req.session_id is Some {
        laws::law_trim_blank(req.session_id->0@);
    }
    if req.model is Some {
        laws::law_trim_blank(req.model->0@);
    }
    if req.effort is Some {
        laws::law_trim_blank(req.effort->0@);
    }
    let head = seq!["exec"@, "--json"@] + choice_flag("--session-id"@, req.session_id)
        + choice_flag("--model"@, req.model) + choice_flag("--reasoning-effort"@, req.effort);
    let tail = seq!["--workspace"@, req.workspace@, "--"@, req.prompt@];
    assert(args =~= head + muse::image_flags(req.images@) + tail);
    assert(args.take(n) =~= head);
    assert(args.subrange(n, n + 2 * paths.len()) =~= muse::image_flags(req.images@));
    assert(args.skip(n + 2 * paths.len()) =~= tail);
}

/// Whatever other images a turn has, each that has a path is an argument right behind its flag.
pub proof fn law_each_image_is_named(req: SendRequest, i: int) -> (k: int)
    requires
        0 <= i < req.images@.len(),
        req.images@[i] is Some,
    ensures
        0 <= k < muse::turn_args(req).len() - 4,
        muse::turn_args(req)[k] == "--image"@,
        muse::turn_args(req)[k + 1] == req.images@[i]->0@,
{
    broadcast use vstd::seq_lib::group_filter_ensures;

    law_turn_arguments(req);
    let present = req.images@.filter(|image: Option<String>| image is Some);
    assert(present.contains(req.images@[i]));
    let m = choose|m: int| 0 <= m < present.len() && present[m] == req.images@[i];
    let n = option_count(req);
    let paths = image_paths(req.images@);
    assert(paths[m] == req.images@[i]->0@);
    let flags = muse::turn_args(req).subrange(n, n + 2 * paths.len());
    assert(flag_at(flags, m, "--image"@, paths[m]));
    n + 2 * m
}

/// A turn is refused where it is to operate the computer, and else where it has no workspace, and
/// never for another reason.
pub proof fn law_turn_refusals(req: SendRequest)
    ensures
        req.computer_use == Some(true) ==> muse::turn_error(req) == Some(
            "操作电脑不支持 muse:没有可挂载的 MCP 驱动旗标"@,
        ),
        req.computer_use != Some(true) && req.workspace@.len() == 0 ==> muse::turn_error(req)
            == Some("muse 需要非空工作区(--workspace)"@),
        req.computer_use != Some(true) && req.workspace@.len() > 0 ==> muse::turn_error(req) is None,
{
}

/// The session that a turn is told to use is the trimmed one, and none where it is blank.
pub proof fn law_chosen(front: Seq<char>, core: Seq<char>, back: Seq<char>)
    requires
        laws::all_white(front),
        laws::all_white(back),
        core.len() == 0 || laws::solid(core),
    ensures
        muse::chosen(Some(front + core + back)) == (if core.len() == 0 {
            None
        } else {
            Some(core)
        }),
        muse::chosen(None) is None,
{
    let s = front + core + back;
    if core.len() == 0 {
        assert forall|i: int| 0 <= i < s.len() implies text::white(#[trigger] s[i]) by {
            if i < front.len() {
                assert(s[i] == front[i]);
            } else {
                assert(s[i] == back[i - front.len()]);
            }
        }
        laws::law_trim_blank(s);
    } else {
        laws::law_trim(front, core, back);
    }
}

// ---------------------------------------------------------------------------
// Events
// ---------------------------------------------------------------------------
/// The value is an envelope of the given kind.
pub open spec fn is_envelope(value: JsonTree, kind: Seq<char>) -> bool {
    &&& value matches JsonTree::Object(fields)
    &&& fields.contains_key("payload_type"@)
    &&& fields["payload_type"@] == JsonTree::Text(kind)
}

/// The envelope has the text under the key of its payload.
pub open spec fn carries(value: JsonTree, key: Seq<char>, s: Seq<char>) -> bool {
    &&& value matches JsonTree::Object(fields)
    &&& fields.contains_key("payload"@)
    &&& fields["payload"@] matches JsonTree::Object(payload)
    &&& payload.contains_key(key)
    &&& payload[key] == JsonTree::Text(s)
}

/// The envelope has no text under the key of its payload.
pub open spec fn carries_none(value: JsonTree, key: Seq<char>) -> bool {
    forall|s: Seq<char>| !#[trigger] carries(value, key, s)
}

/// The envelope belongs to the stream with the id.
pub open spec fn streamed(value: JsonTree, id: Seq<char>) -> bool {
    &&& value matches JsonTree::Object(fields)
    &&& fields.contains_key("stream"@)
    &&& fields["stream"@] matches JsonTree::Object(stream)
    &&& stream.contains_key("id"@)
    &&& stream["id"@] == JsonTree::Text(id)
}

/// The envelope belongs to no stream with an id that says something.
pub open spec fn unstreamed(value: JsonTree) -> bool {
    forall|id: Seq<char>| #[trigger] streamed(value, id) ==> laws::all_white(id)
}

proof fn lemma_carried(value: JsonTree, key: Seq<char>)
    ensures
        muse::payload_text(value, key) matches Some(s) ==> carries(value, key, s),
        forall|s: Seq<char>| #[trigger]
            carries(value, key, s) ==> muse::payload_text(value, key) == Some(s),
        carries_none(value, key) <==> muse::payload_text(value, key) is None,
{
    if muse::payload_text(value, key) is Some {
        assert(carries(value, key, muse::payload_text(value, key)->0));
    }
}

proof fn lemma_stream(value: JsonTree)
    ensures
        unstreamed(value) <==> muse::stream_of(value) is None,
        forall|id: Seq<char>| #[trigger]
            streamed(value, id) && !laws::all_white(id) ==> muse::stream_of(value) == Some(
                text::trim(id),
            ),
{
    assert forall|id: Seq<char>| #[trigger] streamed(value, id) implies muse::stream_of(value)
        == muse::chosen(Some(id)) by {}
    assert forall|id: Seq<char>| #[trigger] streamed(value, id) implies (muse::stream_of(value)
        is None <==> laws::all_white(id)) by {
        laws::law_trim_blank(id);
    }
    if muse::stream_of(value) is Some {
        let id = value.get("stream"@)->0.text_at("id"@)->0;
        assert(streamed(value, id));
        laws::law_trim_blank(id);
    } else {
        assert forall|id: Seq<char>| #[trigger] streamed(value, id) implies laws::all_white(
            id,
        ) by {}
    }
}

proof fn lemma_kinds()
    ensures
        "run.output.delta"@[4] == 'o',
        "run.lifecycle.started"@[4] == 'l',
        "run.model.configured"@[4] == 'm',
        forall|rest: Seq<char>| (#[trigger] ("run.terminal."@ + rest))[4] == 't',
{
    reveal_strlit("run.terminal.");
    reveal_strlit("run.output.delta");
    reveal_strlit("run.lifecycle.started");
    reveal_strlit("run.model.configured");
}

/// A piece of the answer is reported character for character, white space and all.
pub proof fn law_delta_is_kept_whole(value: JsonTree, s: Seq<char>)
    requires
        is_envelope(value, "run.output.delta"@),
        carries(value, "text"@, s),
    ensures
        muse::event_of(value) == (if s.len() > 0 {
            Some(EventView::Delta(s))
        } else {
            None
        }),
{
    lemma_carried(value, "text"@);
}

/// The start of a run reports the id of its stream, without the white space around it, and nothing
/// where the id says nothing.
pub proof fn law_start_reports_the_session(value: JsonTree)
    requires
        is_envelope(value, "run.lifecycle.started"@),
    ensures
        forall|id: Seq<char>| #[trigger]
            streamed(value, id) && !laws::all_white(id) ==> muse::event_of(value) == Some(
                EventView::SessionId(text::trim(id)),
            ),
        unstreamed(value) ==> muse::event_of(value) is None,
{
    lemma_kinds();
    lemma_stream(value);
}

/// The model is reported without the white space around its name, and not at all where that says
/// nothing.
pub proof fn law_model_is_reported(value: JsonTree)
    requires
        is_envelope(value, "run.model.configured"@),
    ensures
        forall|s: Seq<char>| #[trigger]
            carries(value, "model_id"@, s) ==> muse::event_of(value) == (if laws::all_white(s) {
                None
            } else {
                Some(EventView::Model(text::trim(s)))
            }),
        carries_none(value, "model_id"@) ==> muse::event_of(value) is None,
{
    lemma_kinds();
    lemma_carried(value, "model_id"@);
    assert forall|s: Seq<char>| #[trigger] carries(value, "model_id"@, s) implies muse::event_of(
        value,
    ) == (if laws::all_white(s) {
        None
    } else {
        Some(EventView::Model(text::trim(s)))
    }) by {
        laws::law_trim_blank(s);
    }
}

/// A run that completed is over, in the session of its stream.
pub proof fn law_completed_run_is_done(value: JsonTree, rest: Seq<char>)
    requires
        is_envelope(value, "run.terminal."@ + rest),
        carries(value, "terminal"@, "completed"@),
    ensures
        unstreamed(value) ==> muse::event_of(value) == Some(EventView::Done { session_id: None }),
        forall|id: Seq<char>| #[trigger]
            streamed(value, id) && !laws::all_white(id) ==> muse::event_of(value) == Some(
                EventView::Done { session_id: Some(text::trim(id)) },
            ),
{
    lemma_kinds();
    laws::law_starts("run.terminal."@ + rest, "run.terminal."@);
    lemma_carried(value, "terminal"@);
    lemma_stream(value);
}

/// The detail says something, and is the text under the key without the white space around it.
pub open spec fn says(value: JsonTree, key: Seq<char>, detail: Seq<char>) -> bool {
    exists|s: Seq<char>| #[trigger]
        carries(value, key, s) && !laws::all_white(s) && detail == text::trim(s)
}

/// Nothing is said under the key.
pub open spec fn says_nothing(value: JsonTree, key: Seq<char>) -> bool {
    forall|s: Seq<char>| #[trigger] carries(value, key, s) ==> laws::all_white(s)
}

proof fn lemma_says(value: JsonTree, key: Seq<char>)
    ensures
        says_nothing(value, key) <==> muse::chosen(muse::payload_text(value, key)) is None,
        forall|detail: Seq<char>| #[trigger]
            says(value, key, detail) ==> muse::chosen(muse::payload_text(value, key)) == Some(
                detail,
            ),
{
    lemma_carried(value, key);
    let carried = muse::payload_text(value, key);
    if carried is Some {
        laws::law_trim_blank(carried->0);
    }
    assert forall|detail: Seq<char>| #[trigger] says(value, key, detail) implies muse::chosen(
        carried,
    ) == Some(detail) by {
        let s = choose|s: Seq<char>| #[trigger]
            carries(value, key, s) && !laws::all_white(s) && detail == text::trim(s);
        laws::law_trim_blank(s);
    }
}

/// A run that ended otherwise has failed: the message has the label, and the reason, or else the
/// text, or else the label again, whichever first says something.
pub proof fn law_other_ends_are_failures(
    value: JsonTree,
    rest: Seq<char>,
    label: Seq<char>,
    detail: Seq<char>,
)
    requires
        is_envelope(value, "run.terminal."@ + rest),
        carries(value, "terminal"@, label) || carries_none(value, "terminal"@) && label.len() == 0,
        label != "completed"@,
        ({
            ||| says(value, "reason"@, detail)
            ||| says_nothing(value, "reason"@) && says(value, "text"@, detail)
            ||| says_nothing(value, "reason"@) && says_nothing(value, "text"@) && detail == label
        }),
    ensures
        muse::event_of(value) == Some(
            EventView::Error("muse run "@ + label + ": "@ + detail),
        ),
{
    lemma_kinds();
    laws::law_starts("run.terminal."@ + rest, "run.terminal."@);
    lemma_carried(value, "terminal"@);
    if carries_none(value, "terminal"@) && label.len() == 0 {
        assert(label =~= seq![]);
        if carries(value, "terminal"@, label) {
        }
    }
    lemma_says(value, "reason"@);
    lemma_says(value, "text"@);
    assert(muse::or_empty(muse::payload_text(value, "terminal"@)) == label);
}

/// Envelopes of any other kind, and values that are no envelopes, report nothing.
pub proof fn law_other_kinds_report_nothing(value: JsonTree)
    requires
        !is_envelope(value, "run.output.delta"@),
        !is_envelope(value, "run.lifecycle.started"@),
        !is_envelope(value, "run.model.configured"@),
        forall|rest: Seq<char>| !is_envelope(value, #[trigger] ("run.terminal."@ + rest)),
    ensures
        muse::event_of(value) is None,
{
    reveal_strlit("run.output.delta");
    reveal_strlit("run.lifecycle.started");
    reveal_strlit("run.model.configured");
    reveal_strlit("run.terminal.");
    let kind = muse::or_empty(value.text_at("payload_type"@));
    if value.text_at("payload_type"@) is Some {
        assert(is_envelope(value, kind));
        laws::law_starts(kind, "run.terminal."@);
    }
}

/// A line reports what its envelope does, and nothing where it is not JSON. Lines report in their
/// order.
pub proof fn law_lines_report_in_order(lines: Seq<Seq<char>>, line: Seq<char>)
    ensures
        muse::all_events(seq![]) == Seq::<EventView>::empty(),
        json::json_text(line) is None ==> muse::all_events(lines.push(line)) == muse::all_events(
            lines,
        ),
        json::json_text(line) matches Some(value) ==> muse::all_events(lines.push(line)) == (
        match muse::event_of(value) {
            Some(event) => muse::all_events(lines).push(event),
            None => muse::all_events(lines),
        }),
{
    assert(lines.push(line).drop_last() =~= lines);
    let before = muse::all_events(lines);
    assert(before + seq![] =~= before);
    if json::json_text(line) is Some && muse::event_of(json::json_text(line)->0) is Some {
        let event = muse::event_of(json::json_text(line)->0)->0;
        assert(before + seq![event] =~= before.push(event));
    }
}

/// The pieces of the answer, put together.
pub open spec fn answer_of(events: Seq<EventView>) -> Seq<char>
    decreases events.len(),
{
    if events.len() == 0 {
        seq![]
    } else {
        answer_of(events.drop_last()) + (match events.last() {
            EventView::Delta(s) => s,
            _ => seq![],
        })
    }
}

/// Texts, put together.
pub open spec fn together(texts: Seq<Seq<char>>) -> Seq<char>
    decreases texts.len(),
{
    if texts.len() == 0 {
        seq![]
    } else {
        together(texts.drop_last()) + texts.last()
    }
}

/// The line is the envelope of a piece of the answer.
pub open spec fn delta_line(line: Seq<char>, s: Seq<char>) -> bool {
    &&& json::json_text(line) matches Some(value)
    &&& is_envelope(value, "run.output.delta"@)
    &&& carries(value, "text"@, s)
}

/// The answer that lines report is their texts one behind the other, with nothing lost between
/// them.
pub proof fn law_answer_is_put_together(lines: Seq<Seq<char>>, texts: Seq<Seq<char>>)
    requires
        lines.len() == texts.len(),
        forall|i: int| 0 <= i < lines.len() ==> delta_line(#[trigger] lines[i], texts[i]),
    ensures
        answer_of(muse::all_events(lines)) == together(texts),
    decreases lines.len(),
{
    if lines.len() > 0 {
        let fewer = lines.drop_last();
        let before = texts.drop_last();
        let last = lines.len() - 1;
        assert forall|i: int| 0 <= i < fewer.len() implies delta_line(
            #[trigger] fewer[i],
            before[i],
        ) by {
            assert(delta_line(lines[i], texts[i]));
        }
        law_answer_is_put_together(fewer, before);
        assert(delta_line(lines[last], texts[last]));
        let value = json::json_text(lines[last])->0;
        law_delta_is_kept_whole(value, texts[last]);
        law_lines_report_in_order(fewer, lines[last]);
        assert(fewer.push(lines[last]) =~= lines);
        let events = muse::all_events(fewer);
        if texts[last].len() > 0 {
            assert(muse::all_events(lines).drop_last() =~= events);
        } else {
            assert(together(before) + texts[last] =~= together(before));
        }
    }
}

} // verus!
