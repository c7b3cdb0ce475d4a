use ccgui_remote::history::muse::discover_muse;
use ccgui_remote::history::muse::index_db_path;
use ccgui_remote::history::muse::index_row;
use ccgui_remote::history::muse::journal_summary;
use ccgui_remote::history::muse::muse_home;
use ccgui_remote::history::muse::parse_muse_session;
use ccgui_remote::history::muse::scan_muse_summary;
use ccgui_remote::history::muse::session_id_from_log;
use ccgui_remote::history::muse::session_summary;
use ccgui_remote::history::muse::us_to_ms;
use ccgui_remote::history::muse::IndexRow;
use ccgui_remote::history::muse::PlacedRow;
use ccgui_remote::history::muse::StoredRow;
use ccgui_remote::history::muse::TimedMessage;

fn fixture_journal() -> &'static str {
    r#"{"schema_version":1,"stream":{"kind":"session","id":"SID"},"sequence":22,"recorded_at":1790205652193311,"record_type":"event","payload_type":"runtime.user_intent.accepted","payload":{"model_messages":[{"content":[{"kind":"text","text":"do the thing"}]}]}}
{"schema_version":1,"stream":{"kind":"session","id":"SID"},"sequence":23,"recorded_at":1790205701305287,"record_type":"event","payload_type":"runtime.session","payload":{"kind":"task"}}
{"schema_version":1,"stream":{"kind":"session","id":"SID"},"sequence":24,"recorded_at":1790205800000000,"record_type":"event","payload_type":"runtime.user_intent.accepted","payload":{"model_messages":[{"content":[{"kind":"text","text":"and another"}]}]}}
not json
"#
}

#[test]
fn journal_yields_user_turns_with_ms_ts() {
    let parsed = parse_muse_session(fixture_journal());
    assert_eq!(parsed.messages.len(), 2);
    assert_eq!(parsed.messages[0].role, "user");
    assert_eq!(parsed.messages[0].text, "do the thing");
    assert_eq!(parsed.messages[0].ts.as_deref(), Some("1790205652193"));
    assert_eq!(parsed.messages[1].text, "and another");
    assert_eq!(parsed.messages[0].seq, 1);
    assert_eq!(parsed.messages[1].seq, 2);
}

#[test]
fn session_id_comes_from_parent_dir() {
    let p = "/x/sessions/2026/09/23/ABC123/session.jsonl";
    assert_eq!(session_id_from_log(p).as_deref(), Some("ABC123"));
}

#[test]
fn some_paths_have_no_session() {
    assert_eq!(session_id_from_log("/srv/a:b/ID/session.jsonl").as_deref(), Some("ID"));
    assert_eq!(session_id_from_log("/srv/a:b/session.jsonl").as_deref(), Some("a:b"));
    assert_eq!(session_id_from_log(""), None);
    assert_eq!(session_id_from_log("session.jsonl"), None);
    assert_eq!(session_id_from_log("/session.jsonl"), None);
    assert_eq!(session_id_from_log("a/../session.jsonl"), None);
    assert_eq!(session_id_from_log("id/./session.jsonl").as_deref(), Some("id"));
    assert_eq!(session_id_from_log("id//session.jsonl/").as_deref(), Some("id"));
}

#[test]
fn turns_join_their_texts() {
    let line = r#" {"payload_type":"runtime.user_intent.accepted","recorded_at":-1999,"payload":{"model_messages":[{"content":[{"kind":"text","text":"a"},{"kind":"image","text":"no"},{"kind":"text","text":" "},{"kind":"text"}]},{"content":7},{"content":[{"kind":"text","text":" b "}]}]}} "#;
    let parsed = parse_muse_session(&format!("\n{line}\r\n   \n"));
    assert_eq!(parsed.messages.len(), 1);
    assert_eq!(parsed.messages[0].text, "a\n b ");
    assert_eq!(parsed.messages[0].ts.as_deref(), Some("-1"));
}

#[test]
fn records_without_words_or_payload_are_no_turns() {
    let kind = "\"payload_type\":\"runtime.user_intent.accepted\"";
    let data = format!(
        "{{{kind}}}\n{{{kind},\"payload\":{{}}}}\n{{{kind},\"payload\":{{\"model_messages\":[]}}}}\n[]\n{{{kind},\"recorded_at\":1.5,\"payload\":{{\"model_messages\":[{{\"content\":[{{\"kind\":\"text\",\"text\":\"x\"}}]}}]}}}}\n"
    );
    let parsed = parse_muse_session(&data);
    assert_eq!(parsed.messages.len(), 1);
    assert_eq!(parsed.messages[0].seq, 1);
    assert_eq!(parsed.messages[0].ts, None);
}

#[test]
fn a_longer_journal_keeps_its_turns() {
    let first = parse_muse_session(fixture_journal());
    let twice = parse_muse_session(&format!("{}{}", fixture_journal(), fixture_journal()));
    assert_eq!(twice.messages.len(), 4);
    for i in 0..first.messages.len() {
        assert_eq!(twice.messages[i].text, first.messages[i].text);
        assert_eq!(twice.messages[i].seq, first.messages[i].seq);
    }
}

fn row(id: &str, root: &str, title: &str) -> IndexRow {
    IndexRow {
        session_id: id.into(),
        log_path: format!("/s/{id}/session.jsonl"),
        workspace_root: root.into(),
        title: title.into(),
        first_prompt: format!("prompt of {id}"),
        prompt_count: 3,
        created_ms: Some(10),
        updated_ms: Some(20),
    }
}

#[test]
fn stored_rows_are_filled_up() {
    let r = index_row(StoredRow {
        session_id: "s".into(),
        log_path: "l".into(),
        workspace_root: None,
        title: "t".into(),
        first_prompt: None,
        prompt_count: None,
        created_us: Some(1999),
        updated_us: None,
    });
    assert_eq!(r.session_id, "s");
    assert_eq!(r.log_path, "l");
    assert_eq!(r.workspace_root, "");
    assert_eq!(r.title, "t");
    assert_eq!(r.first_prompt, "");
    assert_eq!(r.prompt_count, 0);
    assert_eq!(r.created_ms, Some(1));
    assert_eq!(r.updated_ms, None);
}

#[test]
fn microseconds_are_cut_towards_zero() {
    assert_eq!(us_to_ms(1790205652193311), 1790205652193);
    assert_eq!(us_to_ms(999), 0);
    assert_eq!(us_to_ms(-999), 0);
    assert_eq!(us_to_ms(-1001), -1);
    assert_eq!(us_to_ms(i64::MIN), -9223372036854775);
}

#[test]
fn sessions_of_a_workspace_are_those_at_or_below_it() {
    let rows = vec![
        PlacedRow { row: row("a", "/w", "A"), inside: false },
        PlacedRow { row: row("b", "/w/sub", "B"), inside: true },
        PlacedRow { row: row("c", "/other", "C"), inside: false },
        PlacedRow { row: row("d", "", "D"), inside: true },
    ];
    let found = discover_muse(&rows, "/w");
    let ids: Vec<&str> = found.iter().map(|s| s.session_id.as_str()).collect();
    assert_eq!(ids, ["a", "b"]);
    assert_eq!(found[1].engine, "muse");
    assert_eq!(found[1].workspace_path, "/w/sub");
    assert_eq!(found[1].file_path, "/s/b/session.jsonl");
}

#[test]
fn the_first_row_of_a_session_gives_its_summary() {
    let rows = vec![row("a", "/w", "  "), row("b", "/w", "B"), row("b", "/w", "later")];
    let s = scan_muse_summary("/s/b/session.jsonl", &rows).unwrap();
    assert_eq!((s.title.text.as_str(), s.title.max_chars), ("B", 80));
    assert_eq!((s.preview.text.as_str(), s.preview.max_chars), ("prompt of b", 120));
    assert_eq!((s.first_ts, s.last_ts, s.message_count), (Some(10), Some(20), 3));
    let s = scan_muse_summary("/s/a/session.jsonl", &rows).unwrap();
    assert_eq!(s.title.text, "prompt of a");
    assert!(scan_muse_summary("/s/c/session.jsonl", &rows).is_none());
    assert!(scan_muse_summary("session.jsonl", &rows).is_none());
}

#[test]
fn a_journal_gives_a_summary_too() {
    let timed = |times: Vec<Option<i64>>| -> Vec<TimedMessage> {
        let messages = parse_muse_session(fixture_journal()).messages;
        assert_eq!(messages.len(), times.len());
        messages
            .into_iter()
            .zip(times)
            .map(|(message, time)| TimedMessage { message, time })
            .collect()
    };
    let s = journal_summary(&timed(vec![None, Some(7)]));
    assert_eq!((s.title.text.as_str(), s.title.max_chars), ("do the thing", 80));
    assert_eq!(s.preview.text, "");
    assert_eq!((s.first_ts, s.last_ts, s.message_count), (Some(7), Some(7), 2));
    let s = journal_summary(&timed(vec![Some(5), None]));
    assert_eq!((s.first_ts, s.last_ts), (Some(5), None));
    let s = journal_summary(&vec![]);
    assert_eq!(s.title.text, "");
    assert_eq!((s.first_ts, s.last_ts, s.message_count), (None, None, 0));
}

#[test]
fn the_index_comes_before_the_journal() {
    let turns = || vec![];
    let told = scan_muse_summary("/s/b/session.jsonl", &vec![row("b", "/w", "B")]);
    assert_eq!(session_summary(told, &turns()).title.text, "B");
    let s = session_summary(None, &turns());
    assert_eq!((s.title.text.as_str(), s.message_count), ("", 0));
    let messages = parse_muse_session(fixture_journal()).messages;
    let timed = messages.into_iter().map(|message| TimedMessage { message, time: None }).collect();
    let s = session_summary(None, &timed);
    assert_eq!((s.title.text.as_str(), s.message_count), ("do the thing", 2));
}

#[test]
fn the_index_is_below_the_home_directory() {
    let home = muse_home("/home/dev");
    assert!(home == "/home/dev/.local/share/muse" || home == "/home/dev\\.local/share/muse");
    let db = index_db_path("/home/dev/");
    assert!(db.starts_with("/home/dev/.local/share/muse"));
    assert!(db.ends_with("session-index.db"));
}
