use ccgui_remote::engine::command::CommandLine;
use ccgui_remote::engine::muse::parse_all;
use ccgui_remote::engine::muse::EngineEvent;
use ccgui_remote::engine::muse::MuseEngine;
use ccgui_remote::engine::muse::SendRequest;
use ccgui_remote::engine::remote_run::denoise;
use ccgui_remote::engine::remote_run::exit_message;
use ccgui_remote::engine::remote_run::run_script_output;
use ccgui_remote::engine::remote_run::script_run;
use ccgui_remote::engine::remote_run::script_run_with_id;
use ccgui_remote::engine::remote_run::strip_transport_noise;
use ccgui_remote::engine::remote_run::upload_result;
use ccgui_remote::engine::remote_run::wrap;
use ccgui_remote::engine::remote_run::wrap_with_id;
use ccgui_remote::engine::remote_run::RunOutcome;
use ccgui_remote::engine::remote_run::UploadOutcome;
use ccgui_remote::engine::script::build_script;
use ccgui_remote::engine::script::build_script_named;
use ccgui_remote::engine::script::program_args_env;
use ccgui_remote::engine::script::resolve_remote_program;
use ccgui_remote::engine::wsl_transport::base_ssh_command;
use ccgui_remote::engine::wsl_transport::fallback_cwd;
use ccgui_remote::engine::wsl_transport::from_workspace_meta;
use ccgui_remote::engine::wsl_transport::is_safe_distro;
use ccgui_remote::engine::wsl_transport::is_safe_host;
use ccgui_remote::engine::wsl_transport::is_safe_user;
use ccgui_remote::engine::wsl_transport::is_safe_workspace;
use ccgui_remote::engine::wsl_transport::remote_command_string;
use ccgui_remote::engine::wsl_transport::ssh_options;
use ccgui_remote::engine::wsl_transport::ssh_target;
use ccgui_remote::engine::wsl_transport::transport_for_workspace;
use ccgui_remote::engine::wsl_transport::transport_from_meta_json;
use ccgui_remote::engine::wsl_transport::workspace_meta_json;
use ccgui_remote::engine::wsl_transport::WslTransport;
use ccgui_remote::json::parse_json;
use ccgui_remote::json::Json;
use ccgui_remote::table::Table;

fn table(pairs: &[(&str, &str)]) -> Table {
    let mut t = Table::new();
    for (k, v) in pairs {
        t.insert(k.to_string(), v.to_string());
    }
    t
}

fn tp() -> WslTransport {
    WslTransport {
        host: "10.0.0.2".into(),
        port: 22,
        user: "dev".into(),
        distro: Some("Ubuntu-22.04".into()),
        control_path: None,
        engine_paths: table(&[("omp", "/home/dev/.local/bin/omp")]),
        workspace: Some("/home/dev/proj".into()),
    }
}

fn linux_tp() -> WslTransport {
    WslTransport {
        host: "172.16.15.168".into(),
        port: 22,
        user: "root".into(),
        distro: None,
        control_path: None,
        engine_paths: table(&[("codex", "/usr/local/bin/codex")]),
        workspace: Some("/tmp/spike-ws".into()),
    }
}

fn text(s: &str) -> Json {
    Json::Text(s.to_string())
}

fn object(fields: Vec<(&str, Json)>) -> Json {
    Json::Object(fields.into_iter().map(|(k, v)| (k.to_string(), v)).collect())
}

// ---------------------------------------------------------------------------
// Muse
// ---------------------------------------------------------------------------
const OUTPUT_DELTA: &str = "run.output.delta";
const RUN_STARTED: &str = "run.lifecycle.started";
const MODEL_CONFIGURED: &str = "run.model.configured";

fn envelope(payload_type: &str, payload: &str, stream_id: &str) -> String {
    format!(
        "{{\"schema_version\":1,\"stream\":{{\"kind\":\"session\",\"id\":\"{stream_id}\"}},\"sequence\":1,\"record_type\":\"event\",\"payload_type\":\"{payload_type}\",\"payload\":{payload}}}"
    )
}

#[test]
fn delta_text_streams_and_noise_is_ignored() {
    let engine = MuseEngine;
    let sid = "01a0d500-0000-4000-8000-000000000001";
    let out = parse_all(
        &engine,
        &[
            "muse: workspace root: /tmp (cwd default)",
            "",
            "not json at all",
            &envelope("task.lifecycle.started", r#"{"kind": "started"}"#, sid),
            &envelope(OUTPUT_DELTA, r#"{"kind": "run_output_delta", "text": "PO"}"#, sid),
            &envelope(OUTPUT_DELTA, r#"{"kind": "run_output_delta", "text": ""}"#, sid),
            &envelope(OUTPUT_DELTA, r#"{"kind": "run_output_delta", "text": "NG"}"#, sid),
        ],
    );
    let deltas: Vec<_> = out
        .iter()
        .filter_map(|e| match e {
            EngineEvent::Delta(t) => Some(t.clone()),
            _ => None,
        })
        .collect();
    assert_eq!(deltas, vec!["PO".to_string(), "NG".to_string()]);
}

#[test]
fn run_start_announces_session_and_model_is_reported() {
    let engine = MuseEngine;
    let sid = "01a0d500-0000-4000-8000-000000000001";
    let out = parse_all(
        &engine,
        &[
            &envelope(RUN_STARTED, r#"{"kind": "run_started"}"#, sid),
            &envelope(
                MODEL_CONFIGURED,
                r#"{"kind": "run_model_configured", "model_id": "muse-spark-1.3-contributor"}"#,
                sid,
            ),
        ],
    );
    assert!(out.iter().any(|e| matches!(
        e,
        EngineEvent::SessionId(id) if id == sid
    )));
    assert!(out.iter().any(|e| matches!(
        e,
        EngineEvent::Model(m) if m == "muse-spark-1.3-contributor"
    )));
}

#[test]
fn terminal_completed_settles_done_failed_errors() {
    let engine = MuseEngine;
    let sid = "01a0d500-0000-4000-8000-000000000001";
    let out = parse_all(
        &engine,
        &[&envelope(
            "run.terminal.completed",
            r#"{"kind": "run_terminal", "terminal": "completed", "text": "PONG"}"#,
            sid,
        )],
    );
    assert!(out.iter().any(|e| matches!(
        e,
        EngineEvent::Done { session_id: Some(id), .. } if id == sid
    )));
    let out = parse_all(
        &engine,
        &[&envelope(
            "run.terminal.failed",
            r#"{"kind": "run_terminal", "terminal": "failed", "reason": "boom happened"}"#,
            sid,
        )],
    );
    let errs: Vec<_> = out
        .iter()
        .filter_map(|e| match e {
            EngineEvent::Error(m) => Some(m.clone()),
            _ => None,
        })
        .collect();
    assert_eq!(errs.len(), 1);
    assert!(errs[0].contains("boom happened"), "got: {}", errs[0]);
}

fn only_error(payload: &str) -> String {
    let out = parse_all(&MuseEngine, &[&envelope("run.terminal.x", payload, "s")]);
    assert_eq!(out.len(), 1);
    match &out[0] {
        EngineEvent::Error(m) => m.clone(),
        other => panic!("unexpected {other:?}"),
    }
}

#[test]
fn failure_prefers_reason_then_text_then_label() {
    assert_eq!(
        only_error(r#"{"terminal":"failed","reason":" why ","text":"more"}"#),
        "muse run failed: why"
    );
    assert_eq!(
        only_error(r#"{"terminal":"failed","reason":"  ","text":" more"}"#),
        "muse run failed: more"
    );
    assert_eq!(only_error(r#"{"terminal":"cancelled"}"#), "muse run cancelled: cancelled");
    assert_eq!(only_error("{}"), "muse run : ");
    assert_eq!(only_error("null"), "muse run : ");
}

#[test]
fn blank_ids_and_models_report_nothing() {
    let lines = [
        envelope(RUN_STARTED, "{}", "  "),
        envelope(MODEL_CONFIGURED, r#"{"model_id":" "}"#, "s"),
        envelope(MODEL_CONFIGURED, r#"{"model_id":7}"#, "s"),
        r#"{"payload_type":"run.lifecycle.started","stream":{"id":5}}"#.to_string(),
        r#"[1,2]"#.to_string(),
    ];
    let refs: Vec<&str> = lines.iter().map(|s| s.as_str()).collect();
    assert!(parse_all(&MuseEngine, &refs).is_empty());
    let out = parse_all(&MuseEngine, &[&envelope(RUN_STARTED, "{}", " s-1 ")]);
    assert!(matches!(&out[0], EngineEvent::SessionId(id) if id == "s-1"));
    let out = parse_all(
        &MuseEngine,
        &[r#"{"payload_type":"run.terminal.completed","payload":{"terminal":"completed"}}"#],
    );
    assert!(matches!(&out[0], EngineEvent::Done { session_id: None }));
}

#[test]
fn parse_line_keeps_earlier_events() {
    let mut out = vec![EngineEvent::Model("m".to_string())];
    MuseEngine.parse_line(&envelope(OUTPUT_DELTA, r#"{"text":"x"}"#, "s"), &mut out);
    assert_eq!(out.len(), 2);
    assert!(matches!(&out[0], EngineEvent::Model(m) if m == "m"));
    assert!(matches!(&out[1], EngineEvent::Delta(t) if t == "x"));
}

fn request() -> SendRequest {
    SendRequest {
        session_id: Some("sess-1".into()),
        workspace: "/tmp/ws".into(),
        prompt: "do the thing".into(),
        images: vec![Some("/tmp/ws/shot.png".into())],
        model: Some("muse-spark".into()),
        effort: Some("low".into()),
        computer_use: None,
    }
}

#[test]
fn build_command_carries_session_model_effort_images_workspace() {
    let engine = MuseEngine;
    let req = request();
    let built = engine.build_command(&req, "muse").unwrap();
    let argv: Vec<String> = built.command.args.clone();
    for want in [
        "exec",
        "--json",
        "--session-id",
        "sess-1",
        "--model",
        "muse-spark",
        "--reasoning-effort",
        "low",
        "--image",
        "/tmp/ws/shot.png",
        "--workspace",
        "/tmp/ws",
        "--",
        "do the thing",
    ] {
        assert!(argv.contains(&want.to_string()), "missing {want}: {argv:?}");
    }
    assert_eq!(built.preassigned_session_id.as_deref(), Some("sess-1"));
    assert!(built.stdin_payload.is_none());
}

#[test]
fn blank_choices_and_lost_images_leave_no_flag() {
    let mut req = request();
    req.session_id = Some("  ".into());
    req.model = None;
    req.effort = Some(" high ".into());
    req.images = vec![None, Some("/i.png".into())];
    req.prompt = "-x".into();
    let built = MuseEngine.build_command(&req, "/opt/muse").unwrap();
    assert_eq!(built.command.program, "/opt/muse");
    assert_eq!(
        built.command.args,
        ["exec", "--json", "--reasoning-effort", "high", "--image", "/i.png", "--workspace",
            "/tmp/ws", "--", "-x"]
    );
    assert_eq!(built.preassigned_session_id, None);
    assert!(!built.keep_stdin_open);
    assert!(built.cleanup_files.is_empty());
}

#[test]
fn turns_without_workspace_or_with_computer_use_are_refused() {
    let mut req = request();
    req.workspace = String::new();
    assert_eq!(
        MuseEngine.build_command(&req, "muse").unwrap_err(),
        "muse 需要非空工作区(--workspace)"
    );
    req.computer_use = Some(true);
    assert_eq!(
        MuseEngine.build_command(&req, "muse").unwrap_err(),
        "操作电脑不支持 muse:没有可挂载的 MCP 驱动旗标"
    );
    let mut req = request();
    req.computer_use = Some(false);
    assert!(MuseEngine.build_command(&req, "muse").is_ok());
}

#[test]
fn engine_says_what_it_supports() {
    assert_eq!(MuseEngine.id(), "muse");
    assert!(MuseEngine.supports_images());
    assert!(MuseEngine.supports_effort());
    assert_eq!(MuseEngine.supported_permissions(), &["auto"]);
}

// ---------------------------------------------------------------------------
// Transports
// ---------------------------------------------------------------------------
#[test]
fn meta_parses_engine_paths_and_workspace() {
    let meta = parse_json(
        r#"{"wsl": {
            "host": "10.0.0.2", "port": 2222, "user": "dev", "distro": "Ubuntu",
            "controlPath": "/tmp/m", "workspace": "/home/dev/p",
            "enginePaths": {"omp": "/home/dev/.local/bin/omp"}
        }}"#,
    )
    .unwrap();
    let t = from_workspace_meta(&meta).unwrap();
    assert_eq!(t.port, 2222);
    assert_eq!(t.control_path.as_deref(), Some("/tmp/m"));
    assert_eq!(t.engine_paths.get("omp").unwrap(), "/home/dev/.local/bin/omp");
    assert_eq!(t.workspace.as_deref(), Some("/home/dev/p"));
}

#[test]
fn meta_rejects_ssh_option_injection_user() {
    let meta = object(vec![(
        "wsl",
        object(vec![
            ("host", text("10.0.0.2")),
            ("user", text("-oProxyCommand=/tmp/evil@x")),
            ("distro", text("Ubuntu")),
        ]),
    )]);
    assert!(from_workspace_meta(&meta).is_none());
}

#[test]
fn meta_rejects_dash_host_and_bad_chars() {
    for host in ["-oProxyCommand=x", "ho st", "ho;st", "ho`id`st"] {
        let meta = object(vec![(
            "wsl",
            object(vec![("host", text(host)), ("user", text("dev")), ("distro", text("Ubuntu"))]),
        )]);
        assert!(from_workspace_meta(&meta).is_none(), "host: {host}");
    }
    let meta = object(vec![(
        "wsl",
        object(vec![("host", text("::1")), ("user", text("dev.ops-1_x")), ("distro", text("Ubuntu"))]),
    )]);
    assert!(from_workspace_meta(&meta).is_some());
}

#[test]
fn meta_rejects_distro_shell_chars() {
    for distro in ["Ubuntu$(id)", "u`id`", "u%PATH%", "u\"&id", "u|id"] {
        let meta = object(vec![(
            "wsl",
            object(vec![("host", text("10.0.0.2")), ("user", text("dev")), ("distro", text(distro))]),
        )]);
        assert!(from_workspace_meta(&meta).is_none(), "distro: {distro}");
    }
    let meta = object(vec![(
        "wsl",
        object(vec![
            ("host", text("10.0.0.2")),
            ("user", text("dev")),
            ("distro", text("Ubuntu-22.04 LTS")),
        ]),
    )]);
    assert!(from_workspace_meta(&meta).is_some());
}

#[test]
fn ssh_meta_parses_without_distro() {
    let meta = parse_json(
        r#"{"ssh": {
            "host": "172.16.15.168", "user": "root",
            "workspace": "/tmp/spike-ws",
            "enginePaths": {"codex": "/usr/local/bin/codex"}
        }}"#,
    )
    .unwrap();
    let t = from_workspace_meta(&meta).unwrap();
    assert_eq!(t.host, "172.16.15.168");
    assert_eq!(t.port, 22);
    assert!(t.distro.is_none());
    assert_eq!(t.workspace.as_deref(), Some("/tmp/spike-ws"));
    assert_eq!(t.engine_paths.get("codex").unwrap(), "/usr/local/bin/codex");
}

#[test]
fn ssh_meta_rejects_bad_host_but_wsl_still_needs_distro() {
    let ssh = parse_json(r#"{"ssh": {"host": "-evil", "user": "root"}}"#).unwrap();
    assert!(from_workspace_meta(&ssh).is_none());
    let wsl = parse_json(r#"{"wsl": {"host": "h", "user": "u"}}"#).unwrap();
    assert!(from_workspace_meta(&wsl).is_none());
}

fn ssh_meta(rest: &str) -> Option<WslTransport> {
    transport_from_meta_json(Some(&format!("{{\"ssh\":{{\"host\":\"h\",\"user\":\"u\"{rest}}}}}")))
}

#[test]
fn ports_outside_their_range_void_the_description() {
    assert_eq!(ssh_meta("").unwrap().port, 22);
    assert_eq!(ssh_meta(",\"port\":0").unwrap().port, 0);
    assert_eq!(ssh_meta(",\"port\":65535").unwrap().port, 65535);
    for bad in ["65536", "-1", "22.0", "\"22\"", "null", "18446744073709551616"] {
        assert!(ssh_meta(&format!(",\"port\":{bad}")).is_none(), "port: {bad}");
    }
}

#[test]
fn blank_settings_count_as_missing() {
    let t = ssh_meta(",\"workspace\":\"  \",\"controlPath\":\" /c \",\"enginePaths\":{\"a\":\" /x \",\"b\":\" \",\"c\":3}")
        .unwrap();
    assert_eq!(t.workspace, None);
    assert_eq!(t.control_path.as_deref(), Some(" /c "));
    assert_eq!(t.engine_paths.get("a").unwrap(), "/x");
    assert!(!t.engine_paths.contains_key("b"));
    assert!(!t.engine_paths.contains_key("c"));
    assert_eq!(ssh_meta(",\"enginePaths\":[1]").unwrap().engine_paths.to_pairs().len(), 0);
}

#[test]
fn an_ssh_field_hides_a_wsl_field() {
    let both = r#"{"ssh": 1, "wsl": {"host": "h", "user": "u", "distro": "d"}}"#;
    assert!(transport_from_meta_json(Some(both)).is_none());
    let wsl = r#"{"wsl": {"host": " h ", "user": "u", "distro": "d"}}"#;
    let t = transport_from_meta_json(Some(wsl)).unwrap();
    assert_eq!(t.host, "h");
    assert_eq!(t.distro.as_deref(), Some("d"));
}

#[test]
fn missing_or_broken_metadata_is_local() {
    assert!(transport_from_meta_json(None).is_none());
    assert!(transport_from_meta_json(Some("not json")).is_none());
    assert!(transport_from_meta_json(Some("{}")).is_none());
    assert_eq!(workspace_meta_json(Err("no row".into())), None);
    assert_eq!(workspace_meta_json(Ok(None)), None);
    assert_eq!(workspace_meta_json(Ok(Some("m".into()))), Some("m".to_string()));
    assert!(transport_for_workspace(Err("no row".into())).is_none());
    assert!(transport_for_workspace(Ok(None)).is_none());
    let meta = r#"{"ssh":{"host":"h","user":"u"}}"#.to_string();
    assert_eq!(transport_for_workspace(Ok(Some(meta))).unwrap().user, "u");
    assert_eq!(fallback_cwd(), ".");
}

#[test]
fn workspace_allowlist() {
    assert!(is_safe_workspace("/home/dev/proj"));
    assert!(is_safe_workspace("~/code/proj"));
    assert!(!is_safe_workspace("/home/dev/my proj"));
    assert!(!is_safe_workspace("/a;id"));
    assert!(!is_safe_workspace("/a$(id)"));
    assert!(!is_safe_workspace(""));
}

#[test]
fn other_allowlists() {
    assert!(is_safe_user("dev.ops-1_x") && !is_safe_user("") && !is_safe_user("-a"));
    assert!(!is_safe_user("a:b") && !is_safe_user("é"));
    assert!(is_safe_host("fe80::1") && !is_safe_host("") && !is_safe_host("-h") && !is_safe_host("a/b"));
    assert!(is_safe_distro("-d") && is_safe_distro("a b") && !is_safe_distro("") && !is_safe_distro("a:b"));
}

#[test]
fn ssh_command_separates_destination_with_double_dash() {
    let cmd = base_ssh_command(&tp());
    let args: Vec<String> = cmd.args.clone();
    let dashdash = args.iter().position(|a| a == "--").expect("missing --");
    assert_eq!(args[dashdash + 1], "dev@10.0.0.2");
    assert!(args[..dashdash].iter().all(|a| a.starts_with('-') || !a.contains('@')));
    assert_eq!(cmd.program, "ssh");
}

#[test]
fn options_share_a_master_connection_where_there_is_one() {
    let mut t = tp();
    assert_eq!(
        ssh_options(&t),
        ["-o", "StrictHostKeyChecking=accept-new", "-o", "ConnectTimeout=10", "-p", "22", "-o",
            "BatchMode=yes"]
    );
    t.control_path = Some("/tmp/m".into());
    t.port = 2222;
    assert_eq!(
        ssh_options(&t),
        ["-o", "StrictHostKeyChecking=accept-new", "-o", "ConnectTimeout=10", "-p", "2222", "-o",
            "ControlPath=/tmp/m", "-o", "BatchMode=yes"]
    );
    assert_eq!(ssh_target(&t), "dev@10.0.0.2");
}

#[test]
fn remote_command_string_is_shell_inert() {
    let s = remote_command_string(&tp(), &["bash", "/tmp/x.sh"]);
    assert_eq!(s, "wsl.exe -d \"Ubuntu-22.04\" -- \"bash\" \"/tmp/x.sh\"");
    assert!(!s.contains('$') && !s.contains('|') && !s.contains('`'));
}

#[test]
fn remote_command_wraps_wsl_but_passes_linux_through() {
    let wsl = remote_command_string(&tp(), &["bash", "/tmp/x.sh"]);
    assert_eq!(wsl, "wsl.exe -d \"Ubuntu-22.04\" -- \"bash\" \"/tmp/x.sh\"");
    let linux = remote_command_string(&linux_tp(), &["bash", "/tmp/x.sh"]);
    assert_eq!(linux, "\"bash\" \"/tmp/x.sh\"");
    let tee = remote_command_string(&linux_tp(), &["tee", "/tmp/x.sh"]);
    assert_eq!(tee, "\"tee\" \"/tmp/x.sh\"");
}

#[test]
fn quotes_in_a_distribution_are_dropped() {
    let mut t = tp();
    t.distro = Some("a\"b\"".into());
    assert_eq!(remote_command_string(&t, &[]), "wsl.exe -d \"ab\" -- ");
}

// ---------------------------------------------------------------------------
// Scripts
// ---------------------------------------------------------------------------
#[test]
fn script_maps_bin_cd_and_quotes_args() {
    let script = build_script(
        "/Users/x/.local/bin/omp",
        &["-p".into(), "hello world".into(), "--resume".into(), "s-1".into()],
        &[],
        &tp(),
    );
    assert!(script.starts_with("set -e\n"));
    assert!(script.contains("cd /home/dev/proj || exit 61"));
    assert!(script.contains("exec '/home/dev/.local/bin/omp'"));
    assert!(script.contains("'hello world'"));
    assert!(!script.contains("/Users/"));
}

#[test]
fn script_keeps_tilde_unquoted_for_native_expansion() {
    let mut t = tp();
    t.workspace = Some("~/code/proj".into());
    let script = build_script("omp", &[], &[], &t);
    assert!(script.contains("cd ~/code/proj || exit 61"));
    assert!(!script.contains("\"~/"));
}

#[test]
fn script_rejects_space_paths() {
    let mut t = tp();
    t.workspace = Some("/home/dev/my proj".into());
    let script = build_script("omp", &[], &[], &t);
    assert!(script.contains("exit 60"));
    assert_eq!(script, "echo 'workspace 路径含不支持的字符' >&2; exit 60\n");
}

#[test]
fn script_falls_back_to_command_v() {
    let script = build_script("kimi", &[], &[], &tp());
    assert!(script.contains("bin=$(bash -lc 'command -v kimi') || exit 62"));
    assert!(script.contains("exec \"$bin\""));
}

#[test]
fn script_exports_env_and_self_deletes() {
    let envs = vec![("MAX_THINKING_TOKENS".to_string(), "65536".to_string())];
    let script = build_script("omp", &[], &envs, &tp());
    assert!(script.contains("rm -f \"$0\""));
    assert!(script.contains("export MAX_THINKING_TOKENS='65536'"));
    let envs = vec![("X_Y".to_string(), "a'b c".to_string())];
    let script = build_script("omp", &[], &envs, &tp());
    assert!(script.contains("export X_Y='a'\\''b c'"));
}

#[test]
fn linux_script_resolves_engine_bin_and_cds() {
    let script = build_script("codex", &["exec".to_string()], &[], &linux_tp());
    assert!(script.contains("cd /tmp/spike-ws || exit 61"));
    assert!(script.contains("exec '/usr/local/bin/codex' 'exec'"));
}

#[test]
fn whole_scripts_are_as_expected() {
    let mut t = linux_tp();
    let envs = vec![("A".to_string(), "1".to_string()), ("B".to_string(), "".to_string())];
    assert_eq!(
        build_script("/x/codex", &["a'b".to_string()], &envs, &t),
        "set -e\nrm -f \"$0\"\nexport A='1'\nexport B=''\ncd /tmp/spike-ws || exit 61\nexec '/usr/local/bin/codex' 'a'\\''b'\n"
    );
    t.workspace = None;
    assert_eq!(
        build_script_named("C:\\x\\kimi.exe", "kimi.exe", &["-p".to_string()], &[], &t),
        "set -e\nrm -f \"$0\"\nbin=$(bash -lc 'command -v kimi.exe') || exit 62\nexec \"$bin\" '-p'\n"
    );
}

#[test]
fn engine_paths_are_found_by_program_and_by_name() {
    let mut t = linux_tp();
    t.engine_paths = table(&[("/a/x", "/whole"), ("x", "/named")]);
    assert_eq!(resolve_remote_program("/a/x", &t), "/whole");
    assert_eq!(resolve_remote_program("/b/x", &t), "/named");
    assert_eq!(resolve_remote_program("/b/y", &t), "__RESOLVE__y");
    assert_eq!(resolve_remote_program("..", &t), "__RESOLVE__..");
    assert_eq!(resolve_remote_program("/a:b/x", &t), "/named");
}

#[test]
fn only_set_variables_under_shell_names_go_along() {
    let command = CommandLine {
        program: "p".into(),
        args: vec!["a".into()],
        envs: vec![
            ("OK_1".into(), Some("v".into())),
            ("1BAD".into(), Some("v".into())),
            ("A-B".into(), Some("v".into())),
            ("".into(), Some("v".into())),
            ("_GONE".into(), None),
            ("_".into(), Some("w".into())),
        ],
    };
    let (program, args, envs) = program_args_env(&command);
    assert_eq!(program, "p");
    assert_eq!(args, ["a"]);
    assert_eq!(envs, [("OK_1".to_string(), "v".to_string()), ("_".to_string(), "w".to_string())]);
}

// ---------------------------------------------------------------------------
// Runs
// ---------------------------------------------------------------------------
#[test]
fn wrapping_stores_a_script_and_runs_it() {
    let command = CommandLine {
        program: "/usr/bin/codex".into(),
        args: vec!["exec".into()],
        envs: vec![("A".into(), Some("1".into()))],
    };
    let w = wrap_with_id(&command, &linux_tp(), "0123");
    let base = base_ssh_command(&linux_tp()).args;
    assert_eq!(&w.upload.command.args[..base.len()], &base[..]);
    assert_eq!(w.upload.command.args.last().unwrap(), "\"tee\" \"/tmp/ccgui-wsl-0123.sh\"");
    assert_eq!(w.command.args.last().unwrap(), "\"bash\" \"/tmp/ccgui-wsl-0123.sh\"");
    assert_eq!(w.command.program, "ssh");
    assert_eq!(w.cleanup_files, ["ccgui-wsl-0123.marker"]);
    assert!(w.skip_local_cwd);
    assert_eq!(
        w.upload.body,
        "set -e\nrm -f \"$0\"\nexport A='1'\ncd /tmp/spike-ws || exit 61\nexec '/usr/local/bin/codex' 'exec'\n"
    );
}

fn id_in(call: &CommandLine, before: &str) -> String {
    let last = call.args.last().unwrap();
    let rest = last.strip_prefix(before).unwrap();
    rest.strip_suffix(".sh\"").unwrap().to_string()
}

#[test]
fn fresh_names_are_random_uuids() {
    let command = CommandLine { program: "codex".into(), args: vec![], envs: vec![] };
    let w = wrap(&command, &linux_tp());
    let id = id_in(&w.upload.command, "\"tee\" \"/tmp/ccgui-wsl-");
    assert_eq!(id, id_in(&w.command, "\"bash\" \"/tmp/ccgui-wsl-"));
    assert_eq!(id.len(), 32);
    assert!(id.chars().all(|c| c.is_ascii_digit() || ('a'..='f').contains(&c)));
    assert_eq!(&id[12..13], "4");
    assert!("89ab".contains(&id[16..17]));
    let other = script_run(&linux_tp(), "echo");
    assert_ne!(id, id_in(&other.command, "\"bash\" \"/tmp/ccgui-wsl-"));
}

#[test]
fn own_scripts_delete_themselves_first() {
    let r = script_run_with_id(&tp(), "echo hi\n", "ff");
    assert_eq!(r.upload.body, "rm -f \"$0\"\necho hi\n");
    assert_eq!(
        r.command.args.last().unwrap(),
        "wsl.exe -d \"Ubuntu-22.04\" -- \"bash\" \"/tmp/ccgui-wsl-ff.sh\""
    );
}

#[test]
fn failed_uploads_say_why() {
    assert!(upload_result(UploadOutcome::Ended { success: true }).is_ok());
    assert_eq!(
        upload_result(UploadOutcome::Ended { success: false }).unwrap_err(),
        "ssh 脚本上传失败(检查远程主机连接/认证;ControlMaster 可能已过期,请重连该主机)"
    );
    assert_eq!(
        upload_result(UploadOutcome::NotStarted("e".into())).unwrap_err(),
        "ssh 脚本上传失败: e"
    );
    assert_eq!(
        upload_result(UploadOutcome::NotWritten("e".into())).unwrap_err(),
        "ssh 脚本写入失败: e"
    );
    assert_eq!(
        upload_result(UploadOutcome::NotAwaited("e".into())).unwrap_err(),
        "ssh 脚本上传等待失败: e"
    );
    assert_eq!(
        upload_result(UploadOutcome::TimedOut).unwrap_err(),
        "ssh 脚本上传超时(30s,检查远程主机是否无响应)"
    );
}

#[test]
fn failed_runs_say_why() {
    assert_eq!(
        run_script_output(RunOutcome::Failed("e".into())).unwrap_err(),
        "远程命令执行失败: e"
    );
    assert_eq!(
        run_script_output(RunOutcome::TimedOut).unwrap_err(),
        "远程命令超时(30s,检查远程主机是否无响应)"
    );
    let ended = |code: Option<i32>| RunOutcome::Ended {
        success: false,
        code,
        stdout: b"ignored".to_vec(),
        stderr: b" no \xff such \n".to_vec(),
    };
    assert_eq!(
        run_script_output(ended(Some(-2))).unwrap_err(),
        "远程命令退出码 Some(-2): no \u{fffd} such"
    );
    assert_eq!(
        run_script_output(ended(None)).unwrap_err(),
        "远程命令退出码 None: no \u{fffd} such"
    );
}

#[test]
fn runs_give_their_output_without_noise() {
    let outcome = RunOutcome::Ended {
        success: true,
        code: Some(0),
        stdout: b"w\0s\0l\0: x\r\n  wsl.exe says\nkept\r\nlast".to_vec(),
        stderr: b"whatever".to_vec(),
    };
    assert_eq!(run_script_output(outcome).unwrap(), "kept\nlast\n");
}

#[test]
fn noise_is_stripped_line_by_line() {
    assert_eq!(strip_transport_noise(b""), b"");
    assert_eq!(strip_transport_noise(b"a\n\nb"), b"a\n\nb\n");
    assert_eq!(strip_transport_noise(b"wsl: x\nwsl x\n\twsl.y\nxwsl:\n"), b"wsl x\nxwsl:\n");
    assert_eq!(strip_transport_noise(b"a\xffb\n"), "a\u{fffd}b\n".as_bytes());
    let once = strip_transport_noise(b"one\r\nwsl: two\nthree");
    assert_eq!(strip_transport_noise(&once), once);
    let more = strip_transport_noise(b"foo\r\r\n");
    assert_eq!(more, b"foo\r\n");
    assert_eq!(strip_transport_noise(&more), b"foo\n");
}

#[test]
fn texts_are_stripped_and_codes_shown() {
    assert_eq!(denoise("\0a\0\n wsl: b\n\u{3000}wsl.c\nd"), "a\nd\n");
    assert_eq!(exit_message(Some(127), " gone \n"), "远程命令退出码 Some(127): gone");
    assert_eq!(exit_message(None, ""), "远程命令退出码 None: ");
}

#[test]
fn events_do_not_depend_on_how_lines_come_in() {
    let a = envelope(RUN_STARTED, "{}", "s");
    let b = envelope(OUTPUT_DELTA, r#"{"text":"x"}"#, "s");
    let c = envelope("run.terminal.completed", r#"{"terminal":"completed"}"#, "s");
    let whole = parse_all(&MuseEngine, &[&a, &b, "noise", &c]);
    let mut pieces = parse_all(&MuseEngine, &[&a, &b]);
    pieces.extend(parse_all(&MuseEngine, &["noise", &c]));
    assert_eq!(format!("{whole:?}"), format!("{pieces:?}"));
    assert_eq!(whole.len(), 3);
}

#[test]
fn line_feeds_and_quotes_in_values_start_no_command() {
    let mut t = linux_tp();
    t.workspace = None;
    let envs = vec![("A".to_string(), "1'\nrm x".to_string())];
    assert_eq!(
        build_script("codex", &["a\nb'; id #".to_string()], &envs, &t),
        "set -e\nrm -f \"$0\"\nexport A='1'\\''\nrm x'\nexec '/usr/local/bin/codex' 'a\nb'\\''; id #'\n"
    );
}

#[test]
fn the_local_directory_of_a_program_makes_no_difference() {
    let t = linux_tp();
    let args = vec!["x".to_string()];
    assert_eq!(build_script("/a/kimi", &args, &[], &t), build_script("/b/c/kimi", &args, &[], &t));
}
