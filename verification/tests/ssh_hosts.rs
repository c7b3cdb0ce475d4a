use ccgui_remote::engine::wsl_transport::transport_from_meta_json;
use ccgui_remote::ids::fresh_row_id;
use ccgui_remote::json::parse_json;
use ccgui_remote::json::Json;
use ccgui_remote::ssh_hosts::attach::attach_meta;
use ccgui_remote::ssh_hosts::attach::attach_plan;
use ccgui_remote::ssh_hosts::attach::engine_paths;
use ccgui_remote::ssh_hosts::attach::row_to_add;
use ccgui_remote::ssh_hosts::attach::ssh_host_attach;
use ccgui_remote::ssh_hosts::config::default_os_user;
use ccgui_remote::ssh_hosts::config::is_concrete;
use ccgui_remote::ssh_hosts::config::keyword;
use ccgui_remote::ssh_hosts::config::parse_stanzas;
use ccgui_remote::ssh_hosts::config::ssh_config_hosts;
use ccgui_remote::ssh_hosts::includes::config_texts;
use ccgui_remote::ssh_hosts::includes::expand_include;
use ccgui_remote::ssh_hosts::includes::include_patterns;
use ccgui_remote::ssh_hosts::includes::select_includes;
use ccgui_remote::ssh_hosts::includes::DirEntry;
use ccgui_remote::ssh_hosts::includes::IncludeTarget;
use ccgui_remote::ssh_hosts::probe::parse_probe_output;
use ccgui_remote::ssh_hosts::probe::probe_answer;
use ccgui_remote::ssh_hosts::probe::probe_result;
use ccgui_remote::ssh_hosts::probe::probe_script;
use ccgui_remote::ssh_hosts::probe::run_probe;
use ccgui_remote::ssh_hosts::probe::ssh_host_probe;
use ccgui_remote::ssh_hosts::probe::validate;
use ccgui_remote::ssh_hosts::probe::EngineBinary;
use ccgui_remote::ssh_hosts::probe::ProbeOutcome;
use ccgui_remote::ssh_hosts::probe::SshProbe;
use ccgui_remote::table::Table;

fn engines() -> Vec<EngineBinary> {
    [("muse", "muse"), ("codex", "codex"), ("qoder", "qodercli"), ("qoder-cn", "qodercli")]
        .iter()
        .map(|(id, bin)| EngineBinary { id: id.to_string(), bin: bin.to_string() })
        .collect()
}

// ---------------------------------------------------------------------------
// Probes
// ---------------------------------------------------------------------------
#[test]
fn probe_output_parses_marker_and_bins() {
    let (reachable, engines) = parse_probe_output(
        "__CCGUI_OK__\nmuse:/root/.local/bin/muse\ncodex:\nopencode:/usr/bin/opencode\n",
    );
    assert!(reachable);
    assert_eq!(engines.get("muse").unwrap(), "/root/.local/bin/muse");
    assert_eq!(engines.get("opencode").unwrap(), "/usr/bin/opencode");
    assert!(!engines.contains_key("codex"));
}

#[test]
fn probe_output_without_marker_is_unreachable() {
    let (reachable, _) = parse_probe_output("Permission denied\n");
    assert!(!reachable);
}

#[test]
fn validation_rejects_injection_shaped_input() {
    assert!(validate("-oProxyCommand=x", "root", 22).is_err());
    assert!(validate("h", "-evil", 22).is_err());
    assert!(validate("h", "root", 0).is_err());
    assert!(validate("172.16.15.168", "root", 22).is_ok());
}

#[test]
fn the_first_fault_of_an_address_is_named() {
    assert_eq!(validate("-h", "-u", 0).unwrap_err(), "port must be 1-65535");
    assert_eq!(validate("-h", "-u", 1).unwrap_err(), "invalid host");
    assert_eq!(validate("h", "-u", 1).unwrap_err(), "invalid user");
}

#[test]
fn later_reports_and_white_space() {
    let (reachable, engines) =
        parse_probe_output("muse:/old\r\n :/none\nmuse: /new:x \r\nnothing\n  __CCGUI_OK__ \n");
    assert!(reachable);
    assert_eq!(engines.get("muse").unwrap(), "/new:x");
    assert_eq!(engines.to_pairs().len(), 1);
}

#[test]
fn the_script_asks_for_each_binary_once_in_order() {
    assert_eq!(
        probe_script(&engines()),
        "echo __CCGUI_OK__\nfor b in codex muse qodercli; do printf '%s:' \"$b\"; command -v \"$b\" 2>/dev/null || echo; done\n"
    );
}

#[test]
fn a_probe_is_one_call() {
    let call = ssh_host_probe(" h ", "\tu\n", 2200, &engines()).unwrap();
    assert_eq!(call.program, "ssh");
    assert_eq!(
        call.args,
        [
            "-o", "BatchMode=yes", "-o", "StrictHostKeyChecking=accept-new", "-o",
            "ConnectTimeout=10", "-p", "2200", "--", "u@h", &probe_script(&engines()),
        ]
    );
    assert!(call.envs.is_empty());
    let refused = run_probe(" h", "u", 22, &engines()).unwrap_err();
    assert!(!refused.reachable);
    assert_eq!(refused.error.as_deref(), Some("invalid host"));
}

#[test]
fn probes_come_to_a_result() {
    let r = probe_result(ProbeOutcome::NotStarted("e".into()));
    assert_eq!((r.reachable, r.error.as_deref()), (false, Some("ssh spawn failed: e")));
    let r = probe_result(ProbeOutcome::TimedOut);
    assert_eq!((r.reachable, r.error.as_deref()), (false, Some("ssh probe timed out (30s)")));
    let r = probe_result(ProbeOutcome::Ended { success: false, stdout: b"__CCGUI_OK__\n".to_vec() });
    assert_eq!(
        (r.reachable, r.error.as_deref()),
        (false, Some("ssh connect/auth failed (key auth required, no passwords)"))
    );
    let r = probe_result(ProbeOutcome::Ended { success: true, stdout: b"muse:/m\xff\n".to_vec() });
    assert_eq!((r.reachable, r.error.as_deref()), (false, Some("no probe marker in output")));
    assert_eq!(r.engines.get("muse").unwrap(), "/m\u{fffd}");
    let r = probe_result(ProbeOutcome::Ended { success: true, stdout: b"__CCGUI_OK__\n".to_vec() });
    assert_eq!((r.reachable, r.error), (true, None));
}

// ---------------------------------------------------------------------------
// Configuration files
// ---------------------------------------------------------------------------
#[test]
fn ssh_config_parses_stanzas_skips_wildcards_and_match() {
    let text = "# comment\nHost web prod\n  HostName 10.0.0.5\n  User deploy\n  Port 2222\n\nHost *.internal\n  User svc\n\nMatch host *.x\n  User ignored\n\nHost db=alias\n";
    let mut stanzas = Vec::new();
    parse_stanzas(text, &mut stanzas);
    assert_eq!(stanzas.len(), 3);
    assert_eq!(stanzas[0].aliases, vec!["web".to_string(), "prod".to_string()]);
    assert_eq!(stanzas[0].hostname.as_deref(), Some("10.0.0.5"));
    assert_eq!(stanzas[0].user.as_deref(), Some("deploy"));
    assert_eq!(stanzas[0].port, Some(2222));
    assert!(!is_concrete("*.internal"));
    assert!(is_concrete("db=alias"));
}

#[test]
fn keyword_splits_on_space_or_equals() {
    assert_eq!(keyword("HostName=example.com"), Some(("HostName", "example.com")));
    assert_eq!(keyword("  User   deploy "), Some(("User", "deploy")));
    assert!(keyword("# comment").is_none());
    assert!(keyword("").is_none());
}

#[test]
fn keywords_at_their_edges() {
    assert_eq!(keyword("Host"), Some(("Host", "")));
    assert_eq!(keyword("Host == \t a=b "), Some(("Host", "a=b")));
    assert_eq!(keyword("=x"), Some(("", "x")));
    assert_eq!(keyword("a\u{c}b"), Some(("a", "\u{c}b")));
    assert_eq!(keyword("a\u{a0}b c"), Some(("a\u{a0}b", "c")));
}

#[test]
fn config_files_follow_one_include_level() {
    let main = "Include conf.d/*\nHost main\n  HostName 10.1.0.1\n";
    let extra = "Host side\n  User op\n";
    let patterns = include_patterns(main);
    assert_eq!(patterns, ["conf.d/*"]);
    let (dir, prefix) = match expand_include(&patterns[0], "/home/u", "/home/u/.ssh") {
        IncludeTarget::Files { dir, prefix } => (dir, prefix),
        other => panic!("unexpected {other:?}"),
    };
    assert!(dir == "/home/u/.ssh/conf.d/" || dir == "/home/u/.ssh\\conf.d/");
    let entries = vec![DirEntry { name: Some("extra".into()), is_file: true }];
    assert_eq!(select_includes(&entries, &prefix), ["extra"]);
    let texts = config_texts(Some(main.into()), vec![Some(extra.into())]);
    assert_eq!(texts.len(), 2);
    let mut stanzas = Vec::new();
    for t in &texts {
        parse_stanzas(t, &mut stanzas);
    }
    let aliases: Vec<_> = stanzas.iter().flat_map(|s| s.aliases.clone()).collect();
    assert_eq!(aliases, vec!["main".to_string(), "side".to_string()]);
}

#[test]
fn missing_config_is_empty_not_error() {
    assert!(config_texts(None, vec![]).is_empty());
    assert!(config_texts(None, vec![Some("Host a\n".into())]).is_empty());
    assert!(ssh_config_hosts(&vec![], "me").is_empty());
}

#[test]
fn unreadable_files_are_left_out() {
    let texts = config_texts(Some("m".into()), vec![None, Some("b".into()), None]);
    assert_eq!(texts, ["m", "b"]);
}

#[test]
fn patterns_come_from_every_line_that_names_some() {
    let text = "INCLUDE=a b\n# Include no\nHost x\n include ~/c\n";
    assert_eq!(include_patterns(text), ["a", "b", "~/c"]);
}

fn file_of(pattern: &str) -> String {
    match expand_include(pattern, "/home/u", "/home/u/.ssh") {
        IncludeTarget::File(path) => path,
        other => panic!("unexpected {other:?}"),
    }
}

#[test]
fn patterns_have_their_places() {
    assert_eq!(file_of("/etc/x").replace('\\', "/"), "/etc/x");
    assert_eq!(file_of("~/y").replace('\\', "/"), "/home/u/y");
    assert_eq!(file_of("zz:w/x:y").replace('\\', "/"), "/home/u/.ssh/zz:w/x:y");
    assert_eq!(file_of("z/w").replace('\\', "/"), "/home/u/.ssh/z/w");
    match expand_include("/a*b*//c", "/h", "/h/.ssh") {
        IncludeTarget::Files { dir, prefix } => {
            assert_eq!(dir, "/a*b");
            assert_eq!(prefix, "c");
        }
        other => panic!("unexpected {other:?}"),
    }
}

#[test]
fn only_files_with_the_prefix_are_taken_in_order() {
    let entry = |name: Option<&str>, is_file: bool| DirEntry { name: name.map(str::to_string), is_file };
    let entries = vec![
        entry(Some("cz"), true),
        entry(Some("ca"), true),
        entry(Some("cb"), false),
        entry(None, true),
        entry(Some("x"), true),
        entry(Some("c"), true),
    ];
    assert_eq!(select_includes(&entries, "c"), ["c", "ca", "cz"]);
}

#[test]
fn hosts_are_listed_once_with_their_defaults() {
    let one = "Host web *.x web !no\n  HostName 10.0.0.5 trailing\n  Port 22x\nHost\n  User lost\nMatch all\n  User ignored\nUser ignored\n";
    let two = "Host web db\n user op\n  PORT +2222\nUser last more\n";
    let hosts = ssh_config_hosts(&vec![one.to_string(), two.to_string()], "me");
    assert_eq!(hosts.len(), 2);
    assert_eq!(hosts[0].alias, "web");
    assert_eq!(hosts[0].hostname, "10.0.0.5");
    assert_eq!(hosts[0].user.as_deref(), Some("me"));
    assert_eq!(hosts[0].port, Some(22));
    assert_eq!(hosts[1].alias, "db");
    assert_eq!(hosts[1].hostname, "db");
    assert_eq!(hosts[1].user.as_deref(), Some("last"));
    assert_eq!(hosts[1].port, Some(2222));
}

#[test]
fn files_do_not_run_into_each_other() {
    let mut stanzas = Vec::new();
    parse_stanzas("Host a", &mut stanzas);
    parse_stanzas("User x\nHost b", &mut stanzas);
    assert_eq!(stanzas.len(), 2);
    assert_eq!(stanzas[0].user, None);
    assert_eq!(stanzas[1].aliases, ["b"]);
}

#[test]
fn aliases_with_patterns_name_no_host() {
    assert!(!is_concrete(""));
    assert!(!is_concrete("a?"));
    assert!(!is_concrete("!a"));
}

#[test]
fn the_user_of_this_machine_is_the_first_that_is_set() {
    let some = |s: &str| Some(s.to_string());
    assert_eq!(default_os_user(some("a"), some("b"), some("c")), "a");
    assert_eq!(default_os_user(None, some("b"), some("c")), "b");
    assert_eq!(default_os_user(None, None, some(" c ")), " c ");
    assert_eq!(default_os_user(some(" "), some("b"), None), "root");
    assert_eq!(default_os_user(some(" -x"), None, None), "root");
    assert_eq!(default_os_user(None, None, None), "root");
}

// ---------------------------------------------------------------------------
// Attaching
// ---------------------------------------------------------------------------
#[test]
fn requests_are_trimmed_and_checked() {
    let r = ssh_host_attach(" h ", " u ", 22, " /w ", " ~/p ").unwrap();
    assert_eq!(
        (r.host.as_str(), r.user.as_str(), r.port, r.workspace_path.as_str(), r.remote_path.as_str()),
        ("h", "u", 22, "/w", "~/p")
    );
    let err = |h: &str, u: &str, p: u16, w: &str, d: &str| ssh_host_attach(h, u, p, w, d).unwrap_err();
    assert_eq!(err("h", "u", 0, "", ""), "port must be 1-65535");
    assert_eq!(err("h h", "u", 1, "", ""), "invalid host");
    assert_eq!(err("h", "", 1, "", ""), "invalid user");
    assert_eq!(err("h", "u", 1, " ", "/p"), "workspace path and remote path are required");
    assert_eq!(err("h", "u", 1, "/w", ""), "workspace path and remote path are required");
    assert_eq!(err("h", "u", 1, "/w", "p"), "remote path must be absolute (or ~/…)");
    assert_eq!(err("h", "u", 1, "/w", "~p"), "remote path must be absolute (or ~/…)");
}

#[test]
fn engines_are_found_by_their_binaries() {
    let (_, found) = parse_probe_output("qodercli:/q\nmuse:/m\nother:/o\n");
    let paths = engine_paths(&engines(), &found);
    assert_eq!(paths.get("qoder").unwrap(), "/q");
    assert_eq!(paths.get("qoder-cn").unwrap(), "/q");
    assert_eq!(paths.get("muse").unwrap(), "/m");
    assert_eq!(paths.to_pairs().len(), 3);
}

#[test]
fn an_attached_workspace_is_remote() {
    let request = ssh_host_attach("10.0.0.9", "dev", 2222, "/w", "/home/dev/my \"proj\"/").unwrap();
    let probe = probe_answer("__CCGUI_OK__\nmuse:/opt/m\\use\ncodex:\n");
    let plan = attach_plan(&request, &probe, &engines()).unwrap();
    assert_eq!(plan.workspace_path, "/w");
    assert_eq!(plan.name, "my \"proj\"");
    let t = transport_from_meta_json(Some(&plan.meta)).unwrap();
    assert_eq!((t.host.as_str(), t.user.as_str(), t.port), ("10.0.0.9", "dev", 2222));
    assert_eq!(t.distro, None);
    assert_eq!(t.control_path, None);
    assert_eq!(t.workspace.as_deref(), Some("/home/dev/my \"proj\"/"));
    assert_eq!(t.engine_paths.to_pairs(), [("muse".to_string(), "/opt/m\\use".to_string())]);
}

#[test]
fn a_row_is_added_only_where_there_is_none() {
    let request = ssh_host_attach("h", "u", 22, "/w", "/home/dev/proj").unwrap();
    let probe = probe_answer("__CCGUI_OK__\n");
    let plan = attach_plan(&request, &probe, &engines()).unwrap();
    assert!(row_to_add(1, &plan).is_none());
    assert!(row_to_add(2, &plan).is_none());
    let row = row_to_add(0, &plan).unwrap();
    assert_eq!((row.path.as_str(), row.name.as_str(), row.last_opened_at), ("/w", "proj", 0));
    assert_eq!(row.meta, plan.meta);
    assert_eq!(row.id.len(), 36);
}

#[test]
fn metadata_is_a_json_text() {
    let mut paths = Table::new();
    paths.insert("muse".into(), "/m".into());
    let meta = attach_meta("h", "u", 22, &paths, "/p");
    let value = parse_json(&meta).unwrap();
    let ssh = value.get("ssh").unwrap();
    assert_eq!(ssh.str_at("host"), Some("h"));
    assert_eq!(ssh.str_at("user"), Some("u"));
    assert_eq!(ssh.get("port").unwrap().as_u64(), Some(22));
    assert_eq!(ssh.str_at("workspace"), Some("/p"));
    assert_eq!(ssh.get("enginePaths").unwrap().str_at("muse"), Some("/m"));
    match ssh {
        Json::Object(fields) => assert_eq!(fields.len(), 5),
        other => panic!("unexpected {other:?}"),
    }
}

#[test]
fn unreachable_hosts_cannot_be_attached_to() {
    let request = ssh_host_attach("h", "u", 22, "/w", "/").unwrap();
    let probe = probe_answer("nothing\n");
    assert_eq!(
        attach_plan(&request, &probe, &engines()).unwrap_err(),
        "no probe marker in output"
    );
    let silent = SshProbe { reachable: false, engines: Table::new(), error: None };
    assert_eq!(attach_plan(&request, &silent, &engines()).unwrap_err(), "host unreachable");
    let there = probe_answer("__CCGUI_OK__\n");
    assert_eq!(attach_plan(&request, &there, &engines()).unwrap().name, "/");
    let request = ssh_host_attach("h", "u", 22, "/w", "/srv/a:b/").unwrap();
    assert_eq!(attach_plan(&request, &there, &engines()).unwrap().name, "a:b");
}

#[test]
fn row_ids_are_uuids() {
    let id = fresh_row_id();
    assert_eq!(id.len(), 36);
    let bytes = id.as_bytes();
    for (i, b) in bytes.iter().enumerate() {
        if [8, 13, 18, 23].contains(&i) {
            assert_eq!(*b, b'-');
        } else {
            assert!(b.is_ascii_digit() || (b'a'..=b'f').contains(b));
        }
    }
    assert_eq!(bytes[14], b'4');
    assert!(b"89ab".contains(&bytes[19]));
    assert_ne!(id, fresh_row_id());
}
