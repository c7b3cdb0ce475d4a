use ccgui_remote::json::parse_json;
use ccgui_remote::json::Json;
use ccgui_remote::number::integer_text;
use ccgui_remote::number::natural_text;
use ccgui_remote::number::parse_u16;
use ccgui_remote::order::dedup;
use ccgui_remote::order::is_before;
use ccgui_remote::order::sort;
use ccgui_remote::shell::sh_quote;
use ccgui_remote::split::join;
use ccgui_remote::split::lines_of;
use ccgui_remote::split::rsplit_once;
use ccgui_remote::split::split_once;
use ccgui_remote::split::starts_with;
use ccgui_remote::split::strip_prefix;
use ccgui_remote::split::words_of;
use ccgui_remote::table::Table;
use ccgui_remote::text::is_alnum;
use ccgui_remote::text::is_blank;
use ccgui_remote::text::is_same_letter;
use ccgui_remote::text::is_white;
use ccgui_remote::text::remove_char;
use ccgui_remote::text::same_caseless;
use ccgui_remote::text::trimmed;

fn strings(list: &[&str]) -> Vec<String> {
    list.iter().map(|s| s.to_string()).collect()
}

const SAMPLES: [&str; 16] = [
    "", " ", "a", " a ", "a b", "\ta\u{a0}b\u{3000}", "a\n", "a\r\nb", "\n\n", "a\r", "\r\n\r\n", "a\r\r\nb",
    "é=ü", "*x*y", "::", "x\u{85}\u{200b}",
];

#[test]
fn classes_agree_with_std_on_every_character() {
    for c in '\0'..=char::MAX {
        assert_eq!(is_white(c), c.is_whitespace(), "{c:?}");
        assert_eq!(is_alnum(c), c.is_ascii_alphanumeric(), "{c:?}");
    }
    for a in '\0'..='\u{ff}' {
        for b in '\0'..='\u{ff}' {
            assert_eq!(is_same_letter(a, b), a.eq_ignore_ascii_case(&b), "{a:?} {b:?}");
        }
    }
}

#[test]
fn cutting_agrees_with_std() {
    for s in SAMPLES {
        assert_eq!(trimmed(s), s.trim(), "{s:?}");
        assert_eq!(is_blank(s), s.trim().is_empty(), "{s:?}");
        assert_eq!(lines_of(s), s.lines().collect::<Vec<_>>(), "{s:?}");
        assert_eq!(words_of(s), s.split_whitespace().collect::<Vec<_>>(), "{s:?}");
        for c in ['a', '*', '=', ':', '\n'] {
            let owned = |p: (&str, &str)| (p.0.to_string(), p.1.to_string());
            assert_eq!(split_once(s, c), s.split_once(c).map(owned), "{s:?}");
            assert_eq!(rsplit_once(s, c), s.rsplit_once(c).map(owned), "{s:?}");
            assert_eq!(remove_char(s, c), s.replace(c, ""), "{s:?}");
        }
        for t in SAMPLES {
            assert_eq!(starts_with(s, t), s.starts_with(t), "{s:?} {t:?}");
            assert_eq!(strip_prefix(s, t), s.strip_prefix(t).map(str::to_string), "{s:?} {t:?}");
            assert_eq!(same_caseless(s, t), s.eq_ignore_ascii_case(t), "{s:?} {t:?}");
            assert_eq!(is_before(s, t), s < t, "{s:?} {t:?}");
        }
    }
}

#[test]
fn sorting_agrees_with_std() {
    let list = strings(&["b", "a", "", "ab", "a", "é", "Z", "b", "b"]);
    let mut want = list.clone();
    want.sort();
    let sorted = sort(&list);
    assert_eq!(sorted, want);
    want.dedup();
    assert_eq!(dedup(&sorted), want);
    assert_eq!(dedup(&strings(&["a", "b", "a"])), ["a", "b", "a"]);
    assert_eq!(join(&want, ", "), want.join(", "));
    assert_eq!(join(&vec![], ","), "");
}

#[test]
fn numbers_agree_with_std() {
    for n in [0, 7, 10, 65535, u64::MAX] {
        assert_eq!(natural_text(n), n.to_string());
    }
    for n in [i64::MIN, -10, -1, 0, 42, i64::MAX] {
        assert_eq!(integer_text(n), n.to_string());
    }
    for s in ["", "+", "+0", "-0", "22", "022", "65535", "65536", "99999999999999999999", "1x", " 1", "+ 1", "++1", "٣"] {
        assert_eq!(parse_u16(s), s.parse::<u16>().ok(), "{s:?}");
    }
}

#[test]
fn quoted_words_are_inert() {
    assert_eq!(sh_quote(""), "''");
    assert_eq!(sh_quote("a b"), "'a b'");
    assert_eq!(sh_quote("$(id)`x`;\n"), "'$(id)`x`;\n'");
    assert_eq!(sh_quote("it's"), "'it'\\''s'");
}

#[test]
fn tables_keep_the_last_value_of_a_name() {
    let mut t = Table::new();
    t.insert("a".into(), "1".into());
    t.insert("b".into(), "2".into());
    t.insert("a".into(), "3".into());
    assert_eq!(t.get("a").unwrap(), "3");
    assert_eq!(t.get("c"), None);
    assert!(t.contains_key("b") && !t.contains_key("c"));
    let copy = t.clone();
    let mut pairs = copy.to_pairs();
    pairs.sort();
    assert_eq!(pairs, [("a".to_string(), "3".to_string()), ("b".to_string(), "2".to_string())]);
}

#[test]
fn json_texts_become_values() {
    let v = parse_json(r#" {"a":[null,true,1,-2,2.5,"x\u00e9"],"b":{"c":18446744073709551615},"b2":-9223372036854775808} "#)
        .unwrap();
    let list = v.get("a").unwrap().as_array().unwrap();
    assert!(matches!(list[0], Json::Null));
    assert!(matches!(list[1], Json::Bool(true)));
    assert!(matches!(list[2], Json::Natural(1)));
    assert!(matches!(list[3], Json::Negative(-2)));
    assert!(matches!(list[4], Json::Real));
    assert!(matches!(&list[5], Json::Text(s) if s == "xé"));
    let c = v.get("b").unwrap().get("c").unwrap();
    assert_eq!((c.as_u64(), c.as_i64()), (Some(u64::MAX), None));
    let low = v.get("b2").unwrap();
    assert_eq!((low.as_u64(), low.as_i64()), (None, Some(i64::MIN)));
    assert!(v.get("missing").is_none());
    assert!(list[2].get("a").is_none());
    assert!(list[4].as_i64().is_none());
}

#[test]
fn the_last_value_of_a_key_counts() {
    let v = parse_json(r#"{"a":1,"a":"two"}"#).unwrap();
    assert_eq!(v.str_at("a"), Some("two"));
    let w = Json::Object(vec![
        ("a".to_string(), Json::Null),
        ("a".to_string(), Json::Text("two".to_string())),
    ]);
    assert_eq!(w.str_at("a"), Some("two"));
}

#[test]
fn other_texts_are_no_values() {
    for s in ["", "{", "nul", "{'a':1}", "1 2", "\u{feff}{}"] {
        assert!(parse_json(s).is_none(), "{s:?}");
    }
    let deep = format!("{}{}", "[".repeat(127), "]".repeat(127));
    assert!(parse_json(&deep).is_some());
    let deeper = format!("{}{}", "[".repeat(128), "]".repeat(128));
    assert!(parse_json(&deeper).is_none());
}
