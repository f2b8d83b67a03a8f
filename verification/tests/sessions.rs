use std::path::PathBuf;
use xai_gork_telegram::json::{Json, JsonNumber};
use xai_gork_telegram::sessions::{
    collect_sessions, FoundDir, history_of_lines,
    decode_cwd_group, history_text, session_entry, sort_sessions, SessionSummary, SummaryInfo,
};

#[test]
fn decode_group_names() {
    assert_eq!(decode_cwd_group("%2Ftmp%2Fproj"), "/tmp/proj");
    assert_eq!(decode_cwd_group("home"), "/home");
    assert_eq!(decode_cwd_group("/already"), "/already");
    // a '+' sign is a valid hex number for from_str_radix
    assert_eq!(decode_cwd_group("a%+41"), "/a\u{4}1");
    // not enough bytes left, or not hex: kept as is
    assert_eq!(decode_cwd_group("x%2"), "/x%2");
    assert_eq!(decode_cwd_group("%zz"), "/%zz");
    // bytes become chars of the same number
    assert_eq!(decode_cwd_group("é"), "/\u{c3}\u{a9}");
    assert_eq!(decode_cwd_group(""), "/");
}

fn summary(id: Option<&str>, cwd: Option<&str>, title: Option<&str>, sum: Option<&str>) -> SessionSummary {
    SessionSummary {
        info: Some(SummaryInfo { id: id.map(String::from), cwd: cwd.map(String::from) }),
        session_summary: sum.map(String::from),
        generated_title: title.map(String::from),
        updated_at: None,
        last_active_at: None,
    }
}

#[test]
fn list_and_decode_entry() {
    let sid = "019f6cbf-cca8-7cc1-92ef-b2f2b7d354f6";
    let s = summary(Some(sid), Some("/tmp/proj"), Some("Hello World"), None);
    let list = collect_sessions(
        vec![FoundDir {
            group: "%2Ftmp%2Fproj".to_string(),
            name: sid.to_string(),
            summary: Some(s),
            updated: 10,
            disk_path: PathBuf::from("/x"),
        }],
        10,
    );
    assert_eq!(list.len(), 1);
    assert_eq!(list[0].session_id, sid);
    assert_eq!(list[0].cwd, "/tmp/proj");
    assert_eq!(list[0].title, "Hello World");
    assert_eq!(list[0].disk_path, PathBuf::from("/x"));
    assert_eq!(decode_cwd_group("%2Ftmp%2Fproj"), "/tmp/proj");
}

#[test]
fn entry_defaults_and_rejects() {
    assert!(session_entry("/g", "short-1", None, 0, PathBuf::new()).is_none());
    assert!(session_entry("/g", "nodasheshere", None, 0, PathBuf::new()).is_none());
    let e = session_entry("/g", "abcdefgh-ijklmnop", None, 0, PathBuf::new()).unwrap();
    assert_eq!(e.session_id, "abcdefgh-ijklmnop");
    assert_eq!(e.cwd, "/g");
    assert_eq!(e.title, "abcdefgh-ijk");
    // an empty generated title wins over the summary and falls back to the name
    let s = summary(None, None, Some(""), Some("sum"));
    let e = session_entry("/g", "abcdefgh-ijklmnop", Some(&s), 0, PathBuf::new()).unwrap();
    assert_eq!(e.title, "abcdefgh-ijk");
    let s = summary(None, None, None, Some("sum"));
    let e = session_entry("/g", "abcdefgh-ijklmnop", Some(&s), 0, PathBuf::new()).unwrap();
    assert_eq!(e.title, "sum");
}

#[test]
fn sessions_newest_first_stable_and_capped() {
    let mk = |name: &str, t: i128| {
        session_entry("/g", name, None, t, PathBuf::from(name)).unwrap()
    };
    let v = vec![mk("aaaaaaaa-1", 5), mk("bbbbbbbb-2", 9), mk("cccccccc-3", 5), mk("dddddddd-4", -1)];
    let out = sort_sessions(v, 10);
    let names: Vec<&str> = out.iter().map(|e| e.session_id.as_str()).collect();
    assert_eq!(names, vec!["bbbbbbbb-2", "aaaaaaaa-1", "cccccccc-3", "dddddddd-4"]);
    let v = vec![mk("aaaaaaaa-1", 1), mk("bbbbbbbb-2", 2), mk("cccccccc-3", 3)];
    let out = sort_sessions(v, 2);
    let names: Vec<&str> = out.iter().map(|e| e.session_id.as_str()).collect();
    assert_eq!(names, vec!["cccccccc-3", "bbbbbbbb-2"]);
    assert!(sort_sessions(Vec::new(), 3).is_empty());
}

fn rec(text: &str) -> Option<Json> {
    let v: serde_json::Value = serde_json::from_str(text).ok()?;
    Some(to_json(&v))
}

fn to_json(v: &serde_json::Value) -> Json {
    match v {
        serde_json::Value::Null => Json::Null,
        serde_json::Value::Bool(b) => Json::Bool(*b),
        serde_json::Value::Number(n) => match (n.as_u64(), n.as_i64()) {
            (Some(u), _) => Json::Number(JsonNumber::PosInt(u)),
            (None, Some(i)) => Json::Number(JsonNumber::NegInt(i)),
            _ => Json::Number(JsonNumber::Float(n.to_string())),
        },
        serde_json::Value::String(s) => Json::Str(s.clone()),
        serde_json::Value::Array(a) => Json::Array(a.iter().map(to_json).collect()),
        serde_json::Value::Object(m) => {
            Json::Object(m.iter().map(|(k, v)| (k.clone(), to_json(v))).collect())
        }
    }
}

#[test]
fn history_digest_keeps_last_lines_in_order() {
    let lines = vec![
        rec(r#"{"role": "user", "text": "first"}"#),
        rec("not json"),
        rec(r#"{"message": {"role": "assistant", "content": [{"text": "second"}]}}"#),
        rec(r#"{"role": "user", "text": ""}"#),
        rec(r#"{"content": "third"}"#),
    ];
    assert_eq!(history_text(&lines, 10), "[USER] first\n[ASSISTANT] second");
    assert_eq!(history_text(&lines, 1), "[ASSISTANT] second");
    assert_eq!(history_text(&lines, 0), "(empty history)");
    assert_eq!(history_text(&Vec::new(), 5), "(empty history)");
    let long = vec![rec(&format!(r#"{{"role": "user", "text": "{}"}}"#, "w".repeat(300)))];
    assert_eq!(history_text(&long, 1), format!("[USER] {}", "w".repeat(200)));
}

#[test]
fn history_shows_user_and_assistant_lines_only() {
    let lines = vec![
        rec(r#"{"role": "system", "text": "you are an agent"}"#),
        rec(r#"{"role": "user", "text": "hi"}"#),
        rec(r#"{"role": "tool", "text": "ls output"}"#),
        rec(r#"{"role": "User", "text": "not exactly user"}"#),
        rec(r#"{"message": {"role": "assistant", "content": [{"text": "hello"}]}}"#),
        rec(r#"{"text": "no role"}"#),
    ];
    assert_eq!(history_text(&lines, 10), "[USER] hi\n[ASSISTANT] hello");
    assert_eq!(history_text(&lines, 1), "[ASSISTANT] hello");
    let only_tools = vec![rec(r#"{"role": "tool", "text": "x"}"#)];
    assert_eq!(history_text(&only_tools, 3), "(empty history)");
}

#[test]
fn picker_lists_session_folders_newest_first() {
    let found = |group: &str, name: &str, t: i128| FoundDir {
        group: group.to_string(),
        name: name.to_string(),
        summary: None,
        updated: t,
        disk_path: PathBuf::from(format!("/root/{group}/{name}")),
    };
    let out = collect_sessions(
        vec![
            found("-home-u-a", "aaaaaaaa-1", 5),
            found("-home-u-a", "notes", 99),
            found("-home-u-b", "bbbbbbbb-2", 9),
            found("-home-u-b", "cccccccc-3", 1),
        ],
        2,
    );
    let names: Vec<&str> = out.iter().map(|e| e.session_id.as_str()).collect();
    assert_eq!(names, vec!["bbbbbbbb-2", "aaaaaaaa-1"]);
    assert_eq!(out[0].cwd, decode_cwd_group("-home-u-b"));
    assert_eq!(out[0].disk_path, PathBuf::from("/root/-home-u-b/bbbbbbbb-2"));
    assert!(collect_sessions(Vec::new(), 5).is_empty());
}

#[test]
fn history_from_file_lines() {
    let lines: Vec<String> = vec![
        r#"{"role": "user", "text": "first"}"#.to_string(),
        "not json".to_string(),
        "".to_string(),
        r#"{"message": {"role": "assistant", "content": [{"text": "second"}]}}"#.to_string(),
        r#"{"role": "system", "text": "hidden"}"#.to_string(),
    ];
    assert_eq!(history_of_lines(&lines, 10), "[USER] first\n[ASSISTANT] second");
    assert_eq!(history_of_lines(&lines, 1), "[ASSISTANT] second");
    assert_eq!(history_of_lines(&Vec::new(), 3), "(empty history)");
}
