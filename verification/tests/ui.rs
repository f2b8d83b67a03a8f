use xai_gork_telegram::acp::ServerRequest;
use xai_gork_telegram::json::{Json, JsonNumber};
use xai_gork_telegram::sessions::SessionEntry;
use xai_gork_telegram::ui::{
    card_for_request, home_keyboard, permission_card, permission_keyboard, plan_card,
    plan_keyboard, question_card, question_keyboard, sessions_card,
};

#[test]
fn permission_has_buttons() {
    let opts: Vec<(String, String)> = vec![
        ("allow-once".into(), "Allow once".into()),
        ("reject-once".into(), "Deny".into()),
    ];
    let kb = permission_keyboard(&opts);
    let rows = &kb.rows;
    assert_eq!(rows.len(), 2);
    assert!(rows[0][0].callback_data.as_str().starts_with("p:"));
}

#[test]
fn no_forbidden_lie() {
    let c = permission_card("x");
    assert!(!c.contains("doesn't run Grok for you yet"));
}

#[test]
fn permission_card_escapes_the_tool() {
    assert_eq!(
        permission_card("a<b"),
        "<b>🔐 Permission needed</b>\nTool: <b>a&lt;b</b>\n\nChoose approve or deny — work pauses until you answer."
    );
}

#[test]
fn permission_keyboard_defaults_and_long_labels() {
    let none: Vec<(String, String)> = Vec::new();
    let kb = permission_keyboard(&none);
    assert_eq!(kb.rows.len(), 2);
    assert_eq!(kb.rows[0][0].text, "✅ Allow once");
    assert_eq!(kb.rows[0][0].callback_data, "p:allow-once");
    assert_eq!(kb.rows[1][0].text, "❌ Deny");
    assert_eq!(kb.rows[1][0].callback_data, "p:reject-once");
    let opts = vec![("o".to_string(), "n".repeat(41))];
    let kb = permission_keyboard(&opts);
    assert_eq!(kb.rows[0][0].text, format!("{}…", "n".repeat(39)));
    assert_eq!(kb.rows[0][0].callback_data, "p:o");
}

#[test]
fn question_card_numbers_options() {
    let opts = vec![("0".to_string(), "Red".to_string()), ("1".to_string(), "B&W".to_string())];
    assert_eq!(
        question_card("Pick <one>", &opts),
        "<b>❓ Gork is asking</b>\nPick &lt;one&gt;\n\n1. <b>Red</b>\n2. <b>B&amp;W</b>\n\nTap an option, or type a custom answer."
    );
    let kb = question_keyboard(&opts);
    assert_eq!(kb.rows.len(), 2);
    assert_eq!(kb.rows[1][0].text, "B&W");
    assert_eq!(kb.rows[1][0].callback_data, "q:1");
}

#[test]
fn plan_card_clips_and_keyboard_has_three_choices() {
    let c = plan_card("step <1>");
    assert_eq!(
        c,
        "<b>📋 Plan ready</b>\n\nstep &lt;1&gt;\n\nApprove to build, request changes, or quit plan mode."
    );
    let long = "p".repeat(1201);
    let c = plan_card(&long);
    assert!(c.contains(&format!("{}…", "p".repeat(1199))));
    assert!(!c.contains(&"p".repeat(1200)));
    let kb = plan_keyboard();
    let data: Vec<&str> = kb.rows.iter().map(|r| r[0].callback_data.as_str()).collect();
    assert_eq!(data, vec!["pl:approve", "pl:revise", "pl:quit"]);
}

#[test]
fn card_for_unknown_method_has_no_buttons() {
    let req = ServerRequest::Other {
        id: Json::Number(JsonNumber::PosInt(3)),
        method: "x/y<z>".to_string(),
    };
    let (text, kb) = card_for_request(&req);
    assert_eq!(text, "Unhandled reverse-request: <code>x/y&lt;z&gt;</code>");
    assert!(kb.is_none());
    let req = ServerRequest::ExitPlan {
        id: Json::Null,
        plan_excerpt: "do it".to_string(),
    };
    let (_, kb) = card_for_request(&req);
    assert_eq!(kb.unwrap().rows.len(), 3);
}

fn pairs(kb: &xai_gork_telegram::telegram::InlineKeyboard) -> Vec<Vec<(String, String)>> {
    kb.rows
        .iter()
        .map(|r| r.iter().map(|b| (b.text.clone(), b.callback_data.clone())).collect())
        .collect()
}

#[test]
fn home_buttons() {
    let kb = home_keyboard();
    assert_eq!(
        pairs(&kb),
        vec![
            vec![
                ("📂 Sessions".to_string(), "sessions".to_string()),
                ("🆕 New".to_string(), "new".to_string())
            ],
            vec![("📤 Drain→live".to_string(), "drain".to_string())],
        ]
    );
}

#[test]
fn session_picker() {
    let entry = |id: &str, title: &str| SessionEntry {
        session_id: id.to_string(),
        cwd: "/w".to_string(),
        title: title.to_string(),
        updated: 0,
        disk_path: std::path::PathBuf::from("/s"),
    };
    let (text, kb) = sessions_card(&vec![
        entry("0199-a", "Fix the build"),
        entry("0199-b", &"t".repeat(50)),
    ]);
    assert_eq!(text, "📂 <b>Sessions</b> (newest first) — tap one to use it:");
    assert_eq!(
        pairs(&kb),
        vec![
            vec![("▶ Fix the build".to_string(), "use:0199-a".to_string())],
            vec![(format!("▶ {}", "t".repeat(40)), "use:0199-b".to_string())],
            vec![("🆕 New".to_string(), "new".to_string())],
        ]
    );
    let (text, kb) = sessions_card(&Vec::new());
    assert_eq!(text, "📂 No sessions yet. Start a new one:");
    assert_eq!(pairs(&kb), vec![vec![("🆕 New".to_string(), "new".to_string())]]);
}
