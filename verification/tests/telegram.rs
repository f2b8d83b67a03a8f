use xai_gork_telegram::json::{Json, JsonNumber};
use xai_gork_telegram::telegram::{
    answer_callback_body, esc, inline_keyboard, keyboard_json, message_text, reply_ok,
    send_message_body,
};

#[test]
fn esc_html() {
    assert_eq!(esc("a<b>&c"), "a&lt;b&gt;&amp;c");
}

#[test]
fn keyboard_caps_callback() {
    let long = "x".repeat(80);
    let kb = inline_keyboard(vec![vec![("A".into(), long)]]);
    let data = kb.rows[0][0].callback_data.as_str();
    assert!(data.len() <= 64);
}

#[test]
fn escaped_text_has_no_tags() {
    let e = esc("<script>alert('&')</script> ok");
    assert!(!e.contains('<') && !e.contains('>'));
    assert_eq!(e, "&lt;script&gt;alert('&amp;')&lt;/script&gt; ok");
}

#[test]
fn keyboard_keeps_short_data_and_cuts_to_64_bytes() {
    let kb = inline_keyboard(vec![
        vec![("a".into(), "p:1".into()), ("b".into(), "y".repeat(64))],
        vec![("c".into(), "é".repeat(40))],
    ]);
    assert_eq!(kb.rows.len(), 2);
    assert_eq!(kb.rows[0][0].text, "a");
    assert_eq!(kb.rows[0][0].callback_data, "p:1");
    assert_eq!(kb.rows[0][1].callback_data, "y".repeat(64));
    // 80 bytes: cut on a character boundary to the 64 bytes that fit
    assert_eq!(kb.rows[1][0].callback_data, "é".repeat(32));
    let kb = inline_keyboard(vec![vec![("d".into(), format!("{}é", "x".repeat(63)))]]);
    assert_eq!(kb.rows[0][0].callback_data, "x".repeat(63));
}

#[test]
fn long_messages_are_clipped_for_telegram() {
    let short = "z".repeat(4000);
    assert_eq!(message_text(&short), short);
    let long = "z".repeat(4001);
    let m = message_text(&long);
    assert_eq!(m, format!("{}…", "z".repeat(3999)));
}

#[test]
fn escaping_joins_and_reads_back() {
    let a = "x < y && ";
    let b = "z > 1";
    assert_eq!(esc(&format!("{a}{b}")), format!("{}{}", esc(a), esc(b)));
    for s in ["a<b>&c", "&amp; already", "<<>>", "plain", ""] {
        let back = esc(s).replace("&lt;", "<").replace("&gt;", ">").replace("&amp;", "&");
        assert_eq!(back, s);
    }
}

fn obj(members: Vec<(&str, Json)>) -> Json {
    Json::Object(members.into_iter().map(|(k, v)| (k.to_string(), v)).collect())
}

#[test]
fn bot_api_bodies_and_replies() {
    let kb = inline_keyboard(vec![vec![("A".into(), "a".into()), ("B".into(), "b".into())]]);
    let kj = obj(vec![(
        "inline_keyboard",
        Json::Array(vec![Json::Array(vec![
            obj(vec![("text", Json::Str("A".into())), ("callback_data", Json::Str("a".into()))]),
            obj(vec![("text", Json::Str("B".into())), ("callback_data", Json::Str("b".into()))]),
        ])]),
    )]);
    assert_eq!(keyboard_json(&kb), kj);
    let base = |chat: Json, text: &str| {
        vec![
            ("chat_id", chat),
            ("text", Json::Str(text.into())),
            ("parse_mode", Json::Str("HTML".into())),
            ("disable_web_page_preview", Json::Bool(true)),
        ]
    };
    assert_eq!(
        send_message_body(-100, "hi", None),
        obj(base(Json::Number(JsonNumber::NegInt(-100)), "hi"))
    );
    let mut with_kb = base(Json::Number(JsonNumber::PosInt(9)), "hi");
    with_kb.push(("reply_markup", kj));
    assert_eq!(send_message_body(9, "hi", Some(&kb)), obj(with_kb));
    let long = "z".repeat(4001);
    match send_message_body(1, &long, None) {
        Json::Object(m) => assert_eq!(m[1].1, Json::Str(format!("{}…", "z".repeat(3999)))),
        other => panic!("unexpected {other:?}"),
    }
    assert_eq!(
        answer_callback_body("cb1", "OK"),
        obj(vec![("callback_query_id", Json::Str("cb1".into())), ("text", Json::Str("OK".into()))])
    );
    assert!(reply_ok(&obj(vec![("ok", Json::Bool(true))])));
    assert!(!reply_ok(&obj(vec![("ok", Json::Bool(false))])));
    assert!(!reply_ok(&obj(vec![("ok", Json::Str("true".into()))])));
    assert!(!reply_ok(&Json::Null));
}
