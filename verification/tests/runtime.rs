use std::path::PathBuf;
use xai_gork_telegram::acp::{AcpEvent, ServerRequest};
use xai_gork_telegram::auth::AuthPolicy;
use xai_gork_telegram::json::{Json, JsonNumber};
use xai_gork_telegram::acp::AttachStep;
use xai_gork_telegram::notes::NoteQueue;
use xai_gork_telegram::runtime::{
    attach_done_text, attach_failed_text, check_config, help_text, history_card_text,
    media_failed_text, media_file_name_of, prompt_failed_text, respond_failed_text,
    respond_outcome_text, Action,
    ConfigError, RemoteState, RuntimeConfig,
};
use xai_gork_telegram::telegram::{
    CallbackQuery, Chat, Document, Media, Message, PhotoSize, Update, User,
};

fn cfg(token: &str, users: &str) -> RuntimeConfig {
    RuntimeConfig {
        bot_token: token.to_string(),
        allowed_user_ids: users.to_string(),
        cwd: PathBuf::from("."),
        agent_bin: None,
        session_id: None,
        host_id: "this-pc".to_string(),
    }
}

#[test]
fn config_is_fail_closed() {
    assert_eq!(check_config(&cfg("123:abc", "")).unwrap_err(), ConfigError::EmptyAllowlist);
    assert_eq!(check_config(&cfg("123:abc", "x, y")).unwrap_err(), ConfigError::EmptyAllowlist);
    assert_eq!(check_config(&cfg("  ", "1")).unwrap_err(), ConfigError::BadToken);
    assert_eq!(check_config(&cfg("REPLACE_ME", "1")).unwrap_err(), ConfigError::BadToken);
    let p = check_config(&cfg("123:abc", "1,2")).unwrap();
    assert!(p.authorize(Some(2)));
    assert_eq!(
        ConfigError::EmptyAllowlist.message(),
        "ALLOWED_USER_IDS is empty — fail-closed. Set comma-separated Telegram user ids."
    );
    assert_eq!(ConfigError::BadToken.message(), "TELEGRAM_BOT_TOKEN missing or placeholder");
}

fn message(update_id: i64, chat: i64, from: Option<i64>, text: Option<&str>) -> Update {
    Update {
        update_id,
        message: Some(Message {
            message_id: 1,
            chat: Chat { id: chat },
            from: from.map(|id| User { id }),
            text: text.map(String::from),
            caption: None,
            photo: None,
            document: None,
        }),
        callback_query: None,
    }
}

fn press(update_id: i64, from: i64, chat: Option<i64>, data: &str) -> Update {
    Update {
        update_id,
        message: None,
        callback_query: Some(CallbackQuery {
            id: format!("cb{update_id}"),
            from: User { id: from },
            message: chat.map(|c| Message {
                message_id: 2,
                chat: Chat { id: c },
                from: None,
                text: None,
                caption: None,
                photo: None,
                document: None,
            }),
            data: Some(data.to_string()),
        }),
    }
}

fn sent_text(a: &Action) -> Option<(i64, &str)> {
    match a {
        Action::Send { chat_id, text, .. } => Some((*chat_id, text.as_str())),
        _ => None,
    }
}

#[test]
fn unauthorized_users_are_refused() {
    let auth = AuthPolicy::from_csv("42");
    let mut s = RemoteState::new();
    let mut nq = NoteQueue::new();
    let acts = s.on_update(&auth, &mut nq, message(10, 500, Some(7), Some("rm -rf /")));
    assert_eq!(acts.len(), 1);
    assert_eq!(
        sent_text(&acts[0]),
        Some((500, "⛔ Not authorized.\nYour id: <code>7</code>\nAdd to ALLOWED_USER_IDS."))
    );
    assert_eq!(s.offset, 11);
    assert_eq!(s.last_chat, None);
    let acts = s.on_update(&auth, &mut nq, message(11, 500, None, Some("hi")));
    assert_eq!(
        sent_text(&acts[0]),
        Some((500, "⛔ Not authorized.\nYour id: <code>?</code>\nAdd to ALLOWED_USER_IDS."))
    );
    let acts = s.on_update(&auth, &mut nq, press(12, 7, Some(500), "p:allow-once"));
    assert_eq!(acts.len(), 1);
    match &acts[0] {
        Action::AnswerCallback { callback_id, text } => {
            assert_eq!(callback_id, "cb12");
            assert_eq!(text, "Not authorized");
        }
        other => panic!("unexpected {other:?}"),
    }
    assert_eq!(s.offset, 13);
}

#[test]
fn authorized_messages_drive_the_agent() {
    let auth = AuthPolicy::from_csv("42");
    let mut s = RemoteState::new();
    let mut nq = NoteQueue::new();
    let acts = s.on_update(&auth, &mut nq, message(1, 9, Some(42), Some("/start")));
    assert!(matches!(acts[0], Action::Help { chat_id: 9 }));
    assert_eq!(s.last_chat, Some(9));
    let acts = s.on_update(&auth, &mut nq, message(2, 9, Some(42), Some("/foo")));
    assert_eq!(
        sent_text(&acts[0]),
        Some((9, "Unknown command. Just type a message for the agent, or /help."))
    );
    assert!(s.on_update(&auth, &mut nq, message(3, 9, Some(42), None)).is_empty());
    s.agent_buf = "old".to_string();
    let acts = s.on_update(&auth, &mut nq, message(4, 9, Some(42), Some("fix the bug")));
    assert_eq!(acts.len(), 2);
    assert_eq!(sent_text(&acts[0]), Some((9, "⏳ Working…")));
    match &acts[1] {
        Action::Prompt { chat_id, text } => {
            assert_eq!(*chat_id, 9);
            assert_eq!(text, "fix the bug");
        }
        other => panic!("unexpected {other:?}"),
    }
    assert_eq!(s.agent_buf, "");
}

fn permission(id: u64) -> ServerRequest {
    ServerRequest::Permission {
        id: Json::Number(JsonNumber::PosInt(id)),
        tool_title: "run".to_string(),
        options: vec![("allow-once".into(), "Allow once".into())],
    }
}

#[test]
fn permission_is_answered_once() {
    let auth = AuthPolicy::from_csv("42");
    let mut s = RemoteState::new();
    let mut nq = NoteQueue::new();
    // no chat yet: the request is not shown and not kept
    assert!(s.on_acp_event(AcpEvent::ServerRequest(permission(1))).is_empty());
    assert!(s.pending.perm.is_none());
    s.on_update(&auth, &mut nq, message(1, 9, Some(42), Some("go")));
    let acts = s.on_acp_event(AcpEvent::ServerRequest(permission(5)));
    match &acts[0] {
        Action::Send { chat_id, text, keyboard } => {
            assert_eq!(*chat_id, 9);
            assert!(text.contains("Permission needed"));
            assert_eq!(keyboard.as_ref().unwrap().rows[0][0].callback_data, "p:allow-once");
        }
        other => panic!("unexpected {other:?}"),
    }
    let acts = s.on_update(&auth, &mut nq, press(2, 42, Some(9), "p:allow-once"));
    assert_eq!(acts.len(), 2);
    match &acts[1] {
        Action::Respond { chat_id, id, result, done_text } => {
            assert_eq!(*chat_id, 9);
            assert_eq!(*id, Json::Number(JsonNumber::PosInt(5)));
            assert_eq!(done_text, "✅ Permission: <code>allow-once</code>");
            assert_eq!(
                *result,
                Json::Object(vec![(
                    "outcome".into(),
                    Json::Object(vec![
                        ("outcome".into(), Json::Str("selected".into())),
                        ("optionId".into(), Json::Str("allow-once".into())),
                    ])
                )])
            );
        }
        other => panic!("unexpected {other:?}"),
    }
    let acts = s.on_update(&auth, &mut nq, press(3, 42, Some(9), "p:allow-once"));
    assert_eq!(sent_text(&acts[1]), Some((9, "No pending permission.")));
}

#[test]
fn question_and_plan_answers() {
    let auth = AuthPolicy::from_csv("42");
    let mut s = RemoteState::new();
    let mut nq = NoteQueue::new();
    s.last_chat = Some(9);
    let q = ServerRequest::AskUser {
        id: Json::Str("q1".into()),
        question: "Color?".into(),
        options: vec![("0".into(), "Red".into()), ("1".into(), "Blue".into())],
    };
    s.on_acp_event(AcpEvent::ServerRequest(q));
    let acts = s.on_update(&auth, &mut nq, press(1, 42, Some(9), "q:1"));
    match &acts[1] {
        Action::Respond { result, done_text, .. } => {
            assert_eq!(done_text, "✅ Answered");
            assert_eq!(
                *result,
                Json::Object(vec![
                    ("outcome".into(), Json::Str("accepted".into())),
                    (
                        "answers".into(),
                        Json::Object(vec![("Color?".into(), Json::Array(vec![Json::Str("Blue".into())]))])
                    ),
                ])
            );
        }
        other => panic!("unexpected {other:?}"),
    }
    // nothing pending any more: silently ignored
    assert_eq!(s.on_update(&auth, &mut nq, press(2, 42, Some(9), "q:1")).len(), 1);
    let plan = ServerRequest::ExitPlan { id: Json::Null, plan_excerpt: "p".into() };
    s.on_acp_event(AcpEvent::ServerRequest(plan));
    let acts = s.on_update(&auth, &mut nq, press(3, 42, Some(9), "pl:edit"));
    match &acts[1] {
        Action::Respond { result, done_text, .. } => {
            assert_eq!(done_text, "✅ Plan: <code>edit</code>");
            assert_eq!(
                *result,
                Json::Object(vec![
                    ("outcome".into(), Json::Str("cancelled".into())),
                    ("feedback".into(), Json::Str("revise from phone".into())),
                ])
            );
        }
        other => panic!("unexpected {other:?}"),
    }
    // a press without a message gets only the acknowledgement
    assert_eq!(s.on_update(&auth, &mut nq, press(4, 42, None, "pl:quit")).len(), 1);
}

#[test]
fn agent_text_is_gathered_until_the_turn_ends() {
    let mut s = RemoteState::new();
    s.on_acp_event(AcpEvent::AgentText("  Hello ".into()));
    s.on_acp_event(AcpEvent::AgentText("<world>\n".into()));
    // no chat: nothing sent and the text stays
    assert!(s.on_acp_event(AcpEvent::TurnDone { stop_reason: "end_turn".into() }).is_empty());
    assert_eq!(s.agent_buf, "  Hello <world>\n");
    s.last_chat = Some(3);
    let acts = s.on_acp_event(AcpEvent::TurnDone { stop_reason: "end_turn".into() });
    assert_eq!(sent_text(&acts[0]), Some((3, "🟢 <b>Gork</b>\nHello &lt;world&gt;")));
    assert_eq!(s.agent_buf, "");
    let acts = s.on_acp_event(AcpEvent::TurnDone { stop_reason: "cancel<led>".into() });
    assert_eq!(
        sent_text(&acts[0]),
        Some((3, "🟢 <b>Turn finished</b>\n<i>cancel&lt;led&gt;</i>"))
    );
    let acts = s.on_acp_event(AcpEvent::ToolTitle("read_file".into()));
    assert_eq!(sent_text(&acts[0]), Some((3, "🛠 <b>read_file</b>")));
    let acts = s.on_acp_event(AcpEvent::Error("agent stdout closed".into()));
    assert_eq!(sent_text(&acts[0]), Some((3, "❌ Agent: agent stdout closed")));
    s.agent_buf = "x".repeat(3600);
    let acts = s.on_acp_event(AcpEvent::TurnDone { stop_reason: "ok".into() });
    assert_eq!(
        sent_text(&acts[0]),
        Some((3, format!("🟢 <b>Gork</b>\n{}…", "x".repeat(3499)).as_str()))
    );
}

#[test]
fn outcome_texts() {
    assert_eq!(
        help_text("pc<1>", "s-1", "/tmp"),
        "<b>✦ Gork phone remote</b>\nhost <code>pc&lt;1&gt;</code>\nsession <code>s-1</code>\ncwd <code>/tmp</code>\n\nType freely — messages go to the live agent.\nPermissions / questions / plans show as buttons."
    );
    assert_eq!(prompt_failed_text("no session"), "❌ Prompt failed: no session");
    assert_eq!(respond_failed_text("broken <pipe>"), "❌ broken &lt;pipe&gt;");
}

#[test]
fn event_checks_catch_panicking_inputs() {
    let mut s = RemoteState::new();
    s.last_chat = Some(1);
    // 3499 falls inside a two-byte character
    s.agent_buf = format!("{}{}", "a".repeat(3498), "é".repeat(10));
    let ev = AcpEvent::TurnDone { stop_reason: "ok".into() };
    assert!(!s.event_can_run(&ev));
    s.agent_buf = "short".into();
    assert!(s.event_can_run(&ev));
}

fn prompted(a: &Action) -> Option<(i64, &str)> {
    match a {
        Action::Prompt { chat_id, text } => Some((*chat_id, text.as_str())),
        _ => None,
    }
}

#[test]
fn live_off_parks_messages_and_drain_sends_them_in_order() {
    let auth = AuthPolicy::from_csv("42");
    let mut s = RemoteState::new();
    let mut nq = NoteQueue::new();
    s.session_id = Some("sess-1".to_string());
    assert!(s.live);
    let acts = s.on_update(&auth, &mut nq, message(1, 9, Some(42), Some("/stop")));
    assert_eq!(
        sent_text(&acts[0]),
        Some((9, "⏸ Live off — messages are parked as notes. /live to go live again."))
    );
    assert!(!s.live);
    let acts = s.on_update(&auth, &mut nq, message(2, 9, Some(42), Some("first idea")));
    assert_eq!(acts.len(), 1);
    assert_eq!(
        sent_text(&acts[0]),
        Some((9, "📝 Parked as note #1. /drain sends the next note to the agent."))
    );
    let acts = s.on_update(&auth, &mut nq, message(3, 9, Some(42), Some("second idea")));
    assert_eq!(
        sent_text(&acts[0]),
        Some((9, "📝 Parked as note #2. /drain sends the next note to the agent."))
    );
    let notes = nq.list();
    assert_eq!(notes.len(), 2);
    assert_eq!(notes[0].text, "first idea");
    assert_eq!(notes[0].session_id.as_deref(), Some("sess-1"));
    assert_eq!(notes[0].media_path, None);
    assert!(!notes[0].is_image);
    assert_eq!(notes[0].id.len(), 36);
    assert_eq!(&notes[0].id[14..15], "4");
    assert!(notes[0].created_at.chars().all(|c| c.is_ascii_digit()));
    assert_ne!(notes[0].id, notes[1].id);

    s.agent_buf = "stale".to_string();
    let acts = s.on_update(&auth, &mut nq, message(4, 9, Some(42), Some("/drain")));
    assert_eq!(acts.len(), 2);
    assert_eq!(sent_text(&acts[0]), Some((9, "📤 Sending the next parked note…")));
    assert_eq!(prompted(&acts[1]), Some((9, "first idea")));
    assert_eq!(s.agent_buf, "");
    assert_eq!(nq.count(), 1);
    // the Drain→live button drains too
    let acts = s.on_update(&auth, &mut nq, press(5, 42, Some(9), "drain"));
    assert_eq!(acts.len(), 3);
    assert_eq!(prompted(&acts[2]), Some((9, "second idea")));
    assert_eq!(nq.count(), 0);
    let acts = s.on_update(&auth, &mut nq, message(6, 9, Some(42), Some("/drain")));
    assert_eq!(sent_text(&acts[0]), Some((9, "No parked notes.")));

    let acts = s.on_update(&auth, &mut nq, message(7, 9, Some(42), Some("/live")));
    assert_eq!(sent_text(&acts[0]), Some((9, "🟢 Live on — messages go to the agent.")));
    assert!(s.live);
    let acts = s.on_update(&auth, &mut nq, message(8, 9, Some(42), Some("now live")));
    assert_eq!(prompted(&acts[1]), Some((9, "now live")));
    assert_eq!(nq.count(), 0);
}

#[test]
fn parked_note_takes_the_given_stamp() {
    let auth = AuthPolicy::from_csv("42");
    let mut s = RemoteState::new();
    let mut nq = NoteQueue::new();
    s.live = false;
    let u = message(1, 9, Some(42), Some("later"));
    s.on_update_at(&auth, &mut nq, u, "id-1".to_string(), "1700000000".to_string());
    let notes = nq.list();
    assert_eq!(notes.len(), 1);
    assert_eq!(notes[0].id, "id-1");
    assert_eq!(notes[0].created_at, "1700000000");
    assert_eq!(notes[0].session_id, None);
    // a stranger's text is never parked
    let u = message(2, 9, Some(7), Some("spam"));
    s.on_update_at(&auth, &mut nq, u, "id-2".to_string(), "1".to_string());
    assert_eq!(nq.count(), 1);
}

#[test]
fn session_commands_and_buttons() {
    let auth = AuthPolicy::from_csv("42");
    let mut s = RemoteState::new();
    let mut nq = NoteQueue::new();
    let acts = s.on_update(&auth, &mut nq, message(1, 9, Some(42), Some("/home")));
    assert!(matches!(acts[0], Action::Help { chat_id: 9 }));
    let acts = s.on_update(&auth, &mut nq, message(2, 9, Some(42), Some("/new")));
    assert!(matches!(acts[0], Action::NewSession { chat_id: 9 }));
    let acts = s.on_update(&auth, &mut nq, message(3, 9, Some(42), Some("/sessions")));
    assert!(matches!(acts[0], Action::ListSessions { chat_id: 9 }));
    let acts = s.on_update(&auth, &mut nq, message(4, 9, Some(42), Some("/history")));
    assert!(matches!(acts[0], Action::History { chat_id: 9 }));
    let acts = s.on_update(&auth, &mut nq, press(5, 42, Some(9), "use:0199-abc"));
    match &acts[1] {
        Action::Attach { chat_id, session_id } => {
            assert_eq!(*chat_id, 9);
            assert_eq!(session_id, "0199-abc");
        }
        other => panic!("unexpected {other:?}"),
    }
    let acts = s.on_update(&auth, &mut nq, press(6, 42, Some(9), "new"));
    assert!(matches!(acts[1], Action::NewSession { chat_id: 9 }));
    let acts = s.on_update(&auth, &mut nq, press(7, 42, Some(9), "sessions"));
    assert!(matches!(acts[1], Action::ListSessions { chat_id: 9 }));
    // a stranger's button press starts nothing
    let acts = s.on_update(&auth, &mut nq, press(8, 7, Some(9), "new"));
    assert_eq!(acts.len(), 1);
    assert!(matches!(acts[0], Action::AnswerCallback { .. }));
}

#[test]
fn attach_and_history_texts() {
    assert_eq!(attach_done_text(AttachStep::New, "s<1>"), "🆕 New session <code>s&lt;1&gt;</code>");
    assert_eq!(attach_done_text(AttachStep::Load, "s1"), "✅ Attached to session <code>s1</code>");
    assert_eq!(attach_done_text(AttachStep::Resume, "s1"), "✅ Attached to session <code>s1</code>");
    assert_eq!(attach_failed_text("no <luck>"), "❌ Attach failed: no &lt;luck&gt;");
    assert_eq!(history_card_text("[USER] a&b"), "📜 <b>History</b>\n[USER] a&amp;b");
    let long = "y".repeat(1000);
    assert_eq!(history_card_text(&long), format!("📜 <b>History</b>\n{}", "y".repeat(780)));
}

fn media_message(update_id: i64, photo: bool, name: Option<&str>, caption: Option<&str>) -> Update {
    Update {
        update_id,
        message: Some(Message {
            message_id: 77,
            chat: Chat { id: 9 },
            from: Some(User { id: 42 }),
            text: None,
            caption: caption.map(String::from),
            photo: if photo {
                Some(vec![
                    PhotoSize {
                        file_id: "small".into(),
                        file_unique_id: None,
                        width: Some(90),
                        height: Some(90),
                        file_size: None,
                    },
                    PhotoSize {
                        file_id: "large".into(),
                        file_unique_id: None,
                        width: Some(1280),
                        height: Some(960),
                        file_size: None,
                    },
                ])
            } else {
                None
            },
            document: if photo {
                None
            } else {
                Some(Document {
                    file_id: "doc".into(),
                    file_name: name.map(String::from),
                    mime_type: None,
                    file_size: None,
                })
            },
        }),
        callback_query: None,
    }
}

#[test]
fn photos_and_files_are_saved_then_prompted_or_parked() {
    let auth = AuthPolicy::from_csv("42");
    let mut s = RemoteState::new();
    let mut nq = NoteQueue::new();
    let acts = s.on_update(&auth, &mut nq, media_message(1, true, None, Some("look")));
    match &acts[0] {
        Action::SaveMedia { chat_id, file_id, file_name, is_image, caption } => {
            assert_eq!(*chat_id, 9);
            assert_eq!(file_id, "large");
            assert_eq!(file_name, "tg77-photo.jpg");
            assert!(*is_image);
            assert_eq!(caption, "look");
        }
        other => panic!("unexpected {other:?}"),
    }
    let acts = s.on_update(&auth, &mut nq, media_message(2, false, Some("../../etc/pass wd"), None));
    match &acts[0] {
        Action::SaveMedia { file_id, file_name, is_image, caption, .. } => {
            assert_eq!(file_id, "doc");
            assert_eq!(file_name, "tg77-.._.._etc_pass_wd");
            assert!(!*is_image);
            assert_eq!(caption, "");
        }
        other => panic!("unexpected {other:?}"),
    }
    // live: the agent is told where the file is
    let acts = s.on_media_saved(&mut nq, 9, "/d/media/tg77-photo.jpg".into(), true, "look".into());
    assert_eq!(
        sent_text(&acts[0]),
        Some((9, "📎 Saved <code>/d/media/tg77-photo.jpg</code> — sent to the agent."))
    );
    assert_eq!(
        prompted(&acts[1]),
        Some((9, "The user sent a photo, saved at /d/media/tg77-photo.jpg\nCaption: look"))
    );
    assert_eq!(nq.count(), 0);
    // live off: parked as a note with the path
    s.live = false;
    s.session_id = Some("s9".into());
    let acts = s.on_media_saved_at(
        &mut nq,
        9,
        "/d/media/tg77-file".into(),
        false,
        "".into(),
        "id-9".into(),
        "12".into(),
    );
    assert_eq!(
        sent_text(&acts[0]),
        Some((9, "📎 Saved <code>/d/media/tg77-file</code>, parked as note #1."))
    );
    let notes = nq.list();
    assert_eq!(notes[0].id, "id-9");
    assert_eq!(notes[0].text, "");
    assert_eq!(notes[0].media_path.as_deref(), Some("/d/media/tg77-file"));
    assert!(!notes[0].is_image);
    assert_eq!(notes[0].session_id.as_deref(), Some("s9"));
    assert_eq!(notes[0].created_at, "12");
    // draining it tells the agent where the file is
    let acts = s.on_update(&auth, &mut nq, message(3, 9, Some(42), Some("/drain")));
    assert_eq!(prompted(&acts[1]), Some((9, "The user sent a file, saved at /d/media/tg77-file")));
    assert_eq!(media_failed_text("404 <gone>"), "❌ Could not save the file: 404 &lt;gone&gt;");
    let md = Media { file_id: "f".into(), file_name: Some(String::new()), is_image: false };
    assert_eq!(media_file_name_of(-3, &md), "tg-3-file");
}

#[test]
fn answer_outcome_texts() {
    assert_eq!(respond_outcome_text("✅ Answered".to_string(), None), "✅ Answered");
    assert_eq!(respond_outcome_text("✅ Answered".to_string(), Some("pipe <closed>")), "❌ pipe &lt;closed&gt;");
}
