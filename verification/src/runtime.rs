//! The decisions of the phone remote: what to do with each Telegram update
//! and each agent event. The caller runs the long-poll loop and the agent
//! process, performs the actions returned here, and hands back results.
use vstd::prelude::*;
use crate::acp::{AcpEvent, AttachStep, EventV, RequestV, ServerRequest, pairs_view};
use crate::auth::{AuthPolicy, authorized, csv_ids};
use crate::json::{Json, JsonV};
use crate::notes::{
    NoteQueue, NoteV, chrono_lite_now, fresh_note_id, is_uuid_v4_text, pop_front,
};
use crate::telegram::{
    InlineKeyboard, Media, MediaV, MessageV, Update, UpdateV, cap_data, esc, escape, keyboard_of,
    lemma_callback_data_capped, message_media,
};
use crate::text::{
    clip, clip_ok, clip_str, can_clip, contains_str, has_infix, i64_to_decimal, is_blank, owned,
    push_str, signed_decimal, starts_with, str_eq, strip_prefix, take_chars, trim, trim_str, decimal,
    first_chars, u64_to_decimal,
};
use crate::ui::{
    card_can_build, card_for_request, card_of, card_ok, opt_keyboard_view, permission_rows,
    question_rows,
};

verus! {

// ---------------------------------------------------------------------
// Configuration
// ---------------------------------------------------------------------

/// The remote's settings.
#[derive(Debug)]
pub struct RuntimeConfig {
    pub bot_token: String,
    pub allowed_user_ids: String,
    pub cwd: std::path::PathBuf,
    pub agent_bin: Option<std::path::PathBuf>,
    pub session_id: Option<String>,
    pub host_id: String,
}

/// Why the remote refuses to start.
#[derive(Debug, PartialEq, Eq)]
pub enum ConfigError {
    /// The allowlist names nobody.
    EmptyAllowlist,
    /// The bot token is blank or still a placeholder.
    BadToken,
}

impl ConfigError {
    /// The message the remote stops with.
    pub fn message(&self) -> (s: String)
        ensures
            s@ == match self {
                ConfigError::EmptyAllowlist => "ALLOWED_USER_IDS is empty — fail-closed. Set comma-separated Telegram user ids."@,
                ConfigError::BadToken => "TELEGRAM_BOT_TOKEN missing or placeholder"@,
            },
    {
        match self {
            ConfigError::EmptyAllowlist => owned(
                "ALLOWED_USER_IDS is empty — fail-closed. Set comma-separated Telegram user ids.",
            ),
            ConfigError::BadToken => owned("TELEGRAM_BOT_TOKEN missing or placeholder"),
        }
    }
}

/// A token that cannot be a real bot token: blank, or holding the
/// `REPLACE` placeholder.
pub open spec fn bad_token(t: Seq<char>) -> bool {
    trim(t).len() == 0 || has_infix(t, "REPLACE"@)
}

/// Checks the settings before anything starts: the allowlist must name
/// someone (fail-closed) and the token must not be blank or a placeholder.
pub fn check_config(cfg: &RuntimeConfig) -> (r: Result<AuthPolicy, ConfigError>)
    ensures
        match r {
            Ok(p) => p@ == csv_ids(cfg.allowed_user_ids@) && p@.len() > 0 && !bad_token(
                cfg.bot_token@,
            ),
            Err(ConfigError::EmptyAllowlist) => csv_ids(cfg.allowed_user_ids@).len() == 0,
            Err(ConfigError::BadToken) => csv_ids(cfg.allowed_user_ids@).len() > 0 && bad_token(
                cfg.bot_token@,
            ),
        },
{
    let auth = AuthPolicy::from_csv(cfg.allowed_user_ids.as_str());
    if auth.is_empty() {
        return Err(ConfigError::EmptyAllowlist);
    }
    if is_blank(cfg.bot_token.as_str()) || contains_str(cfg.bot_token.as_str(), "REPLACE") {
        return Err(ConfigError::BadToken);
    }
    Ok(auth)
}

// ---------------------------------------------------------------------
// State
// ---------------------------------------------------------------------

/// The reverse requests waiting for an answer from the phone, one slot per
/// kind; a new request of a kind replaces the waiting one.
#[derive(Debug)]
pub struct Pending {
    pub perm: Option<ServerRequest>,
    pub opt: Option<ServerRequest>,
    pub plan: Option<ServerRequest>,
    pub other: Option<ServerRequest>,
}

/// The remote's state between updates and events.
#[derive(Debug)]
pub struct RemoteState {
    pub pending: Pending,
    /// Agent text streamed during the current turn.
    pub agent_buf: String,
    /// The last chat an authorized user wrote from; agent output goes there.
    pub last_chat: Option<i64>,
    /// The next `getUpdates` offset.
    pub offset: i64,
    /// Whether free text goes to the agent (live) or is parked as a note.
    pub live: bool,
    /// The agent session the remote is attached to, once known.
    pub session_id: Option<String>,
}

/// The spec-level form of `RemoteState`.
pub struct RemoteV {
    pub perm: Option<RequestV>,
    pub opt: Option<RequestV>,
    pub plan: Option<RequestV>,
    pub other: Option<RequestV>,
    pub agent_buf: Seq<char>,
    pub last_chat: Option<i64>,
    pub offset: i64,
    pub live: bool,
    pub session_id: Option<Seq<char>>,
}

/// The view of an optional request.
pub open spec fn req_view(r: Option<ServerRequest>) -> Option<RequestV> {
    match r {
        Some(q) => Some(q@),
        None => None,
    }
}

impl View for RemoteState {
    type V = RemoteV;

    open spec fn view(&self) -> RemoteV {
        RemoteV {
            perm: req_view(self.pending.perm),
            opt: req_view(self.pending.opt),
            plan: req_view(self.pending.plan),
            other: req_view(self.pending.other),
            agent_buf: self.agent_buf@,
            last_chat: self.last_chat,
            offset: self.offset,
            live: self.live,
            session_id: match self.session_id {
                Some(t) => Some(t@),
                None => None,
            },
        }
    }
}

/// Something for the caller to do.
#[derive(Debug)]
pub enum Action {
    /// Send an HTML message to a chat, with an optional inline keyboard.
    Send { chat_id: i64, text: String, keyboard: Option<InlineKeyboard> },
    /// Answer a button press with a short notice.
    AnswerCallback { callback_id: String, text: String },
    /// Send the help card (`help_text`) to a chat.
    Help { chat_id: i64 },
    /// Prompt the agent with the text; report a failure to the chat
    /// (`prompt_failed_text`).
    Prompt { chat_id: i64, text: String },
    /// Answer the agent's reverse request `id` with `result`; then tell the
    /// chat `done_text`, or the failure (`respond_failed_text`).
    Respond { chat_id: i64, id: Json, result: Json, done_text: String },
    /// Start a new agent session (`AttachStep::New`) and report it to the
    /// chat.
    NewSession { chat_id: i64 },
    /// Send the session picker (`sessions_card`) to the chat.
    ListSessions { chat_id: i64 },
    /// Attach the agent to session `session_id` (`attach_first`, then
    /// `attach_next`) and report it to the chat.
    Attach { chat_id: i64, session_id: String },
    /// Send the history digest of the attached session (`history_card_text`).
    History { chat_id: i64 },
    /// Download the attachment `file_id` into the media folder as
    /// `file_name`, then hand the saved path to `on_media_saved` (or report
    /// the failure with `media_failed_text`).
    SaveMedia { chat_id: i64, file_id: String, file_name: String, is_image: bool, caption: String },
}

/// The spec-level form of an `Action`.
pub enum ActionV {
    Send { chat_id: i64, text: Seq<char>, keyboard: Option<Seq<Seq<(Seq<char>, Seq<char>)>>> },
    AnswerCallback { callback_id: Seq<char>, text: Seq<char> },
    Help { chat_id: i64 },
    Prompt { chat_id: i64, text: Seq<char> },
    Respond { chat_id: i64, id: JsonV, result: JsonV, done_text: Seq<char> },
    NewSession { chat_id: i64 },
    ListSessions { chat_id: i64 },
    Attach { chat_id: i64, session_id: Seq<char> },
    History { chat_id: i64 },
    SaveMedia {
        chat_id: i64,
        file_id: Seq<char>,
        file_name: Seq<char>,
        is_image: bool,
        caption: Seq<char>,
    },
}

impl View for Action {
    type V = ActionV;

    open spec fn view(&self) -> ActionV {
        match self {
            Action::Send { chat_id, text, keyboard } => ActionV::Send {
                chat_id: *chat_id,
                text: text@,
                keyboard: opt_keyboard_view(*keyboard),
            },
            Action::AnswerCallback { callback_id, text } => ActionV::AnswerCallback {
                callback_id: callback_id@,
                text: text@,
            },
            Action::Help { chat_id } => ActionV::Help { chat_id: *chat_id },
            Action::Prompt { chat_id, text } => ActionV::Prompt { chat_id: *chat_id, text: text@ },
            Action::Respond { chat_id, id, result, done_text } => ActionV::Respond {
                chat_id: *chat_id,
                id: id@,
                result: result@,
                done_text: done_text@,
            },
            Action::NewSession { chat_id } => ActionV::NewSession { chat_id: *chat_id },
            Action::ListSessions { chat_id } => ActionV::ListSessions { chat_id: *chat_id },
            Action::Attach { chat_id, session_id } => ActionV::Attach {
                chat_id: *chat_id,
                session_id: session_id@,
            },
            Action::History { chat_id } => ActionV::History { chat_id: *chat_id },
            Action::SaveMedia { chat_id, file_id, file_name, is_image, caption } => ActionV::SaveMedia {
                chat_id: *chat_id,
                file_id: file_id@,
                file_name: file_name@,
                is_image: *is_image,
                caption: caption@,
            },
        }
    }
}

/// The views of a list of actions.
pub open spec fn actions_view(v: Seq<Action>) -> Seq<ActionV> {
    Seq::new(v.len(), |i: int| v[i]@)
}

impl RemoteState {
    /// The state before the first update: nothing pending, no chat yet,
    /// offset 0, live, no session known yet.
    pub fn new() -> (s: RemoteState)
        ensures
            s@ == (RemoteV {
                perm: None,
                opt: None,
                plan: None,
                other: None,
                agent_buf: Seq::empty(),
                last_chat: None,
                offset: 0,
                live: true,
                session_id: None,
            }),
    {
        RemoteState {
            pending: Pending { perm: None, opt: None, plan: None, other: None },
            agent_buf: String::new(),
            last_chat: None,
            offset: 0,
            live: true,
            session_id: None,
        }
    }
}

// ---------------------------------------------------------------------
// Agent events
// ---------------------------------------------------------------------

/// A plain message action.
pub open spec fn send(chat_id: i64, text: Seq<char>) -> ActionV {
    ActionV::Send { chat_id, text, keyboard: None }
}

/// The message that closes a turn: the streamed agent text (trimmed, at
/// most 3500 bytes as it is, else its first 3499 bytes and an ellipsis),
/// or the stop reason when the agent said nothing.
pub open spec fn turn_done_text(buf: Seq<char>, stop_reason: Seq<char>) -> Seq<char> {
    let body = trim(buf);
    if body.len() == 0 {
        "🟢 <b>Turn finished</b>\n<i>"@ + escape(stop_reason) + "</i>"@
    } else {
        "🟢 <b>Gork</b>\n"@ + escape(clip(body, 3500, 3499))
    }
}

/// `s` with `r` waiting in the slot of its kind.
pub open spec fn with_pending(s: RemoteV, r: RequestV) -> RemoteV {
    match r {
        RequestV::Permission { .. } => RemoteV { perm: Some(r), ..s },
        RequestV::AskUser { .. } => RemoteV { opt: Some(r), ..s },
        RequestV::ExitPlan { .. } => RemoteV { plan: Some(r), ..s },
        RequestV::Other { .. } => RemoteV { other: Some(r), ..s },
    }
}

/// The inputs on which handling an agent event does not panic: the card of
/// a request that will be shown can be built, and the closing text of a
/// turn that will be sent can be clipped.
pub open spec fn event_ok(s: RemoteV, e: EventV) -> bool {
    match (e, s.last_chat) {
        (EventV::Request(r), Some(_)) => card_ok(r),
        (EventV::TurnDone(_), Some(_)) => clip_ok(trim(s.agent_buf), 3500, 3499),
        _ => true,
    }
}

/// What an agent event does: text is gathered; a tool title, a request
/// card, the end of a turn or an error go to the last chat, if there is
/// one; a request shown waits for its answer; the end of a turn shown
/// empties the gathered text.
pub open spec fn step_event(s: RemoteV, e: EventV) -> (RemoteV, Seq<ActionV>) {
    match e {
        EventV::AgentText(t) => (RemoteV { agent_buf: s.agent_buf + t, ..s }, Seq::empty()),
        EventV::ToolTitle(t) => match s.last_chat {
            Some(c) => (s, seq![send(c, "🛠 <b>"@ + escape(t) + "</b>"@)]),
            None => (s, Seq::empty()),
        },
        EventV::Request(r) => match s.last_chat {
            Some(c) => (
                with_pending(s, r),
                seq![ActionV::Send { chat_id: c, text: card_of(r).0, keyboard: card_of(r).1 }],
            ),
            None => (s, Seq::empty()),
        },
        EventV::TurnDone(stop) => match s.last_chat {
            Some(c) => (
                RemoteV { agent_buf: Seq::empty(), ..s },
                seq![send(c, turn_done_text(s.agent_buf, stop))],
            ),
            None => (s, Seq::empty()),
        },
        EventV::Error(msg) => match s.last_chat {
            Some(c) => (s, seq![send(c, "❌ Agent: "@ + escape(msg))]),
            None => (s, Seq::empty()),
        },
    }
}

fn send_action(chat_id: i64, text: String) -> (a: Action)
    ensures
        a@ == send(chat_id, text@),
{
    Action::Send { chat_id, text, keyboard: None }
}

fn text_with(prefix: &str, body: &str, suffix: &str) -> (s: String)
    ensures
        s@ == prefix@ + escape(body@) + suffix@,
{
    let mut s = owned(prefix);
    let e = esc(body);
    push_str(&mut s, e.as_str());
    push_str(&mut s, suffix);
    s
}

impl RemoteState {
    /// Whether handling `ev` now would not panic (`event_ok`).
    pub fn event_can_run(&self, ev: &AcpEvent) -> (r: bool)
        ensures
            r == event_ok(self@, ev@),
    {
        match (ev, self.last_chat) {
            (AcpEvent::ServerRequest(req), Some(_)) => card_can_build(req),
            (AcpEvent::TurnDone { .. }, Some(_)) => {
                let body = trim_str(self.agent_buf.as_str());
                can_clip(body.as_str(), 3500, 3499)
            },
            _ => true,
        }
    }

    /// Handles one agent event.
    pub fn on_acp_event(&mut self, ev: AcpEvent) -> (acts: Vec<Action>)
        requires
            event_ok(old(self)@, ev@),
        ensures
            (final(self)@, actions_view(acts@)) == step_event(old(self)@, ev@),
    {
        let ghost s0 = self@;
        let ghost e0 = ev@;
        let mut acts: Vec<Action> = Vec::new();
        match ev {
            AcpEvent::AgentText(t) => {
                push_str(&mut self.agent_buf, t.as_str());
            },
            AcpEvent::ToolTitle(t) => match self.last_chat {
                Some(c) => {
                    acts.push(send_action(c, text_with("🛠 <b>", t.as_str(), "</b>")));
                },
                None => {},
            },
            AcpEvent::ServerRequest(req) => match self.last_chat {
                Some(c) => {
                    let (text, keyboard) = card_for_request(&req);
                    acts.push(Action::Send { chat_id: c, text, keyboard });
                    match req {
                        ServerRequest::Permission { .. } => {
                            self.pending.perm = Some(req);
                        },
                        ServerRequest::AskUser { .. } => {
                            self.pending.opt = Some(req);
                        },
                        ServerRequest::ExitPlan { .. } => {
                            self.pending.plan = Some(req);
                        },
                        ServerRequest::Other { .. } => {
                            self.pending.other = Some(req);
                        },
                    }
                },
                None => {},
            },
            AcpEvent::TurnDone { stop_reason } => match self.last_chat {
                Some(c) => {
                    let body = trim_str(self.agent_buf.as_str());
                    let msg = if body.as_str().is_empty() {
                        text_with("🟢 <b>Turn finished</b>\n<i>", stop_reason.as_str(), "</i>")
                    } else {
                        let clipped = clip_str(body.as_str(), 3500, 3499);
                        text_with("🟢 <b>Gork</b>\n", clipped.as_str(), "")
                    };
                    proof {
                        reveal_strlit("");
                        assert(""@ =~= Seq::<char>::empty());
                    }
                    self.agent_buf = String::new();
                    acts.push(send_action(c, msg));
                },
                None => {},
            },
            AcpEvent::Error(e) => match self.last_chat {
                Some(c) => {
                    acts.push(send_action(c, text_with("❌ Agent: ", e.as_str(), "")));
                    proof {
                        reveal_strlit("");
                        assert(""@ =~= Seq::<char>::empty());
                    }
                },
                None => {},
            },
        }
        assert(actions_view(acts@) =~= step_event(s0, e0).1);
        acts
    }
}

// ---------------------------------------------------------------------
// Telegram updates
// ---------------------------------------------------------------------

/// The answer to a permission request: the chosen option.
pub open spec fn permission_result(option_id: Seq<char>) -> JsonV {
    JsonV::Object(
        seq![
            (
                "outcome"@,
                JsonV::Object(
                    seq![("outcome"@, JsonV::Str("selected"@)), ("optionId"@, JsonV::Str(option_id))],
                ),
            ),
        ],
    )
}

/// The answer to a question: the chosen label under the question.
pub open spec fn answer_result(question: Seq<char>, label: Seq<char>) -> JsonV {
    JsonV::Object(
        seq![
            ("outcome"@, JsonV::Str("accepted"@)),
            ("answers"@, JsonV::Object(seq![(question, JsonV::Array(seq![JsonV::Str(label)]))])),
        ],
    )
}

/// The answer to a plan: approve, quit, or anything else to revise.
pub open spec fn plan_result(action: Seq<char>) -> JsonV {
    if action == "approve"@ {
        JsonV::Object(seq![("outcome"@, JsonV::Str("approved"@))])
    } else if action == "quit"@ {
        JsonV::Object(seq![("outcome"@, JsonV::Str("abandoned"@))])
    } else {
        JsonV::Object(
            seq![
                ("outcome"@, JsonV::Str("cancelled"@)),
                ("feedback"@, JsonV::Str("revise from phone"@)),
            ],
        )
    }
}

/// The label of the option whose id is `id`, or `id` itself when no option
/// has it.
pub open spec fn option_label(options: Seq<(Seq<char>, Seq<char>)>, id: Seq<char>) -> Seq<char>
    decreases options.len(),
{
    if options.len() == 0 {
        id
    } else if options[0].0 == id {
        options[0].1
    } else {
        option_label(options.drop_first(), id)
    }
}

/// What a button press in chat `c` does with callback data `data`:
/// `p:<optionId>` answers the waiting permission request, `q:<id>` the
/// waiting question, `pl:<action>` the waiting plan (each answer empties
/// its slot); `use:<sessionId>` attaches to that session, `new` starts a
/// new one and `sessions` shows the session picker.
pub open spec fn step_callback(s: RemoteV, c: i64, data: Seq<char>) -> (RemoteV, Seq<ActionV>) {
    if "p:"@.is_prefix_of(data) {
        let oid = data.skip(2);
        match s.perm {
            Some(r) => (
                RemoteV { perm: None, ..s },
                seq![
                    ActionV::Respond {
                        chat_id: c,
                        id: r.id(),
                        result: permission_result(oid),
                        done_text: "✅ Permission: <code>"@ + escape(oid) + "</code>"@,
                    },
                ],
            ),
            None => (s, seq![send(c, "No pending permission."@)]),
        }
    } else if "q:"@.is_prefix_of(data) {
        let qid = data.skip(2);
        match s.opt {
            Some(r) => (
                RemoteV { opt: None, ..s },
                match r {
                    RequestV::AskUser { id, question, options } => seq![
                        ActionV::Respond {
                            chat_id: c,
                            id,
                            result: answer_result(question, option_label(options, qid)),
                            done_text: "✅ Answered"@,
                        },
                    ],
                    _ => Seq::empty(),
                },
            ),
            None => (s, Seq::empty()),
        }
    } else if "pl:"@.is_prefix_of(data) {
        let action = data.skip(3);
        match s.plan {
            Some(r) => (
                RemoteV { plan: None, ..s },
                seq![
                    ActionV::Respond {
                        chat_id: c,
                        id: r.id(),
                        result: plan_result(action),
                        done_text: "✅ Plan: <code>"@ + escape(action) + "</code>"@,
                    },
                ],
            ),
            None => (s, Seq::empty()),
        }
    } else if "use:"@.is_prefix_of(data) {
        (s, seq![ActionV::Attach { chat_id: c, session_id: data.skip(4) }])
    } else if data == "new"@ {
        (s, seq![ActionV::NewSession { chat_id: c }])
    } else if data == "sessions"@ {
        (s, seq![ActionV::ListSessions { chat_id: c }])
    } else {
        (s, Seq::empty())
    }
}

/// The notice that free text now goes to the agent.
pub open spec fn live_on_text() -> Seq<char> {
    "🟢 Live on — messages go to the agent."@
}

/// The notice that free text is now parked as notes.
pub open spec fn live_off_text() -> Seq<char> {
    "⏸ Live off — messages are parked as notes. /live to go live again."@
}

/// The notice that a message was parked as note number `n` of the queue.
pub open spec fn parked_text(n: nat) -> Seq<char> {
    "📝 Parked as note #"@ + decimal(n) + ". /drain sends the next note to the agent."@
}

/// The note that parks `text`: id and creation time from `stamp`, the
/// attached session, no media.
pub open spec fn parked_note(
    text: Seq<char>,
    session_id: Option<Seq<char>>,
    stamp: (Seq<char>, Seq<char>),
) -> NoteV {
    NoteV {
        id: stamp.0,
        text,
        session_id,
        created_at: stamp.1,
        media_path: None,
        is_image: false,
    }
}

/// A stamp that a fresh note can carry: a version 4 UUID and a time in
/// decimal Unix seconds.
pub open spec fn stamp_ok(stamp: (Seq<char>, Seq<char>)) -> bool {
    is_uuid_v4_text(stamp.0) && exists|t: u64| stamp.1 == decimal(t as nat)
}

/// What the agent is told of a parked note: its text, or for a saved
/// attachment where it is, with the text as its caption.
pub open spec fn note_prompt(n: NoteV) -> Seq<char> {
    match n.media_path {
        Some(p) => media_prompt(p, n.is_image, n.text),
        None => n.text,
    }
}

/// Draining in chat `c`: the oldest parked note leaves the queue and starts
/// an agent turn (`note_prompt`); with no note parked, the chat is told so.
pub open spec fn drain(s: RemoteV, q: Seq<NoteV>, c: i64) -> (RemoteV, Seq<NoteV>, Seq<ActionV>) {
    match pop_front(q).1 {
        Some(n) => (
            RemoteV { agent_buf: Seq::empty(), ..s },
            pop_front(q).0,
            seq![
                send(c, "📤 Sending the next parked note…"@),
                ActionV::Prompt { chat_id: c, text: note_prompt(n) },
            ],
        ),
        None => (s, q, seq![send(c, "No parked notes."@)]),
    }
}

/// A button press with the notes queue: `drain` drains it, every other
/// press leaves it as it is (`step_callback`).
pub open spec fn step_press(s: RemoteV, q: Seq<NoteV>, c: i64, data: Seq<char>) -> (
    RemoteV,
    Seq<NoteV>,
    Seq<ActionV>,
) {
    if data == "drain"@ {
        drain(s, q, c)
    } else {
        (step_callback(s, c, data).0, q, step_callback(s, c, data).1)
    }
}

/// The refusal sent to a user who is not on the allowlist.
pub open spec fn not_authorized_text(user_id: Option<i64>) -> Seq<char> {
    "⛔ Not authorized.\nYour id: <code>"@ + match user_id {
        Some(u) => signed_decimal(u as int),
        None => "?"@,
    } + "</code>\nAdd to ALLOWED_USER_IDS."@
}

/// The optional text `t`, or the empty text.
pub open spec fn or_empty(t: Option<Seq<char>>) -> Seq<char> {
    match t {
        Some(x) => x,
        None => ""@,
    }
}

/// A character kept in the name of a saved attachment: an ASCII letter or
/// digit, `.`, `-` or `_`.
pub open spec fn name_char(c: char) -> bool {
    ('a' <= c <= 'z') || ('A' <= c <= 'Z') || ('0' <= c <= '9') || c == '.' || c == '-' || c == '_'
}

/// `c` if it may stand in a saved name, else `_`.
pub open spec fn safe_char(c: char) -> char {
    if name_char(c) {
        c
    } else {
        '_'
    }
}

/// A sender's file name made safe: its first 80 characters, each one that
/// may not stand in a saved name replaced by `_`.
pub open spec fn safe_name(n: Seq<char>) -> Seq<char> {
    take_chars(n, 80).map_values(|c: char| safe_char(c))
}

/// The name an attachment is saved under in the media folder:
/// `tg<message id>-photo.jpg` for a photo, `tg<message id>-<file name made
/// safe>` for a file (`file` when it has no name).
pub open spec fn media_file_name(message_id: i64, md: MediaV) -> Seq<char> {
    "tg"@ + signed_decimal(message_id as int) + "-"@ + if md.is_image {
        "photo.jpg"@
    } else {
        match md.file_name {
            Some(n) => if n.len() > 0 {
                safe_name(n)
            } else {
                "file"@
            },
            None => "file"@,
        }
    }
}

proof fn lemma_decimal_is_digits(n: nat)
    ensures
        forall|i: int| 0 <= i < decimal(n).len() ==> '0' <= #[trigger] decimal(n)[i] <= '9',
    decreases n,
{
    if n >= 10 {
        lemma_decimal_is_digits(n / 10);
        let d = decimal(n / 10);
        assert forall|i: int| 0 <= i < decimal(n).len() implies '0' <= #[trigger] decimal(n)[i]
            <= '9' by {
            if i < d.len() {
                assert(decimal(n)[i] == d[i]);
            }
        }
    }
}

/// A saved attachment stays in the media folder: its name starts with
/// `tg` and holds only ASCII letters, digits, `.`, `-` and `_`, so it has
/// no path separator and is neither `.` nor `..`.
pub proof fn lemma_media_name_is_safe(message_id: i64, md: MediaV)
    ensures
        media_file_name(message_id, md).len() > 2,
        media_file_name(message_id, md).take(2) == "tg"@,
        forall|i: int|
            0 <= i < media_file_name(message_id, md).len() ==> name_char(
                #[trigger] media_file_name(message_id, md)[i],
            ),
{
    reveal_strlit("tg");
    reveal_strlit("-");
    reveal_strlit("photo.jpg");
    reveal_strlit("file");
    let m = message_id as int;
    let num = signed_decimal(m);
    if m < 0 {
        lemma_decimal_is_digits((-m) as nat);
    } else {
        lemma_decimal_is_digits(m as nat);
    }
    assert forall|i: int| 0 <= i < num.len() implies name_char(#[trigger] num[i]) by {
        if m < 0 {
            if i > 0 {
                assert(num[i] == decimal((-m) as nat)[i - 1]);
            }
        }
    }
    let tail = if md.is_image {
        "photo.jpg"@
    } else {
        match md.file_name {
            Some(n) => if n.len() > 0 {
                safe_name(n)
            } else {
                "file"@
            },
            None => "file"@,
        }
    };
    assert forall|i: int| 0 <= i < tail.len() implies name_char(#[trigger] tail[i]) by {
        if !md.is_image {
            match md.file_name {
                Some(n) => if n.len() > 0 {
                    assert(tail[i] == safe_char(take_chars(n, 80)[i]));
                },
                None => {},
            }
        }
    }
    let name = "tg"@ + num + "-"@ + tail;
    assert(name == media_file_name(message_id, md));
    assert(name.take(2) =~= "tg"@);
    assert forall|i: int| 0 <= i < name.len() implies name_char(#[trigger] name[i]) by {
        if i < 2 {
        } else if i < 2 + num.len() {
            assert(name[i] == num[i - 2]);
        } else if i == 2 + num.len() {
        } else {
            assert(name[i] == tail[i - 3 - num.len()]);
        }
    }
}

/// What the agent is told of a saved attachment: where it is, and the
/// caption if there is one.
pub open spec fn media_prompt(path: Seq<char>, is_image: bool, caption: Seq<char>) -> Seq<char> {
    (if is_image {
        "The user sent a photo, saved at "@
    } else {
        "The user sent a file, saved at "@
    }) + path + if caption.len() == 0 {
        ""@
    } else {
        "\nCaption: "@ + caption
    }
}

/// What happens once an attachment from chat `c` is saved at `path`: when
/// live, the agent is told where it is; otherwise a note with the caption
/// as its text and the saved path goes to the back of the queue.
pub open spec fn step_media(
    s: RemoteV,
    q: Seq<NoteV>,
    c: i64,
    path: Seq<char>,
    is_image: bool,
    caption: Seq<char>,
    stamp: (Seq<char>, Seq<char>),
) -> (RemoteV, Seq<NoteV>, Seq<ActionV>) {
    if s.live {
        (
            RemoteV { agent_buf: Seq::empty(), ..s },
            q,
            seq![
                send(c, "📎 Saved <code>"@ + escape(path) + "</code> — sent to the agent."@),
                ActionV::Prompt { chat_id: c, text: media_prompt(path, is_image, caption) },
            ],
        )
    } else {
        let q2 = q.push(
            NoteV {
                id: stamp.0,
                text: caption,
                session_id: s.session_id,
                created_at: stamp.1,
                media_path: Some(path),
                is_image,
            },
        );
        (
            s,
            q2,
            seq![
                send(
                    c,
                    "📎 Saved <code>"@ + escape(path) + "</code>, parked as note #"@ + decimal(q2.len())
                        + "."@,
                ),
            ],
        )
    }
}

/// What a message from an authorized user in chat `c` does, with the notes
/// queue `q` and the stamp a parked note would get: a photo or file without
/// text is saved (then `step_media`); `/start`, `/help` and
/// `/home` show the help card; `/live` and `/stop` switch live mode on and
/// off; `/new`, `/sessions` and `/history` ask for a new session, the
/// session picker and the history digest; `/drain` drains the queue; other
/// commands are refused. Any other non-empty text starts an agent turn when
/// live, and is parked at the back of the queue otherwise.
pub open spec fn step_message(
    s: RemoteV,
    q: Seq<NoteV>,
    m: MessageV,
    stamp: (Seq<char>, Seq<char>),
) -> (RemoteV, Seq<NoteV>, Seq<ActionV>) {
    let c = m.chat_id;
    let text = or_empty(m.text);
    if text.len() == 0 {
        match m.media {
            Some(md) => (
                s,
                q,
                seq![
                    ActionV::SaveMedia {
                        chat_id: c,
                        file_id: md.file_id,
                        file_name: media_file_name(m.message_id, md),
                        is_image: md.is_image,
                        caption: or_empty(m.caption),
                    },
                ],
            ),
            None => (s, q, Seq::empty()),
        }
    } else if "/start"@.is_prefix_of(text) || "/help"@.is_prefix_of(text) || "/home"@.is_prefix_of(
        text,
    ) {
        (s, q, seq![ActionV::Help { chat_id: c }])
    } else if "/live"@.is_prefix_of(text) {
        (RemoteV { live: true, ..s }, q, seq![send(c, live_on_text())])
    } else if "/stop"@.is_prefix_of(text) {
        (RemoteV { live: false, ..s }, q, seq![send(c, live_off_text())])
    } else if "/new"@.is_prefix_of(text) {
        (s, q, seq![ActionV::NewSession { chat_id: c }])
    } else if "/sessions"@.is_prefix_of(text) {
        (s, q, seq![ActionV::ListSessions { chat_id: c }])
    } else if "/history"@.is_prefix_of(text) {
        (s, q, seq![ActionV::History { chat_id: c }])
    } else if "/drain"@.is_prefix_of(text) {
        drain(s, q, c)
    } else if "/"@.is_prefix_of(text) {
        (s, q, seq![send(c, "Unknown command. Just type a message for the agent, or /help."@)])
    } else if s.live {
        (
            RemoteV { agent_buf: Seq::empty(), ..s },
            q,
            seq![send(c, "⏳ Working…"@), ActionV::Prompt { chat_id: c, text }],
        )
    } else {
        let q2 = q.push(parked_note(text, s.session_id, stamp));
        (s, q2, seq![send(c, parked_text(q2.len()))])
    }
}

/// What one update does, with the notes queue `q` and the stamp a parked
/// note would get. The offset moves past it. A button press is
/// acknowledged; from someone not on the allowlist it does nothing more,
/// otherwise its chat becomes the last chat and the press is handled. A
/// message from someone not on the allowlist gets a refusal; otherwise its
/// chat becomes the last chat and the message is handled.
pub open spec fn step_update(
    s: RemoteV,
    q: Seq<NoteV>,
    allowed: Seq<i64>,
    u: UpdateV,
    stamp: (Seq<char>, Seq<char>),
) -> (RemoteV, Seq<NoteV>, Seq<ActionV>) {
    let s1 = RemoteV { offset: (u.update_id + 1) as i64, ..s };
    match u.callback {
        Some(cq) => if !authorized(allowed, Some(cq.from)) {
            (s1, q, seq![ActionV::AnswerCallback { callback_id: cq.id, text: "Not authorized"@ }])
        } else {
            let ack = ActionV::AnswerCallback { callback_id: cq.id, text: "OK"@ };
            match cq.chat_id {
                Some(c) => {
                    let (s2, q2, acts) = step_press(
                        RemoteV { last_chat: Some(c), ..s1 },
                        q,
                        c,
                        or_empty(cq.data),
                    );
                    (s2, q2, seq![ack] + acts)
                },
                None => (s1, q, seq![ack]),
            }
        },
        None => match u.message {
            Some(m) => if !authorized(allowed, m.from) {
                (s1, q, seq![send(m.chat_id, not_authorized_text(m.from))])
            } else {
                step_message(RemoteV { last_chat: Some(m.chat_id), ..s1 }, q, m, stamp)
            },
            None => (s1, q, Seq::empty()),
        },
    }
}

fn obj1(k: &str, v: Json) -> (j: Json)
    ensures
        j@ == JsonV::Object(seq![(k@, v@)]),
{
    let m = vec![(owned(k), v)];
    let j = Json::Object(m);
    proof {
        let a = match j@ {
            JsonV::Object(a) => a,
            _ => Seq::empty(),
        };
        assert(a =~= seq![(k@, v@)]);
    }
    j
}

fn obj2(k1: &str, v1: Json, k2: String, v2: Json) -> (j: Json)
    ensures
        j@ == JsonV::Object(seq![(k1@, v1@), (k2@, v2@)]),
{
    let m = vec![(owned(k1), v1), (k2, v2)];
    let j = Json::Object(m);
    proof {
        let a = match j@ {
            JsonV::Object(a) => a,
            _ => Seq::empty(),
        };
        assert(a =~= seq![(k1@, v1@), (k2@, v2@)]);
    }
    j
}

fn jstr(s: &str) -> (j: Json)
    ensures
        j@ == JsonV::Str(s@),
{
    Json::Str(owned(s))
}

fn permission_result_json(option_id: &str) -> (j: Json)
    ensures
        j@ == permission_result(option_id@),
{
    obj1("outcome", obj2("outcome", jstr("selected"), owned("optionId"), jstr(option_id)))
}

fn answer_result_json(question: &str, label: &str) -> (j: Json)
    ensures
        j@ == answer_result(question@, label@),
{
    let arr = Json::Array(vec![jstr(label)]);
    proof {
        let a = match arr@ {
            JsonV::Array(a) => a,
            _ => Seq::empty(),
        };
        assert(a =~= seq![JsonV::Str(label@)]);
    }
    obj2("outcome", jstr("accepted"), owned("answers"), obj1(question, arr))
}

fn plan_result_json(action: &str) -> (j: Json)
    ensures
        j@ == plan_result(action@),
{
    if str_eq(action, "approve") {
        obj1("outcome", jstr("approved"))
    } else if str_eq(action, "quit") {
        obj1("outcome", jstr("abandoned"))
    } else {
        obj2("outcome", jstr("cancelled"), owned("feedback"), jstr("revise from phone"))
    }
}

fn find_label(options: &Vec<(String, String)>, id: &str) -> (l: String)
    ensures
        l@ == option_label(pairs_view(options@), id@),
{
    let ghost ov = pairs_view(options@);
    let mut i: usize = 0;
    assert(ov.skip(0) =~= ov);
    while i < options.len()
        invariant
            ov == pairs_view(options@),
            0 <= i <= options@.len(),
            option_label(ov, id@) == option_label(ov.skip(i as int), id@),
        decreases options@.len() - i,
    {
        assert(ov.skip(i as int)[0] == ov[i as int]);
        assert(ov.skip(i as int).drop_first() =~= ov.skip(i + 1));
        if str_eq(options[i].0.as_str(), id) {
            return options[i].1.clone();
        }
        i = i + 1;
    }
    owned(id)
}

/// The JSON-RPC id of a request, moved out of it.
fn request_id(r: ServerRequest) -> (id: Json)
    ensures
        id@ == r@.id(),
{
    match r {
        ServerRequest::Permission { id, .. } => id,
        ServerRequest::AskUser { id, .. } => id,
        ServerRequest::ExitPlan { id, .. } => id,
        ServerRequest::Other { id, .. } => id,
    }
}

fn is_name_char(c: char) -> (r: bool)
    ensures
        r == name_char(c),
{
    ('a' <= c && c <= 'z') || ('A' <= c && c <= 'Z') || ('0' <= c && c <= '9') || c == '.' || c
        == '-' || c == '_'
}

fn safe_file_name(n: &str) -> (out: String)
    ensures
        out@ == safe_name(n@),
{
    let head = first_chars(n, 80);
    let cs = crate::text::chars_of(head.as_str());
    let ghost f = |c: char| safe_char(c);
    let mut out = String::new();
    let mut i: usize = 0;
    while i < cs.len()
        invariant
            cs@ == take_chars(n@, 80),
            0 <= i <= cs@.len(),
            out@ == cs@.take(i as int).map_values(f),
            f == (|c: char| safe_char(c)),
        decreases cs@.len() - i,
    {
        let c = cs[i];
        let k = if is_name_char(c) {
            c
        } else {
            '_'
        };
        crate::text::push_char(&mut out, k);
        assert(cs@.take(i + 1).map_values(f) =~= cs@.take(i as int).map_values(f).push(f(c)));
        i = i + 1;
    }
    assert(cs@.take(cs@.len() as int) =~= cs@);
    out
}

/// What the agent is told of a saved attachment (`media_prompt`).
fn media_prompt_text(path: &str, is_image: bool, caption: &str) -> (out: String)
    ensures
        out@ == media_prompt(path@, is_image, caption@),
{
    let mut prompt = if is_image {
        owned("The user sent a photo, saved at ")
    } else {
        owned("The user sent a file, saved at ")
    };
    push_str(&mut prompt, path);
    let ghost head = prompt@;
    if !caption.is_empty() {
        push_str(&mut prompt, "\nCaption: ");
        push_str(&mut prompt, caption);
        assert(prompt@ =~= head + ("\nCaption: "@ + caption@));
    } else {
        proof {
            reveal_strlit("");
            assert(head + ""@ =~= head);
        }
    }
    prompt
}

/// The name an attachment is saved under (`media_file_name`).
pub fn media_file_name_of(message_id: i64, md: &Media) -> (out: String)
    ensures
        out@ == media_file_name(message_id, md@),
{
    let mut out = owned("tg");
    let d = i64_to_decimal(message_id);
    push_str(&mut out, d.as_str());
    push_str(&mut out, "-");
    if md.is_image {
        push_str(&mut out, "photo.jpg");
    } else {
        match &md.file_name {
            Some(n) => {
                if n.as_str().is_empty() {
                    push_str(&mut out, "file");
                } else {
                    let safe = safe_file_name(n.as_str());
                    push_str(&mut out, safe.as_str());
                }
            },
            None => push_str(&mut out, "file"),
        }
    }
    out
}

impl RemoteState {
    fn on_callback(&mut self, c: i64, data: &str) -> (acts: Vec<Action>)
        ensures
            (final(self)@, actions_view(acts@)) == step_callback(old(self)@, c, data@),
    {
        let ghost s0 = self@;
        let mut acts: Vec<Action> = Vec::new();
        match strip_prefix(data, "p:") {
            Some(oid) => {
                proof {
                    reveal_strlit("p:");
                }
                match self.pending.perm.take() {
                    Some(r) => {
                        let result = permission_result_json(oid.as_str());
                        let done_text = text_with("✅ Permission: <code>", oid.as_str(), "</code>");
                        let id = request_id(r);
                        acts.push(Action::Respond { chat_id: c, id, result, done_text });
                    },
                    None => {
                        acts.push(send_action(c, owned("No pending permission.")));
                    },
                }
                assert(actions_view(acts@) =~= step_callback(s0, c, data@).1);
                return acts;
            },
            None => {},
        }
        match strip_prefix(data, "q:") {
            Some(qid) => {
                proof {
                    reveal_strlit("q:");
                }
                match self.pending.opt.take() {
                    Some(r) => match r {
                        ServerRequest::AskUser { id, question, options } => {
                            let label = find_label(&options, qid.as_str());
                            let result = answer_result_json(question.as_str(), label.as_str());
                            acts.push(
                                Action::Respond { chat_id: c, id, result, done_text: owned("✅ Answered") },
                            );
                        },
                        _ => {},
                    },
                    None => {},
                }
                assert(actions_view(acts@) =~= step_callback(s0, c, data@).1);
                return acts;
            },
            None => {},
        }
        match strip_prefix(data, "pl:") {
            Some(action) => {
                proof {
                    reveal_strlit("pl:");
                }
                match self.pending.plan.take() {
                    Some(r) => {
                        let result = plan_result_json(action.as_str());
                        let done_text = text_with("✅ Plan: <code>", action.as_str(), "</code>");
                        let id = request_id(r);
                        acts.push(Action::Respond { chat_id: c, id, result, done_text });
                    },
                    None => {},
                }
                assert(actions_view(acts@) =~= step_callback(s0, c, data@).1);
                return acts;
            },
            None => {},
        }
        match strip_prefix(data, "use:") {
            Some(sid) => {
                proof {
                    reveal_strlit("use:");
                }
                acts.push(Action::Attach { chat_id: c, session_id: sid });
                assert(actions_view(acts@) =~= step_callback(s0, c, data@).1);
                return acts;
            },
            None => {},
        }
        if str_eq(data, "new") {
            acts.push(Action::NewSession { chat_id: c });
        } else if str_eq(data, "sessions") {
            acts.push(Action::ListSessions { chat_id: c });
        }
        assert(actions_view(acts@) =~= step_callback(s0, c, data@).1);
        acts
    }

    fn on_drain(&mut self, notes: &mut NoteQueue, c: i64) -> (acts: Vec<Action>)
        ensures
            (final(self)@, final(notes)@, actions_view(acts@)) == drain(old(self)@, old(notes)@, c),
    {
        let ghost s0 = self@;
        let ghost q0 = notes@;
        let mut acts: Vec<Action> = Vec::new();
        match notes.pop_next() {
            Some(n) => {
                self.agent_buf = String::new();
                acts.push(send_action(c, owned("📤 Sending the next parked note…")));
                let text = match &n.media_path {
                    Some(p) => media_prompt_text(p.as_str(), n.is_image, n.text.as_str()),
                    None => n.text,
                };
                acts.push(Action::Prompt { chat_id: c, text });
            },
            None => {
                acts.push(send_action(c, owned("No parked notes.")));
            },
        }
        assert(actions_view(acts@) =~= drain(s0, q0, c).2);
        acts
    }

    fn on_press(&mut self, notes: &mut NoteQueue, c: i64, data: &str) -> (acts: Vec<Action>)
        ensures
            (final(self)@, final(notes)@, actions_view(acts@)) == step_press(
                old(self)@,
                old(notes)@,
                c,
                data@,
            ),
    {
        if str_eq(data, "drain") {
            self.on_drain(notes, c)
        } else {
            self.on_callback(c, data)
        }
    }

    fn on_message(
        &mut self,
        notes: &mut NoteQueue,
        m: &crate::telegram::Message,
        note_id: String,
        created_at: String,
    ) -> (acts: Vec<Action>)
        ensures
            (final(self)@, final(notes)@, actions_view(acts@)) == step_message(
                old(self)@,
                old(notes)@,
                m@,
                (note_id@, created_at@),
            ),
    {
        let ghost s0 = self@;
        let ghost q0 = notes@;
        let ghost stamp = (note_id@, created_at@);
        let c = m.chat.id;
        let text = match &m.text {
            Some(t) => t.clone(),
            None => owned(""),
        };
        let mut acts: Vec<Action> = Vec::new();
        if text.as_str().is_empty() {
            match message_media(m) {
                Some(md) => {
                    let file_name = media_file_name_of(m.message_id, &md);
                    let caption = match &m.caption {
                        Some(t) => t.clone(),
                        None => owned(""),
                    };
                    acts.push(
                        Action::SaveMedia {
                            chat_id: c,
                            file_id: md.file_id,
                            file_name,
                            is_image: md.is_image,
                            caption,
                        },
                    );
                },
                None => {},
            }
            assert(actions_view(acts@) =~= step_message(s0, q0, m@, stamp).2);
            return acts;
        }
        let t = text.as_str();
        if starts_with(t, "/start") || starts_with(t, "/help") || starts_with(t, "/home") {
            acts.push(Action::Help { chat_id: c });
        } else if starts_with(t, "/live") {
            self.live = true;
            acts.push(send_action(c, owned("🟢 Live on — messages go to the agent.")));
        } else if starts_with(t, "/stop") {
            self.live = false;
            acts.push(
                send_action(
                    c,
                    owned("⏸ Live off — messages are parked as notes. /live to go live again."),
                ),
            );
        } else if starts_with(t, "/new") {
            acts.push(Action::NewSession { chat_id: c });
        } else if starts_with(t, "/sessions") {
            acts.push(Action::ListSessions { chat_id: c });
        } else if starts_with(t, "/history") {
            acts.push(Action::History { chat_id: c });
        } else if starts_with(t, "/drain") {
            return self.on_drain(notes, c);
        } else if starts_with(t, "/") {
            acts.push(
                send_action(c, owned("Unknown command. Just type a message for the agent, or /help.")),
            );
        } else if self.live {
            self.agent_buf = String::new();
            acts.push(send_action(c, owned("⏳ Working…")));
            acts.push(Action::Prompt { chat_id: c, text });
        } else {
            let sid = match &self.session_id {
                Some(x) => Some(x.clone()),
                None => None,
            };
            let _note = notes.push_note(note_id, text, sid, created_at, None, false);
            let count = notes.count();
            let mut msg = owned("📝 Parked as note #");
            let d = u64_to_decimal(count as u64);
            push_str(&mut msg, d.as_str());
            push_str(&mut msg, ". /drain sends the next note to the agent.");
            acts.push(send_action(c, msg));
        }
        assert(actions_view(acts@) =~= step_message(s0, q0, m@, stamp).2);
        acts
    }

    /// Handles an attachment from chat `chat_id` saved at `path`; when it is
    /// parked, the note gets the id `note_id` and the creation time
    /// `created_at`.
    pub fn on_media_saved_at(
        &mut self,
        notes: &mut NoteQueue,
        chat_id: i64,
        path: String,
        is_image: bool,
        caption: String,
        note_id: String,
        created_at: String,
    ) -> (acts: Vec<Action>)
        ensures
            (final(self)@, final(notes)@, actions_view(acts@)) == step_media(
                old(self)@,
                old(notes)@,
                chat_id,
                path@,
                is_image,
                caption@,
                (note_id@, created_at@),
            ),
    {
        let ghost s0 = self@;
        let ghost q0 = notes@;
        let ghost stamp = (note_id@, created_at@);
        let mut acts: Vec<Action> = Vec::new();
        if self.live {
            self.agent_buf = String::new();
            acts.push(send_action(chat_id, text_with("📎 Saved <code>", path.as_str(), "</code> — sent to the agent.")));
            let prompt = media_prompt_text(path.as_str(), is_image, caption.as_str());
            acts.push(Action::Prompt { chat_id, text: prompt });
        } else {
            let sid = match &self.session_id {
                Some(x) => Some(x.clone()),
                None => None,
            };
            let mut msg = text_with("📎 Saved <code>", path.as_str(), "</code>, parked as note #");
            let _note = notes.push_note(note_id, caption, sid, created_at, Some(path), is_image);
            let d = u64_to_decimal(notes.count() as u64);
            push_str(&mut msg, d.as_str());
            push_str(&mut msg, ".");
            acts.push(send_action(chat_id, msg));
        }
        assert(actions_view(acts@) =~= step_media(s0, q0, chat_id, path@, is_image, caption@, stamp).2);
        acts
    }

    /// Handles an attachment saved at `path`; a parked note gets a fresh
    /// UUID and the current time.
    pub fn on_media_saved(
        &mut self,
        notes: &mut NoteQueue,
        chat_id: i64,
        path: String,
        is_image: bool,
        caption: String,
    ) -> (acts: Vec<Action>)
        ensures
            exists|stamp: (Seq<char>, Seq<char>)|
                stamp_ok(stamp) && (final(self)@, final(notes)@, actions_view(acts@)) == step_media(
                    old(self)@,
                    old(notes)@,
                    chat_id,
                    path@,
                    is_image,
                    caption@,
                    stamp,
                ),
    {
        let note_id = fresh_note_id();
        let created_at = chrono_lite_now();
        let ghost stamp = (note_id@, created_at@);
        let acts = self.on_media_saved_at(notes, chat_id, path, is_image, caption, note_id, created_at);
        assert(stamp_ok(stamp));
        acts
    }

    /// Handles one Telegram update; a message parked as a note gets the id
    /// `note_id` and the creation time `created_at`.
    pub fn on_update_at(
        &mut self,
        auth: &AuthPolicy,
        notes: &mut NoteQueue,
        u: Update,
        note_id: String,
        created_at: String,
    ) -> (acts: Vec<Action>)
        requires
            u.update_id < i64::MAX,
        ensures
            (final(self)@, final(notes)@, actions_view(acts@)) == step_update(
                old(self)@,
                old(notes)@,
                auth@,
                u@,
                (note_id@, created_at@),
            ),
    {
        let ghost s0 = self@;
        let ghost q0 = notes@;
        let ghost uv = u@;
        let ghost stamp = (note_id@, created_at@);
        self.offset = u.update_id + 1;
        let mut acts: Vec<Action> = Vec::new();
        match u.callback_query {
            Some(cq) => {
                if !auth.authorize(Some(cq.from.id)) {
                    acts.push(Action::AnswerCallback { callback_id: cq.id, text: owned("Not authorized") });
                    assert(actions_view(acts@) =~= step_update(s0, q0, auth@, uv, stamp).2);
                    return acts;
                }
                let chat = match &cq.message {
                    Some(m) => Some(m.chat.id),
                    None => None,
                };
                let data = match &cq.data {
                    Some(d) => d.clone(),
                    None => owned(""),
                };
                acts.push(Action::AnswerCallback { callback_id: cq.id, text: owned("OK") });
                match chat {
                    Some(c) => {
                        self.last_chat = Some(c);
                        let mut more = self.on_press(notes, c, data.as_str());
                        acts.append(&mut more);
                    },
                    None => {},
                }
                assert(actions_view(acts@) =~= step_update(s0, q0, auth@, uv, stamp).2);
                acts
            },
            None => match u.message {
                Some(m) => {
                    let uid = match &m.from {
                        Some(user) => Some(user.id),
                        None => None,
                    };
                    if !auth.authorize(uid) {
                        let mut t = owned("⛔ Not authorized.\nYour id: <code>");
                        match uid {
                            Some(i) => {
                                let d = i64_to_decimal(i);
                                push_str(&mut t, d.as_str());
                            },
                            None => push_str(&mut t, "?"),
                        }
                        push_str(&mut t, "</code>\nAdd to ALLOWED_USER_IDS.");
                        acts.push(send_action(m.chat.id, t));
                        assert(actions_view(acts@) =~= step_update(s0, q0, auth@, uv, stamp).2);
                        return acts;
                    }
                    self.last_chat = Some(m.chat.id);
                    self.on_message(notes, &m, note_id, created_at)
                },
                None => {
                    assert(actions_view(acts@) =~= step_update(s0, q0, auth@, uv, stamp).2);
                    acts
                },
            },
        }
    }

    /// Handles one Telegram update; a message parked as a note gets a fresh
    /// UUID and the current time.
    pub fn on_update(&mut self, auth: &AuthPolicy, notes: &mut NoteQueue, u: Update) -> (acts: Vec<
        Action,
    >)
        requires
            u.update_id < i64::MAX,
        ensures
            exists|stamp: (Seq<char>, Seq<char>)|
                stamp_ok(stamp) && (final(self)@, final(notes)@, actions_view(acts@))
                    == step_update(old(self)@, old(notes)@, auth@, u@, stamp),
    {
        let note_id = fresh_note_id();
        let created_at = chrono_lite_now();
        let ghost stamp = (note_id@, created_at@);
        let acts = self.on_update_at(auth, notes, u, note_id, created_at);
        assert(stamp_ok(stamp));
        acts
    }
}

// ---------------------------------------------------------------------
// Laws
// ---------------------------------------------------------------------

/// The action is one that reaches the agent: a prompt, an answer, or a
/// session to attach or start.
pub open spec fn reaches_agent(a: ActionV) -> bool {
    a is Prompt || a is Respond || a is Attach || a is NewSession
}

/// The update comes from someone not on the allowlist.
pub open spec fn from_stranger(allowed: Seq<i64>, u: UpdateV) -> bool {
    match u.callback {
        Some(cq) => !authorized(allowed, Some(cq.from)),
        None => match u.message {
            Some(m) => !authorized(allowed, m.from),
            None => true,
        },
    }
}

/// Fail-closed: an update from someone not on the allowlist never reaches
/// the agent, leaves the notes queue as it is and changes nothing but the
/// offset.
pub proof fn lemma_unauthorized_update_is_inert(
    s: RemoteV,
    q: Seq<NoteV>,
    allowed: Seq<i64>,
    u: UpdateV,
    stamp: (Seq<char>, Seq<char>),
)
    requires
        from_stranger(allowed, u),
    ensures
        step_update(s, q, allowed, u, stamp).0 == (RemoteV { offset: (u.update_id + 1) as i64, ..s }),
        step_update(s, q, allowed, u, stamp).1 == q,
        forall|i: int|
            0 <= i < step_update(s, q, allowed, u, stamp).2.len() ==> !reaches_agent(
                #[trigger] step_update(s, q, allowed, u, stamp).2[i],
            ),
{
}

/// Every update moves the offset past itself.
pub proof fn lemma_offset_advances(
    s: RemoteV,
    q: Seq<NoteV>,
    allowed: Seq<i64>,
    u: UpdateV,
    stamp: (Seq<char>, Seq<char>),
)
    ensures
        step_update(s, q, allowed, u, stamp).0.offset == (u.update_id + 1) as i64,
{
}

/// Only updates move the offset: an agent event leaves it as it is, so a
/// poll that failed is retried from the same offset.
pub proof fn lemma_events_keep_offset(s: RemoteV, e: EventV)
    ensures
        step_event(s, e).0.offset == s.offset,
{
}

/// An answer to the agent comes only from a button press by someone on the
/// allowlist; messages and agent events never answer a request.
pub proof fn lemma_answers_need_authorized_press(
    s: RemoteV,
    q: Seq<NoteV>,
    allowed: Seq<i64>,
    u: UpdateV,
    stamp: (Seq<char>, Seq<char>),
    e: EventV,
)
    ensures
        (exists|i: int|
            0 <= i < step_update(s, q, allowed, u, stamp).2.len()
                && #[trigger] step_update(s, q, allowed, u, stamp).2[i] is Respond) ==> (
        u.callback matches Some(cq) && authorized(allowed, Some(cq.from))),
        forall|i: int|
            0 <= i < step_event(s, e).1.len() ==> !reaches_agent(#[trigger] step_event(s, e).1[i]),
{
    if exists|i: int|
        0 <= i < step_update(s, q, allowed, u, stamp).2.len()
            && #[trigger] step_update(s, q, allowed, u, stamp).2[i] is Respond {
        let i = choose|i: int|
            0 <= i < step_update(s, q, allowed, u, stamp).2.len()
                && #[trigger] step_update(s, q, allowed, u, stamp).2[i] is Respond;
        if u.callback is None {
            match u.message {
                Some(m) => {
                    if authorized(allowed, m.from) {
                        let s1 = RemoteV {
                            offset: (u.update_id + 1) as i64,
                            last_chat: Some(m.chat_id),
                            ..s
                        };
                        assert(step_update(s, q, allowed, u, stamp) == step_message(s1, q, m, stamp));
                    }
                },
                None => {},
            }
        }
    }
}

proof fn lemma_slash_prefix(p: Seq<char>, t: Seq<char>)
    requires
        p.len() > 0,
        p[0] == '/',
        p.is_prefix_of(t),
    ensures
        "/"@.is_prefix_of(t),
{
    reveal_strlit("/");
    assert(t.take(1) =~= "/"@) by {
        assert(t[0] == p[0]);
    }
}

/// A text that is not a command starts with none of the command words.
proof fn lemma_plain_text_is_no_command(t: Seq<char>)
    requires
        !"/"@.is_prefix_of(t),
    ensures
        !"/start"@.is_prefix_of(t),
        !"/help"@.is_prefix_of(t),
        !"/home"@.is_prefix_of(t),
        !"/live"@.is_prefix_of(t),
        !"/stop"@.is_prefix_of(t),
        !"/new"@.is_prefix_of(t),
        !"/sessions"@.is_prefix_of(t),
        !"/history"@.is_prefix_of(t),
        !"/drain"@.is_prefix_of(t),
{
    reveal_strlit("/start");
    reveal_strlit("/help");
    reveal_strlit("/home");
    reveal_strlit("/live");
    reveal_strlit("/stop");
    reveal_strlit("/new");
    reveal_strlit("/sessions");
    reveal_strlit("/history");
    reveal_strlit("/drain");
    if "/start"@.is_prefix_of(t) {
        lemma_slash_prefix("/start"@, t);
    }
    if "/help"@.is_prefix_of(t) {
        lemma_slash_prefix("/help"@, t);
    }
    if "/home"@.is_prefix_of(t) {
        lemma_slash_prefix("/home"@, t);
    }
    if "/live"@.is_prefix_of(t) {
        lemma_slash_prefix("/live"@, t);
    }
    if "/stop"@.is_prefix_of(t) {
        lemma_slash_prefix("/stop"@, t);
    }
    if "/new"@.is_prefix_of(t) {
        lemma_slash_prefix("/new"@, t);
    }
    if "/sessions"@.is_prefix_of(t) {
        lemma_slash_prefix("/sessions"@, t);
    }
    if "/history"@.is_prefix_of(t) {
        lemma_slash_prefix("/history"@, t);
    }
    if "/drain"@.is_prefix_of(t) {
        lemma_slash_prefix("/drain"@, t);
    }
}

/// Plain text from an authorized user (not empty, not a command) starts an
/// agent turn when live and leaves the notes queue as it is; when live is
/// off it is parked at the back of the queue, with the attached session,
/// and nothing reaches the agent.
pub proof fn lemma_plain_text_routing(
    s: RemoteV,
    q: Seq<NoteV>,
    m: MessageV,
    stamp: (Seq<char>, Seq<char>),
)
    requires
        m.text matches Some(t) && t.len() > 0 && !"/"@.is_prefix_of(t),
    ensures
        s.live ==> step_message(s, q, m, stamp).1 == q && step_message(s, q, m, stamp).2 == seq![
            send(m.chat_id, "⏳ Working…"@),
            ActionV::Prompt { chat_id: m.chat_id, text: m.text->0 },
        ],
        !s.live ==> step_message(s, q, m, stamp) == (
            s,
            q.push(parked_note(m.text->0, s.session_id, stamp)),
            seq![send(m.chat_id, parked_text(q.len() + 1))],
        ),
        forall|i: int|
            0 <= i < step_message(s, q, m, stamp).2.len() && !s.live ==> !reaches_agent(
                #[trigger] step_message(s, q, m, stamp).2[i],
            ),
{
    lemma_plain_text_is_no_command(m.text->0);
}

/// After `/stop`, plain text is parked, not sent; after `/live` it goes to
/// the agent again.
pub proof fn lemma_stop_parks_live_sends(
    s: RemoteV,
    q: Seq<NoteV>,
    cmd: MessageV,
    m: MessageV,
    stamp: (Seq<char>, Seq<char>),
)
    requires
        cmd.text == Some("/stop"@) || cmd.text == Some("/live"@),
        m.text matches Some(t) && t.len() > 0 && !"/"@.is_prefix_of(t),
    ensures
        ({
            let (s1, q1, _a1) = step_message(s, q, cmd, stamp);
            let (_s2, q2, a2) = step_message(s1, q1, m, stamp);
            &&& q1 == q
            &&& cmd.text == Some("/stop"@) ==> q2 == q.push(parked_note(m.text->0, s.session_id, stamp))
                && forall|i: int| 0 <= i < a2.len() ==> !reaches_agent(#[trigger] a2[i])
            &&& cmd.text == Some("/live"@) ==> q2 == q && a2.last() == ActionV::Prompt {
                chat_id: m.chat_id,
                text: m.text->0,
            }
        }),
{
    reveal_strlit("/stop");
    reveal_strlit("/live");
    reveal_strlit("/start");
    reveal_strlit("/help");
    reveal_strlit("/home");
    let t = cmd.text->0;
    assert(!"/start"@.is_prefix_of(t)) by {
        if "/start"@.is_prefix_of(t) {
            assert(t[3] == "/start"@[3]);
        }
    }
    assert(!"/help"@.is_prefix_of(t)) by {
        if "/help"@.is_prefix_of(t) {
            assert(t[1] == "/help"@[1]);
        }
    }
    assert(!"/home"@.is_prefix_of(t)) by {
        if "/home"@.is_prefix_of(t) {
            assert(t[1] == "/home"@[1]);
        }
    }
    if cmd.text == Some("/stop"@) {
        assert(!"/live"@.is_prefix_of(t)) by {
            assert(t[1] == "/stop"@[1]);
        }
        assert("/stop"@.is_prefix_of(t)) by {
            assert(t.take(5) =~= t);
        }
    } else {
        assert("/live"@.is_prefix_of(t)) by {
            assert(t.take(5) =~= t);
        }
    }
    let (s1, q1, _a1) = step_message(s, q, cmd, stamp);
    lemma_plain_text_routing(s1, q1, m, stamp);
}

/// Draining after parking is first in, first out: the agent gets the
/// oldest parked note (the one just parked when the queue was empty), and
/// the others stay in order.
pub proof fn lemma_park_then_drain(s: RemoteV, q: Seq<NoteV>, c: i64, n: NoteV)
    ensures
        drain(s, q.push(n), c).2 == seq![
            send(c, "📤 Sending the next parked note…"@),
            ActionV::Prompt {
                chat_id: c,
                text: note_prompt(if q.len() == 0 { n } else { q[0] }),
            },
        ],
        drain(s, q.push(n), c).1 == (if q.len() == 0 {
            Seq::<NoteV>::empty()
        } else {
            q.drop_first().push(n)
        }),
{
    crate::notes::lemma_queue_fifo(q, n);
}

/// What a run of updates does, one after the other, each with its stamp:
/// the final state and queue, and all the actions in order.
pub open spec fn run_updates(
    s: RemoteV,
    q: Seq<NoteV>,
    allowed: Seq<i64>,
    us: Seq<UpdateV>,
    stamps: Seq<(Seq<char>, Seq<char>)>,
) -> (RemoteV, Seq<NoteV>, Seq<ActionV>)
    decreases us.len(),
{
    if us.len() == 0 {
        (s, q, Seq::empty())
    } else {
        let r1 = step_update(s, q, allowed, us[0], stamps[0]);
        let r2 = run_updates(r1.0, r1.1, allowed, us.drop_first(), stamps.drop_first());
        (r2.0, r2.1, r1.2 + r2.2)
    }
}

/// Fail-closed over a whole run: updates that all come from strangers
/// reach no agent, leave the notes queue as it is, and change nothing but
/// the offset, which ends past the last of them.
pub proof fn lemma_strangers_run_is_inert(
    s: RemoteV,
    q: Seq<NoteV>,
    allowed: Seq<i64>,
    us: Seq<UpdateV>,
    stamps: Seq<(Seq<char>, Seq<char>)>,
)
    requires
        forall|i: int| 0 <= i < us.len() ==> from_stranger(allowed, #[trigger] us[i]),
    ensures
        run_updates(s, q, allowed, us, stamps).0 == (if us.len() == 0 {
            s
        } else {
            RemoteV { offset: (us.last().update_id + 1) as i64, ..s }
        }),
        run_updates(s, q, allowed, us, stamps).1 == q,
        forall|i: int|
            0 <= i < run_updates(s, q, allowed, us, stamps).2.len() ==> !reaches_agent(
                #[trigger] run_updates(s, q, allowed, us, stamps).2[i],
            ),
    decreases us.len(),
{
    if us.len() > 0 {
        lemma_unauthorized_update_is_inert(s, q, allowed, us[0], stamps[0]);
        let r1 = step_update(s, q, allowed, us[0], stamps[0]);
        let rest = us.drop_first();
        assert forall|i: int| 0 <= i < rest.len() implies from_stranger(allowed, #[trigger] rest[i]) by {
            assert(rest[i] == us[i + 1]);
        }
        lemma_strangers_run_is_inert(r1.0, r1.1, allowed, rest, stamps.drop_first());
        let r2 = run_updates(r1.0, r1.1, allowed, rest, stamps.drop_first());
        if rest.len() > 0 {
            assert(rest.last() == us.last());
        }
        assert forall|i: int| 0 <= i < (r1.2 + r2.2).len() implies !reaches_agent(
            #[trigger] (r1.2 + r2.2)[i],
        ) by {
            if i < r1.2.len() {
                assert((r1.2 + r2.2)[i] == r1.2[i]);
            } else {
                assert((r1.2 + r2.2)[i] == r2.2[i - r1.2.len()]);
            }
        }
    }
}

/// Over a run of updates the offset ends one past the last update's id, so
/// no handled update is asked for again.
pub proof fn lemma_run_offset(
    s: RemoteV,
    q: Seq<NoteV>,
    allowed: Seq<i64>,
    us: Seq<UpdateV>,
    stamps: Seq<(Seq<char>, Seq<char>)>,
)
    requires
        us.len() > 0,
    ensures
        run_updates(s, q, allowed, us, stamps).0.offset == (us.last().update_id + 1) as i64,
    decreases us.len(),
{
    let r1 = step_update(s, q, allowed, us[0], stamps[0]);
    lemma_offset_advances(s, q, allowed, us[0], stamps[0]);
    if us.len() > 1 {
        lemma_run_offset(r1.0, r1.1, allowed, us.drop_first(), stamps.drop_first());
        assert(us.drop_first().last() == us.last());
    } else {
        assert(us.drop_first().len() == 0);
        assert(run_updates(r1.0, r1.1, allowed, us.drop_first(), stamps.drop_first()).0 == r1.0);
        assert(us.last() == us[0]);
    }
}

/// The action answers the agent's request `id`.
pub open spec fn answers(a: ActionV, id: JsonV) -> bool {
    a matches ActionV::Respond { id: i, .. } && i == id
}

/// How many of the actions answer the agent's request `id`.
pub open spec fn answer_count(acts: Seq<ActionV>, id: JsonV) -> nat
    decreases acts.len(),
{
    if acts.len() == 0 {
        0
    } else {
        answer_count(acts.drop_last(), id) + if answers(acts.last(), id) {
            1nat
        } else {
            0nat
        }
    }
}

/// Whether the slot holds a request with id `id` (1) or not (0).
pub open spec fn held(r: Option<RequestV>, id: JsonV) -> nat {
    match r {
        Some(x) => if x.id() == id {
            1nat
        } else {
            0nat
        },
        None => 0nat,
    }
}

/// How many of the answerable slots (permission, question, plan) hold a
/// request with id `id`.
pub open spec fn waiting_with(s: RemoteV, id: JsonV) -> nat {
    held(s.perm, id) + held(s.opt, id) + held(s.plan, id)
}

proof fn lemma_answer_count_concat(a: Seq<ActionV>, b: Seq<ActionV>, id: JsonV)
    ensures
        answer_count(a + b, id) == answer_count(a, id) + answer_count(b, id),
    decreases b.len(),
{
    if b.len() == 0 {
        assert(a + b =~= a);
    } else {
        lemma_answer_count_concat(a, b.drop_last(), id);
        assert((a + b).drop_last() =~= a + b.drop_last());
        assert((a + b).last() == b.last());
    }
}

proof fn lemma_answer_count_none(acts: Seq<ActionV>, id: JsonV)
    requires
        forall|i: int| 0 <= i < acts.len() ==> !(#[trigger] acts[i] is Respond),
    ensures
        answer_count(acts, id) == 0,
    decreases acts.len(),
{
    if acts.len() > 0 {
        assert forall|i: int| 0 <= i < acts.drop_last().len() implies !(
        #[trigger] acts.drop_last()[i] is Respond) by {
            assert(acts.drop_last()[i] == acts[i]);
        }
        lemma_answer_count_none(acts.drop_last(), id);
        assert(!(acts[acts.len() - 1] is Respond));
    }
}

proof fn lemma_answer_count_one(a: ActionV, id: JsonV)
    ensures
        answer_count(seq![a], id) == (if answers(a, id) {
            1nat
        } else {
            0nat
        }),
{
    reveal_with_fuel(answer_count, 2);
    assert(seq![a].drop_last() =~= Seq::<ActionV>::empty());
    assert(seq![a].last() == a);
}

/// One update answers a request at most as often as it empties a slot
/// holding it; it never fills a slot.
proof fn lemma_step_answers(
    s: RemoteV,
    q: Seq<NoteV>,
    allowed: Seq<i64>,
    u: UpdateV,
    stamp: (Seq<char>, Seq<char>),
    id: JsonV,
)
    ensures
        answer_count(step_update(s, q, allowed, u, stamp).2, id) + waiting_with(
            step_update(s, q, allowed, u, stamp).0,
            id,
        ) <= waiting_with(s, id),
{
    let r = step_update(s, q, allowed, u, stamp);
    let s1 = RemoteV { offset: (u.update_id + 1) as i64, ..s };
    match u.callback {
        Some(cq) => if !authorized(allowed, Some(cq.from)) {
            lemma_answer_count_none(r.2, id);
        } else {
            let ack = ActionV::AnswerCallback { callback_id: cq.id, text: "OK"@ };
            match cq.chat_id {
                Some(c) => {
                    let s2 = RemoteV { last_chat: Some(c), ..s1 };
                    let data = or_empty(cq.data);
                    let p = step_press(s2, q, c, data);
                    assert(r.2 == seq![ack] + p.2);
                    lemma_answer_count_concat(seq![ack], p.2, id);
                    lemma_answer_count_one(ack, id);
                    if data == "drain"@ {
                        lemma_answer_count_none(p.2, id);
                    } else {
                        let cb = step_callback(s2, c, data);
                        if cb.1.len() == 1 {
                            lemma_answer_count_one(cb.1[0], id);
                            assert(cb.1 =~= seq![cb.1[0]]);
                        } else {
                            lemma_answer_count_none(cb.1, id);
                        }
                    }
                },
                None => {
                    lemma_answer_count_one(ack, id);
                },
            }
        },
        None => match u.message {
            Some(m) => {
                lemma_answer_count_none(r.2, id);
            },
            None => {},
        },
    }
}

/// Each waiting request is answered at most once over any run of updates:
/// the answers carrying an id never outnumber the permission, question and
/// plan slots that held a request with that id when the run began (updates
/// only empty slots, and each answer empties the slot it answers). So a
/// waiting permission request whose id no other slot holds is answered at
/// most once.
pub proof fn lemma_run_answers_each_request_once(
    s: RemoteV,
    q: Seq<NoteV>,
    allowed: Seq<i64>,
    us: Seq<UpdateV>,
    stamps: Seq<(Seq<char>, Seq<char>)>,
    id: JsonV,
)
    ensures
        answer_count(run_updates(s, q, allowed, us, stamps).2, id) <= waiting_with(s, id),
        held(s.opt, id) == 0 && held(s.plan, id) == 0 ==> answer_count(
            run_updates(s, q, allowed, us, stamps).2,
            id,
        ) <= 1,
    decreases us.len(),
{
    if us.len() > 0 {
        let r1 = step_update(s, q, allowed, us[0], stamps[0]);
        lemma_step_answers(s, q, allowed, us[0], stamps[0], id);
        lemma_run_answers_each_request_once(
            r1.0,
            r1.1,
            allowed,
            us.drop_first(),
            stamps.drop_first(),
            id,
        );
        let r2 = run_updates(r1.0, r1.1, allowed, us.drop_first(), stamps.drop_first());
        lemma_answer_count_concat(r1.2, r2.2, id);
    }
}

/// One input of the remote: a Telegram update (with the stamp a parked
/// note would get), an agent event, or an attachment saved at a path.
pub enum InputV {
    Update(UpdateV, (Seq<char>, Seq<char>)),
    Event(EventV),
    MediaSaved(i64, Seq<char>, bool, Seq<char>, (Seq<char>, Seq<char>)),
}

/// What one input does.
pub open spec fn step_input(s: RemoteV, q: Seq<NoteV>, allowed: Seq<i64>, x: InputV) -> (
    RemoteV,
    Seq<NoteV>,
    Seq<ActionV>,
) {
    match x {
        InputV::Update(u, stamp) => step_update(s, q, allowed, u, stamp),
        InputV::Event(e) => (step_event(s, e).0, q, step_event(s, e).1),
        InputV::MediaSaved(c, path, is_image, caption, stamp) => step_media(
            s,
            q,
            c,
            path,
            is_image,
            caption,
            stamp,
        ),
    }
}

/// What a run of inputs does, in order: the final state and queue, and all
/// the actions.
pub open spec fn run_inputs(s: RemoteV, q: Seq<NoteV>, allowed: Seq<i64>, xs: Seq<InputV>) -> (
    RemoteV,
    Seq<NoteV>,
    Seq<ActionV>,
)
    decreases xs.len(),
{
    if xs.len() == 0 {
        (s, q, Seq::empty())
    } else {
        let r1 = step_input(s, q, allowed, xs[0]);
        let r2 = run_inputs(r1.0, r1.1, allowed, xs.drop_first());
        (r2.0, r2.1, r1.2 + r2.2)
    }
}

/// How many of the inputs are agent requests with id `id`.
pub open spec fn requests_with(xs: Seq<InputV>, id: JsonV) -> nat
    decreases xs.len(),
{
    if xs.len() == 0 {
        0
    } else {
        requests_with(xs.drop_first(), id) + match xs[0] {
            InputV::Event(EventV::Request(r)) => if r.id() == id {
                1nat
            } else {
                0nat
            },
            _ => 0nat,
        }
    }
}

proof fn lemma_input_answers(s: RemoteV, q: Seq<NoteV>, allowed: Seq<i64>, x: InputV, id: JsonV)
    ensures
        answer_count(step_input(s, q, allowed, x).2, id) + waiting_with(step_input(s, q, allowed, x).0, id)
            <= waiting_with(s, id) + requests_with(seq![x], id),
{
    assert(seq![x].drop_first() =~= Seq::<InputV>::empty());
    match x {
        InputV::Update(u, stamp) => {
            lemma_step_answers(s, q, allowed, u, stamp, id);
        },
        InputV::Event(e) => {
            let r = step_event(s, e);
            assert forall|i: int| 0 <= i < r.1.len() implies !(#[trigger] r.1[i] is Respond) by {}
            lemma_answer_count_none(r.1, id);
        },
        InputV::MediaSaved(c, path, is_image, caption, stamp) => {
            let r = step_media(s, q, c, path, is_image, caption, stamp);
            lemma_answer_count_none(r.2, id);
        },
    }
}

/// Never answered twice, whatever comes in between: over any run of
/// updates, agent events and saved attachments, the answers carrying an id
/// never outnumber the slots holding a request with that id at the start
/// plus the agent's requests with that id during the run. So a permission
/// request the agent sends once, with an id nothing else holds, is answered
/// at most once.
pub proof fn lemma_interleaved_run_answers_once(
    s: RemoteV,
    q: Seq<NoteV>,
    allowed: Seq<i64>,
    xs: Seq<InputV>,
    id: JsonV,
)
    ensures
        answer_count(run_inputs(s, q, allowed, xs).2, id) + waiting_with(run_inputs(s, q, allowed, xs).0, id)
            <= waiting_with(s, id) + requests_with(xs, id),
        waiting_with(s, id) == 0 && requests_with(xs, id) <= 1 ==> answer_count(
            run_inputs(s, q, allowed, xs).2,
            id,
        ) <= 1,
    decreases xs.len(),
{
    if xs.len() > 0 {
        let r1 = step_input(s, q, allowed, xs[0]);
        lemma_input_answers(s, q, allowed, xs[0], id);
        lemma_interleaved_run_answers_once(r1.0, r1.1, allowed, xs.drop_first(), id);
        let r2 = run_inputs(r1.0, r1.1, allowed, xs.drop_first());
        lemma_answer_count_concat(r1.2, r2.2, id);
        reveal_with_fuel(requests_with, 2);
        assert(seq![xs[0]].drop_first() =~= Seq::<InputV>::empty());
    }
}

/// The help commands: `/start`, `/help` and `/home` (any text starting with
/// one of them) show the help card for the chat and change nothing else;
/// from an allowlisted user, the update only moves the offset and records
/// the chat.
pub proof fn lemma_help_commands_show_help(
    s: RemoteV,
    q: Seq<NoteV>,
    allowed: Seq<i64>,
    u: UpdateV,
    stamp: (Seq<char>, Seq<char>),
)
    requires
        u.callback is None,
        u.message matches Some(m) && authorized(allowed, m.from) && (m.text matches Some(t) && (
        "/start"@.is_prefix_of(t) || "/help"@.is_prefix_of(t) || "/home"@.is_prefix_of(t))),
    ensures
        ({
            let m = u.message->0;
            step_update(s, q, allowed, u, stamp) == (
                RemoteV { offset: (u.update_id + 1) as i64, last_chat: Some(m.chat_id), ..s },
                q,
                seq![ActionV::Help { chat_id: m.chat_id }],
            )
        }),
{
    reveal_strlit("/start");
    reveal_strlit("/help");
    reveal_strlit("/home");
    let t = u.message->0.text->0;
    assert(t.len() > 0) by {
        if "/start"@.is_prefix_of(t) {
            assert("/start"@.len() == 6);
        } else if "/help"@.is_prefix_of(t) {
            assert("/help"@.len() == 5);
        } else {
            assert("/home"@.len() == 5);
        }
    }
}

/// The live switch and the other commands of an allowlisted user's
/// message in chat `c`: `/live` turns live mode on and `/stop` turns it off
/// (each with its notice), `/new`, `/sessions` and `/history` ask for a new
/// session, the session picker and the history card, and any other command
/// gets the unknown-command notice; none of them touches the notes queue,
/// and none but `/live` and `/stop` changes the state.
pub proof fn lemma_commands(s: RemoteV, q: Seq<NoteV>, m: MessageV, stamp: (Seq<char>, Seq<char>))
    requires
        m.text matches Some(t) && "/"@.is_prefix_of(t),
    ensures
        ({
            let t = m.text->0;
            let c = m.chat_id;
            let r = step_message(s, q, m, stamp);
            &&& t == "/live"@ ==> r == (
                RemoteV { live: true, ..s },
                q,
                seq![send(c, "🟢 Live on — messages go to the agent."@)],
            )
            &&& t == "/stop"@ ==> r == (
                RemoteV { live: false, ..s },
                q,
                seq![send(c, "⏸ Live off — messages are parked as notes. /live to go live again."@)],
            )
            &&& t == "/new"@ ==> r == (s, q, seq![ActionV::NewSession { chat_id: c }])
            &&& t == "/sessions"@ ==> r == (s, q, seq![ActionV::ListSessions { chat_id: c }])
            &&& t == "/history"@ ==> r == (s, q, seq![ActionV::History { chat_id: c }])
            &&& t == "/drain"@ ==> r == drain(s, q, c)
            &&& t == "/foo"@ ==> r == (
                s,
                q,
                seq![send(c, "Unknown command. Just type a message for the agent, or /help."@)],
            )
        }),
{
    reveal_strlit("/");
    reveal_strlit("/start");
    reveal_strlit("/help");
    reveal_strlit("/home");
    reveal_strlit("/live");
    reveal_strlit("/stop");
    reveal_strlit("/new");
    reveal_strlit("/sessions");
    reveal_strlit("/history");
    reveal_strlit("/drain");
    reveal_strlit("/foo");
    let t = m.text->0;
    if t == "/live"@ || t == "/stop"@ || t == "/new"@ || t == "/sessions"@ || t == "/history"@
        || t == "/drain"@ || t == "/foo"@ {
        assert(t.len() >= 4);
        lemma_not_other_prefix("/start"@, t);
        lemma_not_other_prefix("/help"@, t);
        lemma_not_other_prefix("/home"@, t);
        lemma_not_other_prefix("/live"@, t);
        lemma_not_other_prefix("/stop"@, t);
        lemma_not_other_prefix("/new"@, t);
        lemma_not_other_prefix("/sessions"@, t);
        lemma_not_other_prefix("/history"@, t);
        lemma_not_other_prefix("/drain"@, t);
        assert("/"@.is_prefix_of(t)) by {
            assert(t.take(1) =~= "/"@);
        }
    }
}

/// A word of at least four characters starts a text exactly when the text
/// agrees with it on its first four characters and it is no longer than the
/// text; for the command words and texts here, that means being equal.
proof fn lemma_not_other_prefix(p: Seq<char>, t: Seq<char>)
    requires
        p.len() >= 4,
        t.len() >= 4,
    ensures
        p.is_prefix_of(t) ==> (p.len() <= t.len() && t[1] == p[1] && t[2] == p[2] && t[3] == p[3]),
        (p == t) ==> p.is_prefix_of(t),
{
    if p.is_prefix_of(t) {
        assert(t.take(p.len() as int) == p);
        assert(t.take(p.len() as int)[1] == t[1]);
        assert(t.take(p.len() as int)[2] == t[2]);
        assert(t.take(p.len() as int)[3] == t[3]);
    }
    if p == t {
        assert(t.take(p.len() as int) =~= p);
    }
}

proof fn lemma_tagged(tag: Seq<char>, rest: Seq<char>)
    ensures
        tag.is_prefix_of(tag + rest),
        (tag + rest).skip(tag.len() as int) == rest,
{
    assert((tag + rest).take(tag.len() as int) =~= tag);
    assert((tag + rest).skip(tag.len() as int) =~= rest);
}

/// Button presses answer the waiting request of their kind, once:
/// `p:<option>` answers the waiting permission request with that option
/// selected (or says none is waiting), `q:<id>` the waiting question with
/// the chosen label, `pl:approve` / `pl:quit` / any other `pl:` action the
/// waiting plan as approved / abandoned / cancelled for revision; each
/// answer carries the request's id and empties its slot.
pub proof fn lemma_button_answers(s: RemoteV, c: i64, x: Seq<char>)
    ensures
        ({
            let r = step_callback(s, c, "p:"@ + x);
            match s.perm {
                Some(req) => r == (
                    RemoteV { perm: None, ..s },
                    seq![
                        ActionV::Respond {
                            chat_id: c,
                            id: req.id(),
                            result: JsonV::Object(
                                seq![
                                    (
                                        "outcome"@,
                                        JsonV::Object(
                                            seq![
                                                ("outcome"@, JsonV::Str("selected"@)),
                                                ("optionId"@, JsonV::Str(x)),
                                            ],
                                        ),
                                    ),
                                ],
                            ),
                            done_text: "✅ Permission: <code>"@ + escape(x) + "</code>"@,
                        },
                    ],
                ),
                None => r == (s, seq![send(c, "No pending permission."@)]),
            }
        }),
        ({
            let r = step_callback(s, c, "q:"@ + x);
            match s.opt {
                Some(RequestV::AskUser { id, question, options }) => r == (
                    RemoteV { opt: None, ..s },
                    seq![
                        ActionV::Respond {
                            chat_id: c,
                            id,
                            result: JsonV::Object(
                                seq![
                                    ("outcome"@, JsonV::Str("accepted"@)),
                                    (
                                        "answers"@,
                                        JsonV::Object(
                                            seq![(question, JsonV::Array(seq![JsonV::Str(option_label(options, x))]))],
                                        ),
                                    ),
                                ],
                            ),
                            done_text: "✅ Answered"@,
                        },
                    ],
                ),
                None => r == (s, Seq::<ActionV>::empty()),
                _ => true,
            }
        }),
        ({
            let r = step_callback(s, c, "pl:"@ + x);
            match s.plan {
                Some(req) => r == (
                    RemoteV { plan: None, ..s },
                    seq![
                        ActionV::Respond {
                            chat_id: c,
                            id: req.id(),
                            result: if x == "approve"@ {
                                JsonV::Object(seq![("outcome"@, JsonV::Str("approved"@))])
                            } else if x == "quit"@ {
                                JsonV::Object(seq![("outcome"@, JsonV::Str("abandoned"@))])
                            } else {
                                JsonV::Object(
                                    seq![
                                        ("outcome"@, JsonV::Str("cancelled"@)),
                                        ("feedback"@, JsonV::Str("revise from phone"@)),
                                    ],
                                )
                            },
                            done_text: "✅ Plan: <code>"@ + escape(x) + "</code>"@,
                        },
                    ],
                ),
                None => r == (s, Seq::<ActionV>::empty()),
            }
        }),
{
    reveal_strlit("p:");
    reveal_strlit("q:");
    reveal_strlit("pl:");
    lemma_tagged("p:"@, x);
    lemma_tagged("q:"@, x);
    lemma_tagged("pl:"@, x);
    let dq = "q:"@ + x;
    assert(!"p:"@.is_prefix_of(dq)) by {
        if "p:"@.is_prefix_of(dq) {
            assert(dq.take(2)[0] == dq[0]);
        }
    }
    let dl = "pl:"@ + x;
    assert(!"p:"@.is_prefix_of(dl)) by {
        if "p:"@.is_prefix_of(dl) {
            assert(dl.take(2)[1] == dl[1]);
        }
    }
    assert(!"q:"@.is_prefix_of(dl)) by {
        if "q:"@.is_prefix_of(dl) {
            assert(dl.take(2)[0] == dl[0]);
        }
    }
}

/// The label a question's answer carries: the name of the first option
/// whose id is the pressed one, or the pressed id itself when no option
/// has it.
pub proof fn lemma_option_label(options: Seq<(Seq<char>, Seq<char>)>, id: Seq<char>, i: int)
    ensures
        0 <= i < options.len() && options[i].0 == id && (forall|j: int|
            0 <= j < i ==> options[j].0 != id) ==> option_label(options, id) == options[i].1,
        (forall|j: int| 0 <= j < options.len() ==> options[j].0 != id) ==> option_label(options, id)
            == id,
    decreases options.len(),
{
    if options.len() > 0 {
        let rest = options.drop_first();
        lemma_option_label(rest, id, i - 1);
        if 0 <= i < options.len() && options[i].0 == id && (forall|j: int|
            0 <= j < i ==> options[j].0 != id) {
            if i > 0 {
                assert(options[0].0 != id);
                assert(rest[i - 1] == options[i]);
                assert forall|j: int| 0 <= j < i - 1 implies rest[j].0 != id by {
                    assert(rest[j] == options[j + 1]);
                }
            }
        }
        if forall|j: int| 0 <= j < options.len() ==> options[j].0 != id {
            assert(options[0].0 != id);
            assert forall|j: int| 0 <= j < rest.len() implies rest[j].0 != id by {
                assert(rest[j] == options[j + 1]);
            }
        }
    }
}

/// Session buttons: `use:<id>` attaches to that session, `new` starts a new
/// one and `sessions` shows the picker; none changes the state.
pub proof fn lemma_session_buttons(s: RemoteV, c: i64, sid: Seq<char>)
    ensures
        step_callback(s, c, "use:"@ + sid) == (s, seq![ActionV::Attach { chat_id: c, session_id: sid }]),
        step_callback(s, c, "new"@) == (s, seq![ActionV::NewSession { chat_id: c }]),
        step_callback(s, c, "sessions"@) == (s, seq![ActionV::ListSessions { chat_id: c }]),
{
    reveal_strlit("p:");
    reveal_strlit("q:");
    reveal_strlit("pl:");
    reveal_strlit("use:");
    reveal_strlit("new");
    reveal_strlit("sessions");
    lemma_tagged("use:"@, sid);
    let d = "use:"@ + sid;
    assert(!"p:"@.is_prefix_of(d)) by {
        if "p:"@.is_prefix_of(d) {
            assert(d.take(2)[0] == d[0]);
        }
    }
    assert(!"q:"@.is_prefix_of(d)) by {
        if "q:"@.is_prefix_of(d) {
            assert(d.take(2)[0] == d[0]);
        }
    }
    assert(!"pl:"@.is_prefix_of(d)) by {
        if "pl:"@.is_prefix_of(d) {
            assert(d.take(3)[0] == d[0]);
        }
    }
    let n = "new"@;
    assert(!"p:"@.is_prefix_of(n)) by {
        if "p:"@.is_prefix_of(n) {
            assert(n.take(2)[0] == n[0]);
        }
    }
    assert(!"q:"@.is_prefix_of(n)) by {
        if "q:"@.is_prefix_of(n) {
            assert(n.take(2)[0] == n[0]);
        }
    }
    assert(!"pl:"@.is_prefix_of(n)) by {
        if "pl:"@.is_prefix_of(n) {
            assert(n.take(3)[0] == n[0]);
        }
    }
    assert(!"use:"@.is_prefix_of(n));
    let w = "sessions"@;
    assert(!"p:"@.is_prefix_of(w)) by {
        if "p:"@.is_prefix_of(w) {
            assert(w.take(2)[0] == w[0]);
        }
    }
    assert(!"q:"@.is_prefix_of(w)) by {
        if "q:"@.is_prefix_of(w) {
            assert(w.take(2)[0] == w[0]);
        }
    }
    assert(!"pl:"@.is_prefix_of(w)) by {
        if "pl:"@.is_prefix_of(w) {
            assert(w.take(3)[0] == w[0]);
        }
    }
    assert(!"use:"@.is_prefix_of(w)) by {
        if "use:"@.is_prefix_of(w) {
            assert(w.take(4)[0] == w[0]);
        }
    }
}

/// What the agent's events post to the last chat `c`: a tool call posts its
/// title in bold; the end of a turn posts the gathered reply, trimmed and
/// escaped under "🟢 Gork" (when it fits in 3500 bytes), or "Turn finished"
/// with the stop reason when the agent said nothing, and empties the
/// gathered text; an error posts it after "❌ Agent:"; a request shows its
/// card and waits in the slot of its kind. Streamed text is only gathered,
/// and without a chat nothing is posted.
pub proof fn lemma_event_posts(s: RemoteV, e: EventV)
    ensures
        e matches EventV::AgentText(t) ==> step_event(s, e) == (
            RemoteV { agent_buf: s.agent_buf + t, ..s },
            Seq::<ActionV>::empty(),
        ),
        s.last_chat is None && !(e is AgentText) ==> step_event(s, e) == (s, Seq::<ActionV>::empty()),
        s.last_chat matches Some(c) ==> match e {
            EventV::ToolTitle(t) => step_event(s, e) == (
                s,
                seq![send(c, "🛠 <b>"@ + escape(t) + "</b>"@)],
            ),
            EventV::TurnDone(stop) => step_event(s, e).0 == (RemoteV { agent_buf: Seq::empty(), ..s })
                && (trim(s.agent_buf).len() == 0 ==> step_event(s, e).1 == seq![
                send(c, "🟢 <b>Turn finished</b>\n<i>"@ + escape(stop) + "</i>"@),
            ]) && (trim(s.agent_buf).len() > 0 && vstd::utf8::encode_utf8(trim(s.agent_buf)).len()
                <= 3500 ==> step_event(s, e).1 == seq![
                send(c, "🟢 <b>Gork</b>\n"@ + escape(trim(s.agent_buf))),
            ]),
            EventV::Error(msg) => step_event(s, e) == (
                s,
                seq![send(c, "❌ Agent: "@ + escape(msg))],
            ),
            EventV::Request(r) => step_event(s, e).1 == seq![
                ActionV::Send { chat_id: c, text: card_of(r).0, keyboard: card_of(r).1 },
            ] && match r {
                RequestV::Permission { .. } => step_event(s, e).0.perm == Some(r),
                RequestV::AskUser { .. } => step_event(s, e).0.opt == Some(r),
                RequestV::ExitPlan { .. } => step_event(s, e).0.plan == Some(r),
                RequestV::Other { .. } => step_event(s, e).0.other == Some(r),
            },
            _ => true,
        },
{
}

/// A stranger's message is answered with the refusal naming their id (or
/// `?`) and how to be let in; a stranger's button press only with "Not
/// authorized".
pub proof fn lemma_refusal_texts(
    s: RemoteV,
    q: Seq<NoteV>,
    allowed: Seq<i64>,
    u: UpdateV,
    stamp: (Seq<char>, Seq<char>),
)
    requires
        from_stranger(allowed, u),
    ensures
        match u.callback {
            Some(cq) => step_update(s, q, allowed, u, stamp).2 == seq![
                ActionV::AnswerCallback { callback_id: cq.id, text: "Not authorized"@ },
            ],
            None => match u.message {
                Some(m) => step_update(s, q, allowed, u, stamp).2 == seq![
                    send(
                        m.chat_id,
                        "⛔ Not authorized.\nYour id: <code>"@ + match m.from {
                            Some(id) => signed_decimal(id as int),
                            None => "?"@,
                        } + "</code>\nAdd to ALLOWED_USER_IDS."@,
                    ),
                ],
                None => step_update(s, q, allowed, u, stamp).2.len() == 0,
            },
        },
{
}

/// The card's buttons answer what they show: pressing the button of option
/// `i` on a waiting permission card (its data fitting Telegram's 64 bytes)
/// answers that request with option `i` selected; pressing the button of
/// option `i` on a waiting question card answers it with that option's
/// label (when no earlier option has the same id).
pub proof fn lemma_card_buttons_answer(s: RemoteV, c: i64, r: RequestV, i: int)
    requires
        0 <= i,
    ensures
        (r matches RequestV::Permission { options, .. } && i < options.len() && s.perm == Some(r)
            && vstd::utf8::encode_utf8("p:"@ + options[i].0).len() <= 64) ==> ({
            let options = r->Permission_options;
            let kb = card_of(r).1->0;
            &&& kb[i] == seq![(kb[i][0].0, "p:"@ + options[i].0)]
            &&& step_callback(s, c, kb[i][0].1).1 == seq![
                ActionV::Respond {
                    chat_id: c,
                    id: r.id(),
                    result: permission_result(options[i].0),
                    done_text: "✅ Permission: <code>"@ + escape(options[i].0) + "</code>"@,
                },
            ]
        }),
        (r matches RequestV::AskUser { options, .. } && i < options.len() && s.opt == Some(r)
            && vstd::utf8::encode_utf8("q:"@ + options[i].0).len() <= 64 && (forall|j: int|
            0 <= j < i ==> options[j].0 != options[i].0)) ==> ({
            let options = r->AskUser_options;
            let kb = card_of(r).1->0;
            &&& kb[i] == seq![(kb[i][0].0, "q:"@ + options[i].0)]
            &&& step_callback(s, c, kb[i][0].1).1 == seq![
                ActionV::Respond {
                    chat_id: c,
                    id: r.id(),
                    result: answer_result(r->AskUser_question, options[i].1),
                    done_text: "✅ Answered"@,
                },
            ]
        }),
{
    match r {
        RequestV::Permission { options, .. } => {
            if i < options.len() && s.perm == Some(r) && vstd::utf8::encode_utf8(
                "p:"@ + options[i].0,
            ).len() <= 64 {
                assert(options.len() > 0);
                let rows = permission_rows(options);
                assert(rows[i] == seq![(crate::ui::button_label(options[i].1), "p:"@ + options[i].0)]);
                lemma_callback_data_capped("p:"@ + options[i].0);
                let kb = keyboard_of(rows);
                assert(kb[i] =~= seq![(crate::ui::button_label(options[i].1), "p:"@ + options[i].0)]);
                lemma_button_answers(s, c, options[i].0);
            }
        },
        RequestV::AskUser { id, question, options } => {
            if i < options.len() && s.opt == Some(r) && vstd::utf8::encode_utf8(
                "q:"@ + options[i].0,
            ).len() <= 64 && (forall|j: int| 0 <= j < i ==> options[j].0 != options[i].0) {
                let rows = question_rows(options);
                assert(rows[i] == seq![(crate::ui::button_label(options[i].1), "q:"@ + options[i].0)]);
                lemma_callback_data_capped("q:"@ + options[i].0);
                let kb = keyboard_of(rows);
                assert(kb[i] =~= seq![(crate::ui::button_label(options[i].1), "q:"@ + options[i].0)]);
                lemma_button_answers(s, c, options[i].0);
                lemma_option_label(options, options[i].0, i);
            }
        },
        _ => {},
    }
}

/// A saved photo or file goes to the agent when live: it is told the path
/// (and the caption) and the queue stays as it is; when live is off it is
/// parked at the back of the queue as a note holding the path, the caption
/// as its text and whether it is a photo, and nothing reaches the agent.
pub proof fn lemma_media_routing(
    s: RemoteV,
    q: Seq<NoteV>,
    c: i64,
    path: Seq<char>,
    is_image: bool,
    caption: Seq<char>,
    stamp: (Seq<char>, Seq<char>),
)
    ensures
        s.live ==> ({
            let r = step_media(s, q, c, path, is_image, caption, stamp);
            &&& r.1 == q
            &&& r.2.len() == 2 && r.2[1] == ActionV::Prompt {
                chat_id: c,
                text: (if is_image {
                    "The user sent a photo, saved at "@
                } else {
                    "The user sent a file, saved at "@
                }) + path + if caption.len() == 0 {
                    ""@
                } else {
                    "\nCaption: "@ + caption
                },
            }
        }),
        !s.live ==> ({
            let r = step_media(s, q, c, path, is_image, caption, stamp);
            &&& r.0 == s
            &&& r.1.len() == q.len() + 1 && r.1.take(q.len() as int) == q
            &&& r.1.last().media_path == Some(path) && r.1.last().text == caption
                && r.1.last().is_image == is_image && r.1.last().session_id == s.session_id
            &&& forall|i: int| 0 <= i < r.2.len() ==> !reaches_agent(#[trigger] r.2[i])
        }),
{
    if !s.live {
        let r = step_media(s, q, c, path, is_image, caption, stamp);
        assert(r.1.take(q.len() as int) =~= q);
    }
}

/// The answer to a waiting request carries that request's id and empties
/// its slot, so a second press on the same kind of button answers nothing.
pub proof fn lemma_request_answered_once(s: RemoteV, c: i64, data: Seq<char>)
    ensures
        forall|i: int|
            0 <= i < step_callback(s, c, data).1.len() ==> (#[trigger] step_callback(
                s,
                c,
                data,
            ).1[i] matches ActionV::Respond { id, .. } ==> (Some(id) == match s.perm {
                Some(r) => Some(r.id()),
                None => None,
            } && "p:"@.is_prefix_of(data)) || (Some(id) == match s.opt {
                Some(r) => Some(r.id()),
                None => None,
            } && "q:"@.is_prefix_of(data)) || (Some(id) == match s.plan {
                Some(r) => Some(r.id()),
                None => None,
            } && "pl:"@.is_prefix_of(data))),
        forall|i: int|
            0 <= i < step_callback(step_callback(s, c, data).0, c, data).1.len() ==> !(
            #[trigger] step_callback(step_callback(s, c, data).0, c, data).1[i] is Respond),
{
}

/// Every reverse request but an unknown method is shown with buttons.
pub proof fn lemma_holds_show_buttons(r: RequestV)
    ensures
        !(r is Other) ==> card_of(r).1 is Some,
{
}

// ---------------------------------------------------------------------
// Texts for the caller's outcomes
// ---------------------------------------------------------------------

/// The help card: host, session and working directory, and how to use the
/// remote.
pub fn help_text(host_id: &str, session_id: &str, cwd: &str) -> (s: String)
    ensures
        s@ == "<b>✦ Gork phone remote</b>\nhost <code>"@ + escape(host_id@) + "</code>\nsession <code>"@
            + escape(session_id@) + "</code>\ncwd <code>"@ + escape(cwd@)
            + "</code>\n\nType freely — messages go to the live agent.\nPermissions / questions / plans show as buttons."@,
{
    let mut s = text_with("<b>✦ Gork phone remote</b>\nhost <code>", host_id, "</code>\nsession <code>");
    let e = esc(session_id);
    push_str(&mut s, e.as_str());
    push_str(&mut s, "</code>\ncwd <code>");
    let e2 = esc(cwd);
    push_str(&mut s, e2.as_str());
    push_str(&mut s, "</code>\n\nType freely — messages go to the live agent.\nPermissions / questions / plans show as buttons.");
    s
}

/// The notice for a prompt the agent did not take.
pub fn prompt_failed_text(err: &str) -> (s: String)
    ensures
        s@ == "❌ Prompt failed: "@ + escape(err@) + ""@,
{
    text_with("❌ Prompt failed: ", err, "")
}

/// The notice for an answer that could not be sent to the agent.
pub fn respond_failed_text(err: &str) -> (s: String)
    ensures
        s@ == "❌ "@ + escape(err@) + ""@,
{
    text_with("❌ ", err, "")
}

/// The notice that the agent is attached to a session after `step`
/// succeeded: a new session, or a loaded or resumed one.
pub fn attach_done_text(step: AttachStep, session_id: &str) -> (s: String)
    ensures
        s@ == match step {
            AttachStep::New => "🆕 New session <code>"@ + escape(session_id@) + "</code>"@,
            _ => "✅ Attached to session <code>"@ + escape(session_id@) + "</code>"@,
        },
{
    match step {
        AttachStep::New => text_with("🆕 New session <code>", session_id, "</code>"),
        _ => text_with("✅ Attached to session <code>", session_id, "</code>"),
    }
}

/// The notice that no way of attaching worked.
pub fn attach_failed_text(err: &str) -> (s: String)
    ensures
        s@ == "❌ Attach failed: "@ + escape(err@) + ""@,
{
    text_with("❌ Attach failed: ", err, "")
}

/// The history card: the digest's first 780 characters, escaped (short
/// enough that Telegram never cuts it).
pub fn history_card_text(digest: &str) -> (s: String)
    ensures
        s@ == "📜 <b>History</b>\n"@ + escape(take_chars(digest@, 780)) + ""@,
{
    let d = first_chars(digest, 780);
    text_with("📜 <b>History</b>\n", d.as_str(), "")
}

/// The notice for an attachment that could not be saved.
pub fn media_failed_text(err: &str) -> (s: String)
    ensures
        s@ == "❌ Could not save the file: "@ + escape(err@) + ""@,
{
    text_with("❌ Could not save the file: ", err, "")
}

/// What the chat is told once an answer to the agent was sent
/// (`err` is `None`) or failed: the answer's `done_text`, or the failure
/// (`respond_failed_text`).
pub fn respond_outcome_text(done_text: String, err: Option<&str>) -> (s: String)
    ensures
        s@ == match err {
            None => done_text@,
            Some(e) => "❌ "@ + escape(e@) + ""@,
        },
{
    match err {
        None => done_text,
        Some(e) => respond_failed_text(e),
    }
}

} // verus!
