//! Reading the agent's JSON-RPC lines (ACP over stdio): reverse requests
//! that the phone must answer, streamed session updates, and replies.
use vstd::prelude::*;
use crate::json::{
    Json, JsonNumber, JsonV, NumberV, array_of, json_text_value, json_written, members_view,
    object_of, parse_json, string_of, write_json, array_index, all_digits, digits_value, at_in, first_of, get_in, opt_field, opt_items, opt_step, opt_text, or_else, str_in, text_or, views_of,
};
use crate::text::{
    contains_str, decimal, first_chars, has_infix, is_blank, occurs_at, owned, push_str, str_eq,
    take_chars, trim,
    u64_to_decimal,
};

verus! {

/// A reverse request from the agent that the phone must answer.
#[derive(Debug)]
pub enum ServerRequest {
    /// `session/request_permission`: options are (optionId, name).
    Permission { id: Json, tool_title: String, options: Vec<(String, String)> },
    /// `…ask_user_question`: options are (index, label).
    AskUser { id: Json, question: String, options: Vec<(String, String)> },
    /// `…exit_plan_mode`.
    ExitPlan { id: Json, plan_excerpt: String },
    /// Any other method.
    Other { id: Json, method: String },
}

/// The spec-level form of a `ServerRequest`.
pub enum RequestV {
    Permission { id: JsonV, tool_title: Seq<char>, options: Seq<(Seq<char>, Seq<char>)> },
    AskUser { id: JsonV, question: Seq<char>, options: Seq<(Seq<char>, Seq<char>)> },
    ExitPlan { id: JsonV, plan_excerpt: Seq<char> },
    Other { id: JsonV, method: Seq<char> },
}

/// The views of a list of (id, label) pairs.
pub open spec fn pairs_view(v: Seq<(String, String)>) -> Seq<(Seq<char>, Seq<char>)> {
    Seq::new(v.len(), |i: int| (v[i].0@, v[i].1@))
}

impl View for ServerRequest {
    type V = RequestV;

    open spec fn view(&self) -> RequestV {
        match self {
            ServerRequest::Permission { id, tool_title, options } => RequestV::Permission {
                id: id@,
                tool_title: tool_title@,
                options: pairs_view(options@),
            },
            ServerRequest::AskUser { id, question, options } => RequestV::AskUser {
                id: id@,
                question: question@,
                options: pairs_view(options@),
            },
            ServerRequest::ExitPlan { id, plan_excerpt } => RequestV::ExitPlan {
                id: id@,
                plan_excerpt: plan_excerpt@,
            },
            ServerRequest::Other { id, method } => RequestV::Other { id: id@, method: method@ },
        }
    }
}

impl RequestV {
    /// The JSON-RPC id the answer must carry.
    pub open spec fn id(self) -> JsonV {
        match self {
            RequestV::Permission { id, .. } => id,
            RequestV::AskUser { id, .. } => id,
            RequestV::ExitPlan { id, .. } => id,
            RequestV::Other { id, .. } => id,
        }
    }
}

/// An event for the Telegram side.
#[derive(Debug)]
pub enum AcpEvent {
    AgentText(String),
    ToolTitle(String),
    ServerRequest(ServerRequest),
    TurnDone { stop_reason: String },
    Error(String),
}

/// The spec-level form of an `AcpEvent`.
pub enum EventV {
    AgentText(Seq<char>),
    ToolTitle(Seq<char>),
    Request(RequestV),
    TurnDone(Seq<char>),
    Error(Seq<char>),
}

impl View for AcpEvent {
    type V = EventV;

    open spec fn view(&self) -> EventV {
        match self {
            AcpEvent::AgentText(t) => EventV::AgentText(t@),
            AcpEvent::ToolTitle(t) => EventV::ToolTitle(t@),
            AcpEvent::ServerRequest(r) => EventV::Request(r@),
            AcpEvent::TurnDone { stop_reason } => EventV::TurnDone(stop_reason@),
            AcpEvent::Error(e) => EventV::Error(e@),
        }
    }
}

/// `opt.unwrap_or(default)` for texts.
pub open spec fn text_or_default(t: Option<Seq<char>>, default: Seq<char>) -> Seq<char> {
    match t {
        Some(s) => s,
        None => default,
    }
}

/// One (optionId, name) pair of a permission request.
pub open spec fn permission_option(o: JsonV) -> (Seq<char>, Seq<char>) {
    let oid = text_or_default(
        opt_text(or_else(or_else(o.field("optionId"@), o.field("option_id"@)), o.field("id"@))),
        "opt"@,
    );
    let name = text_or_default(opt_text(or_else(o.field("name"@), o.field("label"@))), oid);
    (oid, name)
}

/// The label of one option of a question.
pub open spec fn question_label(o: JsonV) -> Seq<char> {
    text_or_default(opt_text(or_else(o.field("label"@), o.field("name"@))), "opt"@)
}

/// `/questions/0/<key>` of the request parameters, as a JSON pointer.
pub open spec fn first_question(params: Option<JsonV>, key: Seq<char>) -> Option<JsonV> {
    opt_step(opt_step(opt_step(params, "questions"@), "0"@), key)
}

/// The reverse request that an agent message (with an id and a string
/// method) asks the phone to answer.
pub open spec fn parse_request(msg: JsonV) -> Option<RequestV> {
    match (msg.field("id"@), opt_text(msg.field("method"@))) {
        (Some(id), Some(method)) => {
            let params = msg.field("params"@);
            if method == "session/request_permission"@ {
                let tool = or_else(opt_field(params, "toolCall"@), opt_field(params, "tool_call"@));
                let title = text_or_default(
                    opt_text(or_else(opt_field(tool, "title"@), opt_field(tool, "toolCallId"@))),
                    "tool"@,
                );
                let options = match opt_items(opt_field(params, "options"@)) {
                    Some(arr) => arr.map_values(|o: JsonV| permission_option(o)),
                    None => Seq::empty(),
                };
                Some(RequestV::Permission { id, tool_title: title, options })
            } else if has_infix(method, "ask_user_question"@) {
                let question = text_or_default(
                    opt_text(
                        or_else(first_question(params, "question"@), opt_field(params, "question"@)),
                    ),
                    "Choose:"@,
                );
                let opts = match opt_items(
                    or_else(first_question(params, "options"@), opt_field(params, "options"@)),
                ) {
                    Some(arr) => arr,
                    None => Seq::empty(),
                };
                let options = opts.map(|i: int, o: JsonV| (decimal(i as nat), question_label(o)));
                Some(RequestV::AskUser { id, question, options })
            } else if has_infix(method, "exit_plan_mode"@) {
                let plan = text_or_default(
                    opt_text(
                        or_else(opt_field(params, "planContent"@), opt_field(params, "plan_content"@)),
                    ),
                    ""@,
                );
                Some(RequestV::ExitPlan { id, plan_excerpt: take_chars(plan, 1500) })
            } else {
                Some(RequestV::Other { id, method })
            }
        },
        _ => None,
    }
}

/// The tool a permission request names: the `title` of its `toolCall`
/// when that is a string, whatever `toolCallId` it also carries; the
/// `toolCallId` only when there is no title. A message with an id and the
/// method `session/request_permission` is always a permission request.
pub proof fn lemma_permission_names_the_tool(msg: JsonV, tool: JsonV)
    requires
        msg.field("id"@) is Some,
        msg.field("method"@) == Some(JsonV::Str("session/request_permission"@)),
        msg.field("params"@) matches Some(p) && p.field("toolCall"@) == Some(tool),
    ensures
        parse_request(msg) matches Some(RequestV::Permission { id, tool_title, .. }) && Some(id)
            == msg.field("id"@) && match tool.field("title"@) {
            Some(JsonV::Str(t)) => tool_title == t,
            None => match tool.field("toolCallId"@) {
                Some(JsonV::Str(x)) => tool_title == x,
                _ => true,
            },
            _ => true,
        },
{
}

/// A `tool_call` update is shown by its `title` when that is a string,
/// whatever `toolCallId` it also carries, and by its `toolCallId` only when
/// there is no title; a `session/update` notification (no id) carrying it is
/// that event.
pub proof fn lemma_tool_call_shows_title(msg: JsonV, update: JsonV)
    requires
        msg.field("params"@) matches Some(p) && p.field("update"@) == Some(update),
        update.field("sessionUpdate"@) == Some(JsonV::Str("tool_call"@)),
    ensures
        match update.field("title"@) {
            Some(JsonV::Str(t)) => update_event(msg) == Some(EventV::ToolTitle(t)) && (msg.field(
                "id"@,
            ) is None && msg.field("method"@) == Some(JsonV::Str("session/update"@)) ==> classify(
                msg,
            ) == IncomingV::Event(EventV::ToolTitle(t))),
            None => match update.field("toolCallId"@) {
                Some(JsonV::Str(x)) => update_event(msg) == Some(EventV::ToolTitle(x)),
                _ => true,
            },
            _ => true,
        },
{
    reveal_strlit("tool_call");
    reveal_strlit("agent_message_chunk");
    let p = msg.field("params"@)->0;
    assert(msg.step("params"@) == msg.field("params"@));
    assert(p.step("update"@) == p.field("update"@));
    assert("tool_call"@ != "agent_message_chunk"@) by {
        assert("tool_call"@.len() != "agent_message_chunk"@.len());
    }
}

/// The options of a permission request, in order: each one's id is its
/// `optionId` string (else `option_id`, else `id`, else `opt`), and its
/// name its `name` string (else `label`, else the id).
pub proof fn lemma_permission_options(msg: JsonV, o: JsonV, oid: Seq<char>, name: Seq<char>)
    requires
        o.field("optionId"@) == Some(JsonV::Str(oid)),
        o.field("name"@) == Some(JsonV::Str(name)),
    ensures
        permission_option(o) == (oid, name),
        msg.field("id"@) is Some && msg.field("method"@) == Some(
            JsonV::Str("session/request_permission"@),
        ) && (msg.field("params"@) matches Some(p) && p.field("options"@) == Some(
            JsonV::Array(seq![o]),
        )) ==> (parse_request(msg) matches Some(RequestV::Permission { options, .. }) && options
            == seq![(oid, name)]),
{
    if msg.field("params"@) matches Some(p) && p.field("options"@) == Some(JsonV::Array(seq![o])) {
        assert(seq![o].map_values(|x: JsonV| permission_option(x)) =~= seq![(oid, name)]);
    }
}

/// A question request (a method naming `ask_user_question`) asks the
/// `question` of its first entry in `questions`, with that entry's options
/// numbered `0`, `1`, ... in order and labelled by their `label` strings.
pub proof fn lemma_question_request(msg: JsonV, q: JsonV, question: Seq<char>, opts: Seq<JsonV>)
    requires
        msg.field("id"@) is Some,
        msg.field("method"@) == Some(JsonV::Str("x.ai/ask_user_question"@)),
        msg.field("params"@) matches Some(p) && p.field("questions"@) == Some(JsonV::Array(seq![q])),
        q.field("question"@) == Some(JsonV::Str(question)),
        q.field("options"@) == Some(JsonV::Array(opts)),
    ensures
        parse_request(msg) matches Some(RequestV::AskUser { question: qq, options, .. }) && qq
            == question && options.len() == opts.len() && forall|i: int|
            0 <= i < opts.len() ==> (#[trigger] options[i]).0 == decimal(i as nat) && (opts[i].field(
                "label"@,
            ) matches Some(JsonV::Str(l)) ==> options[i].1 == l),
{
    reveal_strlit("x.ai/ask_user_question");
    reveal_strlit("session/request_permission");
    reveal_strlit("ask_user_question");
    let m = "x.ai/ask_user_question"@;
    assert(m != "session/request_permission"@) by {
        assert(m[0] != "session/request_permission"@[0]);
    }
    assert(has_infix(m, "ask_user_question"@)) by {
        assert(m.subrange(5, 22) =~= "ask_user_question"@);
        assert(occurs_at(m, "ask_user_question"@, 5));
    }
    let p = msg.field("params"@)->0;
    assert(p.step("questions"@) == p.field("questions"@));
    assert(array_index("0"@) == Some(0nat)) by {
        reveal_strlit("0");
        assert(all_digits("0"@));
        reveal_with_fuel(digits_value, 2);
    }
}

/// A plan request (a method naming `exit_plan_mode`) shows the first 1500
/// characters of its `planContent` string.
pub proof fn lemma_plan_request(msg: JsonV, plan: Seq<char>)
    requires
        msg.field("id"@) is Some,
        msg.field("method"@) == Some(JsonV::Str("x.ai/exit_plan_mode"@)),
        msg.field("params"@) matches Some(p) && p.field("planContent"@) == Some(JsonV::Str(plan)),
    ensures
        parse_request(msg) matches Some(RequestV::ExitPlan { plan_excerpt, .. }) && plan_excerpt
            == take_chars(plan, 1500) && plan_excerpt.len() <= 1500 && plan_excerpt.is_prefix_of(
            plan,
        ),
{
    reveal_strlit("x.ai/exit_plan_mode");
    reveal_strlit("session/request_permission");
    reveal_strlit("ask_user_question");
    reveal_strlit("exit_plan_mode");
    let m = "x.ai/exit_plan_mode"@;
    assert(m != "session/request_permission"@) by {
        assert(m[0] != "session/request_permission"@[0]);
    }
    assert(!has_infix(m, "ask_user_question"@)) by {
        if has_infix(m, "ask_user_question"@) {
            let a = "ask_user_question"@;
            let i = choose|i: int| occurs_at(m, a, i);
            assert(m.len() == 19 && a.len() == 17);
            assert(0 <= i <= 2);
            assert(m.subrange(i, i + 17)[0] == m[i]);
            assert(m.subrange(i, i + 17)[1] == m[i + 1]);
            assert(m.subrange(i, i + 17) == a);
            assert(a[0] == 'a' && a[1] == 's');
            assert(m[0] == 'x' && m[1] == '.' && m[2] == 'a' && m[3] == 'i');
        }
    }
    assert(has_infix(m, "exit_plan_mode"@)) by {
        assert(m.subrange(5, 19) =~= "exit_plan_mode"@);
        assert(occurs_at(m, "exit_plan_mode"@, 5));
    }
    if plan.len() > 1500 {
        assert(plan.take(1500) =~= plan.subrange(0, 1500));
    }
}

/// An agent text chunk is shown by the `text` of its `content` when that is
/// a string, else by its own `text` string.
pub proof fn lemma_text_chunk(msg: JsonV, update: JsonV, content: JsonV, t: Seq<char>)
    requires
        msg.field("params"@) matches Some(p) && p.field("update"@) == Some(update),
        update.field("sessionUpdate"@) == Some(JsonV::Str("agent_message_chunk"@)),
        update.field("content"@) == Some(content),
        content.field("text"@) == Some(JsonV::Str(t)),
    ensures
        update_event(msg) == Some(EventV::AgentText(t)),
{
    let p = msg.field("params"@)->0;
    assert(msg.step("params"@) == msg.field("params"@));
    assert(p.step("update"@) == p.field("update"@));
    assert(update.step("content"@) == update.field("content"@));
    assert(content.step("text"@) == content.field("text"@));
}

/// A message with a numeric id and no method is a reply to that request:
/// its `error` member if any, and its `result` (`null` when absent).
pub proof fn lemma_reply_lines(msg: JsonV, id: u64)
    requires
        msg.field("id"@) == Some(JsonV::Number(NumberV::PosInt(id))),
        msg.field("method"@) is None,
    ensures
        classify(msg) == (IncomingV::Reply {
            id,
            error: msg.field("error"@),
            result: match msg.field("result"@) {
                Some(r) => r,
                None => JsonV::Null,
            },
        }),
{
}

/// The view of an optional request.
pub open spec fn opt_request_view(r: Option<ServerRequest>) -> Option<RequestV> {
    match r {
        Some(q) => Some(q@),
        None => None,
    }
}

fn permission_options(arr: &Vec<Json>) -> (out: Vec<(String, String)>)
    ensures
        pairs_view(out@) == views_of(arr@).map_values(|o: JsonV| permission_option(o)),
{
    let mut out: Vec<(String, String)> = Vec::new();
    let mut i: usize = 0;
    while i < arr.len()
        invariant
            0 <= i <= arr@.len(),
            out@.len() == i,
            forall|j: int|
                0 <= j < i ==> (#[trigger] out@[j].0@, out@[j].1@) == permission_option(arr@[j]@),
        decreases arr@.len() - i,
    {
        let o = &arr[i];
        let oid = text_or(
            str_in(first_of(first_of(o.get("optionId"), o.get("option_id")), o.get("id"))),
            "opt",
        );
        let name = text_or(str_in(first_of(o.get("name"), o.get("label"))), oid.as_str());
        out.push((oid, name));
        i = i + 1;
    }
    assert(pairs_view(out@) =~= views_of(arr@).map_values(|o: JsonV| permission_option(o)));
    out
}

fn question_options(arr: Option<&Vec<Json>>) -> (out: Vec<(String, String)>)
    ensures
        pairs_view(out@) == (match arr {
            Some(a) => views_of(a@),
            None => Seq::empty(),
        }).map(|i: int, o: JsonV| (decimal(i as nat), question_label(o))),
{
    let mut out: Vec<(String, String)> = Vec::new();
    match arr {
        Some(a) => {
            let mut i: usize = 0;
            while i < a.len()
                invariant
                    0 <= i <= a@.len(),
                    out@.len() == i,
                    forall|j: int|
                        0 <= j < i ==> (#[trigger] out@[j].0@, out@[j].1@) == (
                            decimal(j as nat),
                            question_label(a@[j]@),
                        ),
                decreases a@.len() - i,
            {
                let o = &a[i];
                let idx = u64_to_decimal(i as u64);
                let label = text_or(str_in(first_of(o.get("label"), o.get("name"))), "opt");
                out.push((idx, label));
                i = i + 1;
            }
            assert(pairs_view(out@) =~= views_of(a@).map(
                |i: int, o: JsonV| (decimal(i as nat), question_label(o)),
            ));
        },
        None => {
            assert(pairs_view(out@) =~= Seq::<JsonV>::empty().map(
                |i: int, o: JsonV| (decimal(i as nat), question_label(o)),
            ));
        },
    }
    out
}

/// Reads a reverse request from an agent message (`parse_server_request`):
/// `None` when the message has no id or no string method.
pub fn parse_server_request(msg: &Json) -> (r: Option<ServerRequest>)
    ensures
        opt_request_view(r) == parse_request(msg@),
{
    let id_ref = match msg.get("id") {
        Some(i) => i,
        None => return None,
    };
    let method = match str_in(msg.get("method")) {
        Some(m) => owned(m),
        None => return None,
    };
    let params = msg.get("params");
    let id = id_ref.copy();
    if str_eq(method.as_str(), "session/request_permission") {
        let tool = first_of(get_in(params, "toolCall"), get_in(params, "tool_call"));
        let title = text_or(str_in(first_of(get_in(tool, "title"), get_in(tool, "toolCallId"))), "tool");
        let options = match get_in(params, "options") {
            Some(o) => match o.as_array() {
                Some(arr) => permission_options(arr),
                None => Vec::new(),
            },
            None => Vec::new(),
        };
        proof {
            if opt_items(opt_field(msg@.field("params"@), "options"@)) is None {
                assert(pairs_view(options@) =~= Seq::empty());
            }
        }
        return Some(ServerRequest::Permission { id, tool_title: title, options });
    }
    if contains_str(method.as_str(), "ask_user_question") {
        let q = text_or(
            str_in(first_of(at_in(at_in(at_in(params, "questions"), "0"), "question"), get_in(params, "question"))),
            "Choose:",
        );
        let opts = first_of(at_in(at_in(at_in(params, "questions"), "0"), "options"), get_in(params, "options"));
        let arr = match opts {
            Some(o) => o.as_array(),
            None => None,
        };
        let options = question_options(arr);
        return Some(ServerRequest::AskUser { id, question: q, options });
    }
    if contains_str(method.as_str(), "exit_plan_mode") {
        let content = text_or(
            str_in(first_of(get_in(params, "planContent"), get_in(params, "plan_content"))),
            "",
        );
        let plan = first_chars(content.as_str(), 1500);
        return Some(ServerRequest::ExitPlan { id, plan_excerpt: plan });
    }
    Some(ServerRequest::Other { id, method })
}

/// The event that a `session/update` notification carries, if any.
pub open spec fn update_event(msg: JsonV) -> Option<EventV> {
    let update = or_else(opt_step(msg.step("params"@), "update"@), msg.field("params"@));
    let kind = text_or_default(
        opt_text(or_else(opt_field(update, "sessionUpdate"@), opt_field(update, "session_update"@))),
        ""@,
    );
    if kind == "agent_message_chunk"@ {
        match or_else(
            opt_text(opt_step(opt_step(update, "content"@), "text"@)),
            opt_text(opt_field(update, "text"@)),
        ) {
            Some(t) => Some(EventV::AgentText(t)),
            None => None,
        }
    } else if kind == "tool_call"@ {
        match opt_text(or_else(opt_field(update, "title"@), opt_field(update, "toolCallId"@))) {
            Some(t) => Some(EventV::ToolTitle(t)),
            None => None,
        }
    } else {
        None
    }
}

/// The view of an optional event.
pub open spec fn opt_event_view(e: Option<AcpEvent>) -> Option<EventV> {
    match e {
        Some(x) => Some(x@),
        None => None,
    }
}

/// The event a `session/update` notification carries, if any: streamed
/// agent text or the title of a tool call (`update_event`).
pub fn session_update_event(msg: &Json) -> (r: Option<AcpEvent>)
    ensures
        opt_event_view(r) == update_event(msg@),
{
    let update = first_of(at_in(msg.at("params"), "update"), msg.get("params"));
    let kind = text_or(
        str_in(first_of(get_in(update, "sessionUpdate"), get_in(update, "session_update"))),
        "",
    );
    if str_eq(kind.as_str(), "agent_message_chunk") {
        let t = match str_in(at_in(at_in(update, "content"), "text")) {
            Some(t) => Some(t),
            None => str_in(get_in(update, "text")),
        };
        match t {
            Some(t) => Some(AcpEvent::AgentText(owned(t))),
            None => None,
        }
    } else if str_eq(kind.as_str(), "tool_call") {
        match str_in(first_of(get_in(update, "title"), get_in(update, "toolCallId"))) {
            Some(t) => Some(AcpEvent::ToolTitle(owned(t))),
            None => None,
        }
    } else {
        None
    }
}

/// What one line from the agent is.
#[derive(Debug)]
pub enum Incoming {
    /// A reverse request (a numeric id and a method).
    Request(ServerRequest),
    /// A reply to request `id`: the error member if there is one, else the
    /// result member (`null` when absent).
    Reply { id: u64, error: Option<Json>, result: Json },
    /// A `session/update` notification that carries an event.
    Event(AcpEvent),
    /// Anything else.
    Ignored,
}

/// The spec-level form of `Incoming`.
pub enum IncomingV {
    Request(RequestV),
    Reply { id: u64, error: Option<JsonV>, result: JsonV },
    Event(EventV),
    Ignored,
}

impl View for Incoming {
    type V = IncomingV;

    open spec fn view(&self) -> IncomingV {
        match self {
            Incoming::Request(r) => IncomingV::Request(r@),
            Incoming::Reply { id, error, result } => IncomingV::Reply {
                id: *id,
                error: match error {
                    Some(e) => Some(e@),
                    None => None,
                },
                result: result@,
            },
            Incoming::Event(e) => IncomingV::Event(e@),
            Incoming::Ignored => IncomingV::Ignored,
        }
    }
}

/// How the agent reader treats one message: a numeric id with a method is
/// a reverse request, a numeric id without one is a reply, and a
/// `session/update` notification may carry an event.
pub open spec fn classify(msg: JsonV) -> IncomingV {
    match opt_unsigned(msg.field("id"@)) {
        Some(id) => if msg.field("method"@) is Some {
            match parse_request(msg) {
                Some(r) => IncomingV::Request(r),
                None => IncomingV::Ignored,
            }
        } else {
            IncomingV::Reply {
                id,
                error: msg.field("error"@),
                result: match msg.field("result"@) {
                    Some(r) => r,
                    None => JsonV::Null,
                },
            }
        },
        None => if opt_text(msg.field("method"@)) == Some("session/update"@) {
            match update_event(msg) {
                Some(e) => IncomingV::Event(e),
                None => IncomingV::Ignored,
            }
        } else {
            IncomingV::Ignored
        },
    }
}

/// `as_u64` of an optional value.
pub open spec fn opt_unsigned(v: Option<JsonV>) -> Option<u64> {
    match v {
        Some(j) => j.unsigned(),
        None => None,
    }
}

/// Classifies one agent message (the dispatch of the agent reader).
pub fn classify_incoming(msg: &Json) -> (r: Incoming)
    ensures
        r@ == classify(msg@),
{
    let id = match msg.get("id") {
        Some(i) => i.as_u64(),
        None => None,
    };
    match id {
        Some(id) => {
            if msg.get("method").is_some() {
                match parse_server_request(msg) {
                    Some(req) => Incoming::Request(req),
                    None => Incoming::Ignored,
                }
            } else {
                let error = match msg.get("error") {
                    Some(e) => Some(e.copy()),
                    None => None,
                };
                let result = match msg.get("result") {
                    Some(r) => r.copy(),
                    None => Json::Null,
                };
                Incoming::Reply { id, error, result }
            }
        },
        None => {
            let is_update = match str_in(msg.get("method")) {
                Some(m) => str_eq(m, "session/update"),
                None => false,
            };
            if is_update {
                match session_update_event(msg) {
                    Some(e) => Incoming::Event(e),
                    None => Incoming::Ignored,
                }
            } else {
                Incoming::Ignored
            }
        },
    }
}

/// The session id in a `session/new` result (`sessionId`, else
/// `session_id`), when it is a string.
pub fn result_session_id(result: &Json) -> (r: Option<String>)
    ensures
        opt_string_view(r) == opt_text(or_else(result@.field("sessionId"@), result@.field("session_id"@))),
{
    match str_in(first_of(result.get("sessionId"), result.get("session_id"))) {
        Some(s) => Some(owned(s)),
        None => None,
    }
}

/// The stop reason in a `session/prompt` result (`stopReason`, else
/// `stop_reason`), `"ok"` when there is none.
pub fn result_stop_reason(result: &Json) -> (r: String)
    ensures
        r@ == text_or_default(
            opt_text(or_else(result@.field("stopReason"@), result@.field("stop_reason"@))),
            "ok"@,
        ),
{
    text_or(str_in(first_of(result.get("stopReason"), result.get("stop_reason"))), "ok")
}

/// The view of an optional owned text.
pub open spec fn opt_string_view(v: Option<String>) -> Option<Seq<char>> {
    match v {
        Some(s) => Some(s@),
        None => None,
    }
}

/// What the agent reader does with one line of the agent's output, given
/// what parsing it as JSON gave (`Err` with the parser's message): a blank
/// line is skipped, a line that is not JSON becomes the error event
/// `bad json: <message>`, and a JSON line is classified.
pub open spec fn line_outcome(line: Seq<char>, parsed: Result<JsonV, Seq<char>>) -> Option<IncomingV> {
    if trim(line).len() == 0 {
        None
    } else {
        match parsed {
            Ok(j) => Some(classify(j)),
            Err(e) => Some(IncomingV::Event(EventV::Error("bad json: "@ + e))),
        }
    }
}

/// The reader's treatment of one line (`line_outcome`).
pub fn line_incoming(line: &str, parsed: Result<Json, String>) -> (r: Option<Incoming>)
    ensures
        match r {
            Some(i) => Some(i@),
            None => None::<IncomingV>,
        } == line_outcome(
            line@,
            match parsed {
                Ok(j) => Ok(j@),
                Err(e) => Err(e@),
            },
        ),
{
    if is_blank(line) {
        return None;
    }
    match parsed {
        Ok(j) => Some(classify_incoming(&j)),
        Err(e) => {
            let mut m = owned("bad json: ");
            push_str(&mut m, e.as_str());
            Some(Incoming::Event(AcpEvent::Error(m)))
        },
    }
}

/// What the agent reader does with one line of the agent's output: the
/// line parsed as JSON, then `line_outcome` (a blank line is skipped, a
/// line that is not JSON is the error event `bad json: <message>`, a JSON
/// line is classified).
pub fn read_agent_line(line: &str) -> (r: Option<Incoming>)
    ensures
        match r {
            Some(i) => Some(i@),
            None => None::<IncomingV>,
        } == line_outcome(line@, json_text_value(line@)),
{
    if is_blank(line) {
        return None;
    }
    line_incoming(line, parse_json(line))
}

/// The text of one line to the agent: the message as compact JSON and a
/// newline, or the writer's error.
pub fn agent_line(msg: &Json) -> (r: Result<String, String>)
    ensures
        match r {
            Ok(t) => Ok(t@),
            Err(e) => Err(e@),
        } == match json_written(msg@) {
            Ok(t) => Ok(t.push('\n')),
            Err(e) => Err(e),
        },
{
    match write_json(msg) {
        Ok(t) => {
            let mut line = t;
            crate::text::push_char(&mut line, '\n');
            Ok(line)
        },
        Err(e) => Err(e),
    }
}

/// The last event of the agent reader: the agent's output has ended.
pub fn stdout_closed_event() -> (e: AcpEvent)
    ensures
        e@ == EventV::Error("agent stdout closed"@),
{
    AcpEvent::Error(owned("agent stdout closed"))
}

/// What the agent reader passes on for the lines of the agent's output, in
/// order, ending with the closing event once the output ends:
/// `read_agent_line` for each line, then `stdout_closed_event`.
pub open spec fn reader_output(lines: Seq<Seq<char>>) -> Seq<IncomingV>
    decreases lines.len(),
{
    if lines.len() == 0 {
        seq![IncomingV::Event(EventV::Error("agent stdout closed"@))]
    } else {
        match line_outcome(lines[0], json_text_value(lines[0])) {
            Some(i) => seq![i] + reader_output(lines.drop_first()),
            None => reader_output(lines.drop_first()),
        }
    }
}

/// The agent reader reports the end of the agent's output exactly once,
/// as its last item: no line is ever taken for it.
pub proof fn lemma_reader_closes_once(lines: Seq<Seq<char>>)
    ensures
        reader_output(lines).len() >= 1,
        reader_output(lines).last() == IncomingV::Event(EventV::Error("agent stdout closed"@)),
        forall|i: int|
            0 <= i < reader_output(lines).len() - 1 ==> #[trigger] reader_output(lines)[i]
                != IncomingV::Event(EventV::Error("agent stdout closed"@)),
    decreases lines.len(),
{
    if lines.len() > 0 {
        let rest = reader_output(lines.drop_first());
        lemma_reader_closes_once(lines.drop_first());
        match line_outcome(lines[0], json_text_value(lines[0])) {
            Some(x) => {
                assert(x != IncomingV::Event(EventV::Error("agent stdout closed"@))) by {
                    reveal_strlit("agent stdout closed");
                    reveal_strlit("bad json: ");
                    match json_text_value(lines[0]) {
                        Ok(j) => {
                            assert(x == classify(j));
                        },
                        Err(e) => {
                            assert(("bad json: "@ + e)[0] != "agent stdout closed"@[0]);
                        },
                    }
                }
                let out = seq![x] + rest;
                assert(out.last() == rest.last());
                assert forall|i: int| 0 <= i < out.len() - 1 implies #[trigger] out[i]
                    != IncomingV::Event(EventV::Error("agent stdout closed"@)) by {
                    if i > 0 {
                        assert(out[i] == rest[i - 1]);
                    }
                }
            },
            None => {},
        }
    }
}

// ---------------------------------------------------------------------
// Choosing the agent binary
// ---------------------------------------------------------------------

/// Where the agent binary comes from.
#[derive(Debug, Clone, Copy, PartialEq, Eq, Structural)]
pub enum AgentBin {
    /// The path given on the command line.
    Explicit,
    /// The path in `GORK_BIN` (or `GROK_BINARY`).
    Env,
    /// `gork` beside the running program.
    SiblingGork,
    /// `grok` beside the running program.
    SiblingGrok,
    /// `gork`, looked up on `PATH`.
    OnPath,
}

/// Picks the agent binary, first match wins: an explicit path, the
/// environment, a `gork` then a `grok` file beside the running program,
/// else `gork` on `PATH` (never the running program itself).
pub fn choose_agent_bin(explicit: bool, env_set: bool, sibling_gork: bool, sibling_grok: bool) -> (b:
    AgentBin)
    ensures
        b == (if explicit {
            AgentBin::Explicit
        } else if env_set {
            AgentBin::Env
        } else if sibling_gork {
            AgentBin::SiblingGork
        } else if sibling_grok {
            AgentBin::SiblingGrok
        } else {
            AgentBin::OnPath
        }),
{
    if explicit {
        AgentBin::Explicit
    } else if env_set {
        AgentBin::Env
    } else if sibling_gork {
        AgentBin::SiblingGork
    } else if sibling_grok {
        AgentBin::SiblingGrok
    } else {
        AgentBin::OnPath
    }
}

// ---------------------------------------------------------------------
// Attaching to a session
// ---------------------------------------------------------------------

/// A way of attaching the agent to a session: load a known session,
/// resume it, or start a new one.
#[derive(Debug, Clone, Copy, PartialEq, Eq, Structural)]
pub enum AttachStep {
    Load,
    Resume,
    New,
}

/// The first way to try: load the requested session, or start a new one
/// when none is requested.
pub fn attach_first(session_id: Option<&str>) -> (s: AttachStep)
    ensures
        s == (if session_id is Some {
            AttachStep::Load
        } else {
            AttachStep::New
        }),
{
    match session_id {
        Some(_) => AttachStep::Load,
        None => AttachStep::New,
    }
}

/// The way to try after `step` failed: a resume after a load, a new
/// session after a resume, nothing after a new session.
pub open spec fn after_failure(step: AttachStep) -> Option<AttachStep> {
    match step {
        AttachStep::Load => Some(AttachStep::Resume),
        AttachStep::Resume => Some(AttachStep::New),
        AttachStep::New => None,
    }
}

/// The way to try after `step` succeeded (`ok`) or failed: nothing after a
/// success; after a failed load a resume, after a failed resume a new
/// session, and nothing after a failed new session.
pub fn attach_next(step: AttachStep, ok: bool) -> (n: Option<AttachStep>)
    ensures
        n == (if ok {
            None
        } else {
            match step {
                AttachStep::Load => Some(AttachStep::Resume),
                AttachStep::Resume => Some(AttachStep::New),
                AttachStep::New => None,
            }
        }),
        !ok ==> n == after_failure(step),
{
    if ok {
        return None;
    }
    match step {
        AttachStep::Load => Some(AttachStep::Resume),
        AttachStep::Resume => Some(AttachStep::New),
        AttachStep::New => None,
    }
}

/// The agent method of a step.
pub fn attach_method(step: AttachStep) -> (m: &'static str)
    ensures
        m@ == match step {
            AttachStep::Load => "session/load"@,
            AttachStep::Resume => "session/resume"@,
            AttachStep::New => "session/new"@,
        },
{
    match step {
        AttachStep::Load => "session/load",
        AttachStep::Resume => "session/resume",
        AttachStep::New => "session/new",
    }
}

/// The session attached once `step` succeeded: the requested one after a
/// load or a resume, the one the agent created after a new session.
pub fn attached_id(step: AttachStep, requested: Option<String>, created: Option<String>) -> (id:
    Option<String>)
    ensures
        opt_string_view(id) == match step {
            AttachStep::New => opt_string_view(created),
            _ => opt_string_view(requested),
        },
{
    match step {
        AttachStep::New => created,
        _ => requested,
    }
}

/// The ways tried, in order, when the first `k` tries fail and the next
/// one, if any, succeeds.
pub open spec fn attach_tries(first: AttachStep, k: nat) -> Seq<AttachStep>
    decreases k,
{
    if k == 0 {
        seq![first]
    } else {
        match after_failure(first) {
            Some(next) => seq![first] + attach_tries(next, (k - 1) as nat),
            None => seq![first],
        }
    }
}

/// Attaching to a requested session tries load, then resume, then a new
/// session, and never more than those three; without a requested session
/// it only starts a new one.
pub proof fn lemma_attach_order(k: nat)
    ensures
        attach_tries(AttachStep::Load, k) == (if k == 0 {
            seq![AttachStep::Load]
        } else if k == 1 {
            seq![AttachStep::Load, AttachStep::Resume]
        } else {
            seq![AttachStep::Load, AttachStep::Resume, AttachStep::New]
        }),
        attach_tries(AttachStep::New, k) == seq![AttachStep::New],
{
    reveal_with_fuel(attach_tries, 4);
    if k >= 2 {
        assert(attach_tries(AttachStep::Resume, (k - 1) as nat) =~= seq![
            AttachStep::Resume,
            AttachStep::New,
        ]) by {
            assert(attach_tries(AttachStep::New, (k - 2) as nat) == seq![AttachStep::New]);
        }
        assert(seq![AttachStep::Load] + seq![AttachStep::Resume, AttachStep::New] =~= seq![
            AttachStep::Load,
            AttachStep::Resume,
            AttachStep::New,
        ]);
    } else if k == 1 {
        assert(seq![AttachStep::Load] + seq![AttachStep::Resume] =~= seq![
            AttachStep::Load,
            AttachStep::Resume,
        ]);
    }
}

// ---------------------------------------------------------------------
// Requests to the agent
// ---------------------------------------------------------------------

/// The `mcpServers` member the remote sends: no servers.
pub open spec fn no_servers() -> (Seq<char>, JsonV) {
    ("mcpServers"@, JsonV::Array(Seq::empty()))
}

/// The params of an attach request: `{"sessionId", "cwd", "mcpServers": []}`
/// for a load or a resume of `session_id`, `{"cwd", "mcpServers": []}` for
/// a new session; no request for a load or a resume without a session id.
pub open spec fn attach_request(step: AttachStep, session_id: Option<Seq<char>>, cwd: Seq<char>) -> Option<
    JsonV,
> {
    match step {
        AttachStep::New => Some(JsonV::Object(seq![("cwd"@, JsonV::Str(cwd)), no_servers()])),
        _ => match session_id {
            Some(id) => Some(
                JsonV::Object(seq![("sessionId"@, JsonV::Str(id)), ("cwd"@, JsonV::Str(cwd)), no_servers()]),
            ),
            None => None,
        },
    }
}

fn no_servers_member() -> (m: (String, Json))
    ensures
        (m.0@, m.1@) == no_servers(),
{
    let empty = array_of(Vec::new());
    assert(views_of(Seq::<Json>::empty()) =~= Seq::<JsonV>::empty());
    (owned("mcpServers"), empty)
}

/// The params of the attach request for `step` (`attach_request`).
pub fn attach_params(step: AttachStep, session_id: Option<&str>, cwd: &str) -> (p: Option<Json>)
    ensures
        match p {
            Some(j) => Some(j@),
            None => None::<JsonV>,
        } == attach_request(
            step,
            match session_id {
                Some(t) => Some(t@),
                None => None,
            },
            cwd@,
        ),
{
    match step {
        AttachStep::New => {
            let members = vec![(owned("cwd"), string_of(cwd)), no_servers_member()];
            assert(members_view(members@) =~= seq![("cwd"@, JsonV::Str(cwd@)), no_servers()]);
            Some(object_of(members))
        },
        _ => match session_id {
            Some(id) => {
                let members = vec![
                    (owned("sessionId"), string_of(id)),
                    (owned("cwd"), string_of(cwd)),
                    no_servers_member(),
                ];
                assert(members_view(members@) =~= seq![
                    ("sessionId"@, JsonV::Str(id@)),
                    ("cwd"@, JsonV::Str(cwd@)),
                    no_servers(),
                ]);
                Some(object_of(members))
            },
            None => None,
        },
    }
}

/// A resume asks for exactly what the failed load asked for: the same
/// session, working directory and (no) servers.
pub proof fn lemma_resume_repeats_load(session_id: Option<Seq<char>>, cwd: Seq<char>)
    ensures
        attach_request(AttachStep::Resume, session_id, cwd) == attach_request(
            AttachStep::Load,
            session_id,
            cwd,
        ),
        session_id is Some ==> attach_request(AttachStep::Load, session_id, cwd) is Some,
{
}

/// The params of a prompt: `{"sessionId", "prompt": [{"type": "text",
/// "text"}]}`, or the error `no session` when no session is attached.
pub open spec fn prompt_request(session_id: Option<Seq<char>>, text: Seq<char>) -> Result<
    JsonV,
    Seq<char>,
> {
    match session_id {
        Some(id) => Ok(
            JsonV::Object(
                seq![
                    ("sessionId"@, JsonV::Str(id)),
                    (
                        "prompt"@,
                        JsonV::Array(
                            seq![
                                JsonV::Object(
                                    seq![("type"@, JsonV::Str("text"@)), ("text"@, JsonV::Str(text))],
                                ),
                            ],
                        ),
                    ),
                ],
            ),
        ),
        None => Err("no session"@),
    }
}

/// The params of a prompt (`prompt_request`).
pub fn prompt_params(session_id: Option<&str>, text: &str) -> (r: Result<Json, String>)
    ensures
        match r {
            Ok(j) => Ok(j@),
            Err(e) => Err(e@),
        } == prompt_request(
            match session_id {
                Some(t) => Some(t@),
                None => None,
            },
            text@,
        ),
{
    match session_id {
        Some(id) => {
            let part = vec![(owned("type"), string_of("text")), (owned("text"), string_of(text))];
            assert(members_view(part@) =~= seq![
                ("type"@, JsonV::Str("text"@)),
                ("text"@, JsonV::Str(text@)),
            ]);
            let part = object_of(part);
            let items = vec![part];
            let ghost pv = items@[0]@;
            assert(views_of(items@) =~= seq![pv]);
            let prompt = array_of(items);
            let members = vec![(owned("sessionId"), string_of(id)), (owned("prompt"), prompt)];
            let ghost prv = members@[1].1@;
            assert(members_view(members@) =~= seq![("sessionId"@, JsonV::Str(id@)), ("prompt"@, prv)]);
            Ok(object_of(members))
        },
        None => Err(owned("no session")),
    }
}

/// How a prompt ends: for the agent's reply `result`, its stop reason and
/// one end-of-turn event carrying it; for a failed request, its error and
/// no event.
pub open spec fn prompt_end(reply: Result<JsonV, Seq<char>>) -> (Result<Seq<char>, Seq<char>>, Seq<EventV>) {
    match reply {
        Ok(v) => {
            let stop = text_or_default(
                opt_text(or_else(v.field("stopReason"@), v.field("stop_reason"@))),
                "ok"@,
            );
            (Ok(stop), seq![EventV::TurnDone(stop)])
        },
        Err(e) => (Err(e), Seq::empty()),
    }
}

/// How a prompt ends (`prompt_end`): the outcome, and the events to pass on.
pub fn prompt_finish(reply: Result<Json, String>) -> (r: (Result<String, String>, Vec<AcpEvent>))
    ensures
        (
            match r.0 {
                Ok(t) => Ok(t@),
                Err(e) => Err(e@),
            },
            Seq::new(r.1@.len(), |i: int| r.1@[i]@),
        ) == prompt_end(
            match reply {
                Ok(j) => Ok(j@),
                Err(e) => Err(e@),
            },
        ),
{
    match reply {
        Ok(v) => {
            let stop = result_stop_reason(&v);
            let again = stop.clone();
            let evs = vec![AcpEvent::TurnDone { stop_reason: again }];
            let ghost ev = evs@[0]@;
            assert(Seq::new(evs@.len(), |i: int| evs@[i]@) =~= seq![ev]);
            (Ok(stop), evs)
        },
        Err(e) => {
            let evs: Vec<AcpEvent> = Vec::new();
            assert(Seq::new(evs@.len(), |i: int| evs@[i]@) =~= Seq::<EventV>::empty());
            (Err(e), evs)
        },
    }
}

/// A prompt's reply ends the turn once, with its stop reason: the
/// `stopReason` string when there is one, `ok` when neither `stopReason`
/// nor `stop_reason` is there; a failed request ends nothing.
pub proof fn lemma_prompt_ends_turn(reply: Result<JsonV, Seq<char>>)
    ensures
        reply matches Ok(v) ==> ({
            let (out, evs) = prompt_end(reply);
            &&& out is Ok && evs == seq![EventV::TurnDone(out->Ok_0)]
            &&& (v.field("stopReason"@) matches Some(JsonV::Str(r)) ==> out->Ok_0 == r)
            &&& (v.field("stopReason"@) is None && v.field("stop_reason"@) is None ==> out->Ok_0
                == "ok"@)
        }),
        reply matches Err(e) ==> prompt_end(reply) == (Err::<Seq<char>, Seq<char>>(e), Seq::<
            EventV,
        >::empty()),
{
}

/// The params of the `initialize` request: protocol version 1, no file
/// system or terminal access for the agent, and the client's name and
/// version.
pub open spec fn initialize_request() -> JsonV {
    JsonV::Object(
        seq![
            ("protocolVersion"@, JsonV::Number(NumberV::PosInt(1))),
            (
                "clientCapabilities"@,
                JsonV::Object(
                    seq![
                        (
                            "fs"@,
                            JsonV::Object(
                                seq![
                                    ("readTextFile"@, JsonV::Bool(false)),
                                    ("writeTextFile"@, JsonV::Bool(false)),
                                ],
                            ),
                        ),
                        ("terminal"@, JsonV::Bool(false)),
                    ],
                ),
            ),
            (
                "clientInfo"@,
                JsonV::Object(
                    seq![("name"@, JsonV::Str("gork-telegram"@)), ("version"@, JsonV::Str("0.1.0"@))],
                ),
            ),
        ],
    )
}

/// The params of the `initialize` request (`initialize_request`).
pub fn initialize_params() -> (j: Json)
    ensures
        j@ == initialize_request(),
{
    let fs = vec![(owned("readTextFile"), Json::Bool(false)), (owned("writeTextFile"), Json::Bool(false))];
    assert(members_view(fs@) =~= seq![
        ("readTextFile"@, JsonV::Bool(false)),
        ("writeTextFile"@, JsonV::Bool(false)),
    ]);
    let fs = object_of(fs);
    let caps = vec![(owned("fs"), fs), (owned("terminal"), Json::Bool(false))];
    let ghost fsv = caps@[0].1@;
    assert(members_view(caps@) =~= seq![("fs"@, fsv), ("terminal"@, JsonV::Bool(false))]);
    let caps = object_of(caps);
    let info = vec![(owned("name"), string_of("gork-telegram")), (owned("version"), string_of("0.1.0"))];
    assert(members_view(info@) =~= seq![
        ("name"@, JsonV::Str("gork-telegram"@)),
        ("version"@, JsonV::Str("0.1.0"@)),
    ]);
    let info = object_of(info);
    let members = vec![
        (owned("protocolVersion"), Json::Number(JsonNumber::PosInt(1))),
        (owned("clientCapabilities"), caps),
        (owned("clientInfo"), info),
    ];
    let ghost cv = members@[1].1@;
    let ghost iv = members@[2].1@;
    assert(members_view(members@) =~= seq![
        ("protocolVersion"@, JsonV::Number(NumberV::PosInt(1))),
        ("clientCapabilities"@, cv),
        ("clientInfo"@, iv),
    ]);
    object_of(members)
}

/// A JSON-RPC request line: `{"jsonrpc": "2.0", "id", "method", "params"}`.
pub open spec fn request_message(id: u64, method: Seq<char>, params: JsonV) -> JsonV {
    JsonV::Object(
        seq![
            ("jsonrpc"@, JsonV::Str("2.0"@)),
            ("id"@, JsonV::Number(NumberV::PosInt(id))),
            ("method"@, JsonV::Str(method)),
            ("params"@, params),
        ],
    )
}

/// The request line for `method` with `params` (`request_message`).
pub fn request_line(id: u64, method: &str, params: Json) -> (j: Json)
    ensures
        j@ == request_message(id, method@, params@),
{
    let ghost pv = params@;
    let members = vec![
        (owned("jsonrpc"), string_of("2.0")),
        (owned("id"), Json::Number(JsonNumber::PosInt(id))),
        (owned("method"), string_of(method)),
        (owned("params"), params),
    ];
    assert(members_view(members@) =~= seq![
        ("jsonrpc"@, JsonV::Str("2.0"@)),
        ("id"@, JsonV::Number(NumberV::PosInt(id))),
        ("method"@, JsonV::Str(method@)),
        ("params"@, pv),
    ]);
    object_of(members)
}

/// A JSON-RPC answer line to the agent's request `id`:
/// `{"jsonrpc": "2.0", "id", "result"}`.
pub open spec fn response_message(id: JsonV, result: JsonV) -> JsonV {
    JsonV::Object(seq![("jsonrpc"@, JsonV::Str("2.0"@)), ("id"@, id), ("result"@, result)])
}

/// The answer line for request `id` (`response_message`).
pub fn response_line(id: Json, result: Json) -> (j: Json)
    ensures
        j@ == response_message(id@, result@),
{
    let ghost iv = id@;
    let ghost rv = result@;
    let members = vec![(owned("jsonrpc"), string_of("2.0")), (owned("id"), id), (owned("result"), result)];
    assert(members_view(members@) =~= seq![("jsonrpc"@, JsonV::Str("2.0"@)), ("id"@, iv), ("result"@, rv)]);
    object_of(members)
}

} // verus!
