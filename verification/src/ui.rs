//! Telegram cards and keyboards: the agent's reverse requests (holds), the
//! home buttons and the session picker.
use vstd::prelude::*;
use crate::acp::{RequestV, ServerRequest, pairs_view};
use crate::sessions::{EntryV, SessionEntry, entries_view};
use crate::telegram::{InlineKeyboard, esc, escape, inline_keyboard, keyboard_of, rows_view};
use crate::text::{
    can_clip, clip, clip_ok, clip_str, decimal, first_chars, owned, push_char, push_decimal, push_str,
    take_chars,
};

verus! {

/// The lines of `ls` joined with `'\n'` (`ls.join("\n")`).
pub open spec fn join_lines(ls: Seq<Seq<char>>) -> Seq<char>
    decreases ls.len(),
{
    if ls.len() == 0 {
        Seq::empty()
    } else if ls.len() == 1 {
        ls[0]
    } else {
        join_lines(ls.drop_last()) + seq!['\n'] + ls.last()
    }
}

/// The card for a permission request.
pub open spec fn permission_card_text(tool_title: Seq<char>) -> Seq<char> {
    "<b>🔐 Permission needed</b>\nTool: <b>"@ + escape(tool_title)
        + "</b>\n\nChoose approve or deny — work pauses until you answer."@
}

/// Card for a permission request: names the tool and asks to approve or
/// deny.
pub fn permission_card(tool_title: &str) -> (out: String)
    ensures
        out@ == permission_card_text(tool_title@),
{
    let mut out = owned("<b>🔐 Permission needed</b>\nTool: <b>");
    let e = esc(tool_title);
    push_str(&mut out, e.as_str());
    push_str(&mut out, "</b>\n\nChoose approve or deny — work pauses until you answer.");
    out
}

/// A button label: at most 40 bytes as it is, else its first 39 bytes and
/// an ellipsis.
pub open spec fn button_label(name: Seq<char>) -> Seq<char> {
    clip(name, 40, 39)
}

/// Every label of `options` can be cut for a button without splitting a
/// character (the labels on which the keyboards do not panic).
pub open spec fn labels_ok(options: Seq<(Seq<char>, Seq<char>)>) -> bool {
    forall|i: int| 0 <= i < options.len() ==> clip_ok(#[trigger] options[i].1, 40, 39)
}

/// Whether every label of `options` can be cut for a button.
pub fn labels_can_clip(options: &[(String, String)]) -> (r: bool)
    ensures
        r == labels_ok(pairs_view(options@)),
{
    let mut i: usize = 0;
    while i < options.len()
        invariant
            0 <= i <= options@.len(),
            forall|j: int| 0 <= j < i ==> clip_ok(options@[j].1@, 40, 39),
        decreases options@.len() - i,
    {
        if !can_clip(options[i].1.as_str(), 40, 39) {
            assert(pairs_view(options@)[i as int].1 == options@[i as int].1@);
            return false;
        }
        i = i + 1;
    }
    true
}

/// The rows of the permission keyboard, before the callback data cap.
pub open spec fn permission_rows(options: Seq<(Seq<char>, Seq<char>)>) -> Seq<
    Seq<(Seq<char>, Seq<char>)>,
> {
    if options.len() == 0 {
        seq![
            seq![("✅ Allow once"@, "p:allow-once"@)],
            seq![("❌ Deny"@, "p:reject-once"@)],
        ]
    } else {
        options.map_values(
            |o: (Seq<char>, Seq<char>)| seq![(button_label(o.1), "p:"@ + o.0)],
        )
    }
}

/// One button row per (optionId, name): the name as label and
/// `p:<optionId>` as callback data; allow-once / deny when there are none.
pub fn permission_keyboard(options: &[(String, String)]) -> (kb: InlineKeyboard)
    requires
        labels_ok(pairs_view(options@)),
    ensures
        kb@ == keyboard_of(permission_rows(pairs_view(options@))),
{
    let mut rows: Vec<Vec<(String, String)>> = Vec::new();
    let mut i: usize = 0;
    while i < options.len()
        invariant
            0 <= i <= options@.len(),
            labels_ok(pairs_view(options@)),
            rows@.len() == i,
            forall|k: int|
                0 <= k < i ==> #[trigger] pairs_view(rows@[k]@) == seq![
                    (button_label(options@[k].1@), "p:"@ + options@[k].0@),
                ],
        decreases options@.len() - i,
    {
        assert(pairs_view(options@)[i as int].1 == options@[i as int].1@);
        let label = clip_str(options[i].1.as_str(), 40, 39);
        let mut data = owned("p:");
        push_str(&mut data, options[i].0.as_str());
        let row = vec![(label, data)];
        assert(pairs_view(row@) =~= seq![
            (button_label(options@[i as int].1@), "p:"@ + options@[i as int].0@),
        ]);
        rows.push(row);
        i = i + 1;
    }
    if rows.len() == 0 {
        rows.push(vec![(owned("✅ Allow once"), owned("p:allow-once"))]);
        rows.push(vec![(owned("❌ Deny"), owned("p:reject-once"))]);
    }
    proof {
        let want = permission_rows(pairs_view(options@));
        assert(rows_view(rows@).len() == want.len());
        assert forall|k: int| 0 <= k < want.len() implies rows_view(rows@)[k] =~= want[k] by {
            if options@.len() == 0 {
                assert(pairs_view(rows@[k]@) =~= want[k]);
            }
        }
        assert(rows_view(rows@) =~= want);
    }
    inline_keyboard(rows)
}

/// The line for option `i` of a question: `"{i+1}. <b>{label}</b>"`.
pub open spec fn question_line(i: int, label: Seq<char>) -> Seq<char> {
    decimal((i + 1) as nat) + ". <b>"@ + escape(label) + "</b>"@
}

/// The lines of a question card.
pub open spec fn question_lines(question: Seq<char>, options: Seq<(Seq<char>, Seq<char>)>) -> Seq<
    Seq<char>,
> {
    seq!["<b>❓ Gork is asking</b>"@, escape(question), Seq::empty()] + options.map(
        |i: int, o: (Seq<char>, Seq<char>)| question_line(i, o.1),
    ) + seq!["\nTap an option, or type a custom answer."@]
}

/// Joining one more line adds a newline and the line.
pub proof fn lemma_join_push(ls: Seq<Seq<char>>, x: Seq<char>)
    requires
        ls.len() >= 1,
    ensures
        join_lines(ls.push(x)) == join_lines(ls) + seq!['\n'] + x,
{
    assert(ls.push(x).drop_last() =~= ls);
}

/// Card for a question: the question, then its options numbered from 1.
pub fn question_card(question: &str, options: &[(String, String)]) -> (out: String)
    ensures
        out@ == join_lines(question_lines(question@, pairs_view(options@))),
{
    let ghost opts = pairs_view(options@);
    let ghost head = seq!["<b>❓ Gork is asking</b>"@, escape(question@), Seq::<char>::empty()];
    let ghost lines = opts.map(|i: int, o: (Seq<char>, Seq<char>)| question_line(i, o.1));
    let mut out = owned("<b>❓ Gork is asking</b>");
    push_char(&mut out, '\n');
    let e = esc(question);
    push_str(&mut out, e.as_str());
    push_char(&mut out, '\n');
    proof {
        let h1 = seq!["<b>❓ Gork is asking</b>"@];
        assert(join_lines(h1) == "<b>❓ Gork is asking</b>"@);
        lemma_join_push(h1, escape(question@));
        assert(h1.push(escape(question@)) =~= seq!["<b>❓ Gork is asking</b>"@, escape(question@)]);
        lemma_join_push(seq!["<b>❓ Gork is asking</b>"@, escape(question@)], Seq::empty());
        assert(seq!["<b>❓ Gork is asking</b>"@, escape(question@)].push(Seq::<char>::empty()) =~= head);
        assert(out@ =~= join_lines(head));
        assert(head + lines.take(0) =~= head);
    }
    let mut i: usize = 0;
    while i < options.len()
        invariant
            0 <= i <= options@.len(),
            opts == pairs_view(options@),
            lines == opts.map(|i: int, o: (Seq<char>, Seq<char>)| question_line(i, o.1)),
            head.len() == 3,
            out@ == join_lines(head + lines.take(i as int)),
        decreases options@.len() - i,
    {
        push_char(&mut out, '\n');
        push_decimal(&mut out, (i + 1) as u64);
        push_str(&mut out, ". <b>");
        let e = esc(options[i].1.as_str());
        push_str(&mut out, e.as_str());
        push_str(&mut out, "</b>");
        proof {
            lemma_join_push(head + lines.take(i as int), lines[i as int]);
            assert((head + lines.take(i as int)).push(lines[i as int]) =~= head + lines.take(i + 1));
            assert(lines[i as int] == question_line(i as int, options@[i as int].1@));
            assert(out@ =~= join_lines(head + lines.take(i + 1)));
        }
        i = i + 1;
    }
    push_char(&mut out, '\n');
    push_str(&mut out, "\nTap an option, or type a custom answer.");
    proof {
        assert(lines.take(options@.len() as int) =~= lines);
        lemma_join_push(head + lines, "\nTap an option, or type a custom answer."@);
        assert((head + lines).push("\nTap an option, or type a custom answer."@) =~= question_lines(
            question@,
            opts,
        ));
    }
    out
}

/// The rows of a question keyboard, before the callback data cap.
pub open spec fn question_rows(options: Seq<(Seq<char>, Seq<char>)>) -> Seq<
    Seq<(Seq<char>, Seq<char>)>,
> {
    options.map_values(|o: (Seq<char>, Seq<char>)| seq![(button_label(o.1), "q:"@ + o.0)])
}

/// One button row per (id, label): the label and `q:<id>` as callback
/// data.
pub fn question_keyboard(options: &[(String, String)]) -> (kb: InlineKeyboard)
    requires
        labels_ok(pairs_view(options@)),
    ensures
        kb@ == keyboard_of(question_rows(pairs_view(options@))),
{
    let mut rows: Vec<Vec<(String, String)>> = Vec::new();
    let mut i: usize = 0;
    while i < options.len()
        invariant
            0 <= i <= options@.len(),
            labels_ok(pairs_view(options@)),
            rows@.len() == i,
            forall|k: int|
                0 <= k < i ==> #[trigger] pairs_view(rows@[k]@) == seq![
                    (button_label(options@[k].1@), "q:"@ + options@[k].0@),
                ],
        decreases options@.len() - i,
    {
        assert(pairs_view(options@)[i as int].1 == options@[i as int].1@);
        let label = clip_str(options[i].1.as_str(), 40, 39);
        let mut data = owned("q:");
        push_str(&mut data, options[i].0.as_str());
        let row = vec![(label, data)];
        assert(pairs_view(row@) =~= seq![
            (button_label(options@[i as int].1@), "q:"@ + options@[i as int].0@),
        ]);
        rows.push(row);
        i = i + 1;
    }
    assert(rows_view(rows@) =~= question_rows(pairs_view(options@)));
    inline_keyboard(rows)
}

/// The card for a plan.
pub open spec fn plan_card_text(excerpt: Seq<char>) -> Seq<char> {
    "<b>📋 Plan ready</b>\n\n"@ + escape(clip(excerpt, 1200, 1199))
        + "\n\nApprove to build, request changes, or quit plan mode."@
}

/// Card for a plan: the plan (at most 1200 bytes as it is, else its first
/// 1199 bytes and an ellipsis) and the three choices.
pub fn plan_card(excerpt: &str) -> (out: String)
    requires
        clip_ok(excerpt@, 1200, 1199),
    ensures
        out@ == plan_card_text(excerpt@),
{
    let body = clip_str(excerpt, 1200, 1199);
    let mut out = owned("<b>📋 Plan ready</b>\n\n");
    let e = esc(body.as_str());
    push_str(&mut out, e.as_str());
    push_str(&mut out, "\n\nApprove to build, request changes, or quit plan mode.");
    out
}

/// The rows of the plan keyboard.
pub open spec fn plan_rows() -> Seq<Seq<(Seq<char>, Seq<char>)>> {
    seq![
        seq![("✅ Approve"@, "pl:approve"@)],
        seq![("✏️ Revise"@, "pl:revise"@)],
        seq![("❌ Quit"@, "pl:quit"@)],
    ]
}

/// Approve / revise / quit buttons for a plan.
pub fn plan_keyboard() -> (kb: InlineKeyboard)
    ensures
        kb@ == keyboard_of(plan_rows()),
{
    let r0 = vec![(owned("✅ Approve"), owned("pl:approve"))];
    let r1 = vec![(owned("✏️ Revise"), owned("pl:revise"))];
    let r2 = vec![(owned("❌ Quit"), owned("pl:quit"))];
    assert(pairs_view(r0@) =~= seq![("✅ Approve"@, "pl:approve"@)]);
    assert(pairs_view(r1@) =~= seq![("✏️ Revise"@, "pl:revise"@)]);
    assert(pairs_view(r2@) =~= seq![("❌ Quit"@, "pl:quit"@)]);
    let rows = vec![r0, r1, r2];
    assert(rows_view(rows@) =~= plan_rows());
    inline_keyboard(rows)
}

/// The requests whose cards can be built without a panic: labels and plan
/// excerpts that need cutting are cut on a character boundary.
pub open spec fn card_ok(r: RequestV) -> bool {
    match r {
        RequestV::Permission { options, .. } => labels_ok(options),
        RequestV::AskUser { options, .. } => labels_ok(options),
        RequestV::ExitPlan { plan_excerpt, .. } => clip_ok(plan_excerpt, 1200, 1199),
        RequestV::Other { .. } => true,
    }
}

/// Whether the card for `req` can be built (`card_ok`).
pub fn card_can_build(req: &ServerRequest) -> (r: bool)
    ensures
        r == card_ok(req@),
{
    match req {
        ServerRequest::Permission { options, .. } => labels_can_clip(options.as_slice()),
        ServerRequest::AskUser { options, .. } => labels_can_clip(options.as_slice()),
        ServerRequest::ExitPlan { plan_excerpt, .. } => can_clip(plan_excerpt.as_str(), 1200, 1199),
        ServerRequest::Other { .. } => true,
    }
}

/// The card text and keyboard for a reverse request.
pub open spec fn card_of(r: RequestV) -> (Seq<char>, Option<Seq<Seq<(Seq<char>, Seq<char>)>>>) {
    match r {
        RequestV::Permission { tool_title, options, .. } => (
            permission_card_text(tool_title),
            Some(keyboard_of(permission_rows(options))),
        ),
        RequestV::AskUser { question, options, .. } => (
            join_lines(question_lines(question, options)),
            Some(keyboard_of(question_rows(options))),
        ),
        RequestV::ExitPlan { plan_excerpt, .. } => (
            plan_card_text(plan_excerpt),
            Some(keyboard_of(plan_rows())),
        ),
        RequestV::Other { method, .. } => (
            "Unhandled reverse-request: <code>"@ + escape(method) + "</code>"@,
            None,
        ),
    }
}

/// The view of an optional keyboard.
pub open spec fn opt_keyboard_view(k: Option<InlineKeyboard>) -> Option<
    Seq<Seq<(Seq<char>, Seq<char>)>>,
> {
    match k {
        Some(kb) => Some(kb@),
        None => None,
    }
}

/// The card and keyboard that show a reverse request on the phone.
pub fn card_for_request(req: &ServerRequest) -> (out: (String, Option<InlineKeyboard>))
    requires
        card_ok(req@),
    ensures
        (out.0@, opt_keyboard_view(out.1)) == card_of(req@),
{
    match req {
        ServerRequest::Permission { tool_title, options, .. } => (
            permission_card(tool_title.as_str()),
            Some(permission_keyboard(options.as_slice())),
        ),
        ServerRequest::AskUser { question, options, .. } => (
            question_card(question.as_str(), options.as_slice()),
            Some(question_keyboard(options.as_slice())),
        ),
        ServerRequest::ExitPlan { plan_excerpt, .. } => (
            plan_card(plan_excerpt.as_str()),
            Some(plan_keyboard()),
        ),
        ServerRequest::Other { method, .. } => {
            let mut t = owned("Unhandled reverse-request: <code>");
            let e = esc(method.as_str());
            push_str(&mut t, e.as_str());
            push_str(&mut t, "</code>");
            (t, None)
        },
    }
}

/// What each card offers: a permission card names the tool and has one
/// button per option, labelled by its name and sending `p:<optionId>` (or
/// "Allow once" / "Deny" sending `p:allow-once` / `p:reject-once` when the
/// request lists none); a question card has one button per option sending
/// `q:<id>`; a plan card has Approve / Revise / Quit sending `pl:approve`,
/// `pl:revise`, `pl:quit`; any other request is reported with its method
/// and no buttons.
pub proof fn lemma_card_buttons(r: RequestV)
    ensures
        r matches RequestV::Permission { tool_title, options, .. } ==> ({
            let rows = permission_rows(options);
            &&& card_of(r).0 == "<b>🔐 Permission needed</b>\nTool: <b>"@ + escape(tool_title)
                + "</b>\n\nChoose approve or deny — work pauses until you answer."@
            &&& card_of(r).1 == Some(keyboard_of(rows))
            &&& options.len() == 0 ==> rows == seq![
                seq![("✅ Allow once"@, "p:allow-once"@)],
                seq![("❌ Deny"@, "p:reject-once"@)],
            ]
            &&& options.len() > 0 ==> rows.len() == options.len() && forall|i: int|
                0 <= i < options.len() ==> #[trigger] rows[i] == seq![
                    (clip(options[i].1, 40, 39), "p:"@ + options[i].0),
                ]
        }),
        r matches RequestV::AskUser { options, .. } ==> ({
            let rows = question_rows(options);
            &&& card_of(r).1 == Some(keyboard_of(rows))
            &&& rows.len() == options.len()
            &&& forall|i: int|
                0 <= i < options.len() ==> #[trigger] rows[i] == seq![
                    (clip(options[i].1, 40, 39), "q:"@ + options[i].0),
                ]
        }),
        r is ExitPlan ==> card_of(r).1 == Some(
            keyboard_of(
                seq![
                    seq![("✅ Approve"@, "pl:approve"@)],
                    seq![("✏️ Revise"@, "pl:revise"@)],
                    seq![("❌ Quit"@, "pl:quit"@)],
                ],
            ),
        ),
        r matches RequestV::Other { method, .. } ==> card_of(r) == (
            "Unhandled reverse-request: <code>"@ + escape(method) + "</code>"@,
            None::<Seq<Seq<(Seq<char>, Seq<char>)>>>,
        ),
{
}

// ---------------------------------------------------------------------
// Home buttons and the session picker
// ---------------------------------------------------------------------

/// The rows of the home keyboard shown with the help card.
pub open spec fn home_rows() -> Seq<Seq<(Seq<char>, Seq<char>)>> {
    seq![
        seq![("📂 Sessions"@, "sessions"@), ("🆕 New"@, "new"@)],
        seq![("📤 Drain→live"@, "drain"@)],
    ]
}

/// Sessions / new / drain buttons for the help card.
pub fn home_keyboard() -> (kb: InlineKeyboard)
    ensures
        kb@ == keyboard_of(home_rows()),
{
    let r0 = vec![(owned("📂 Sessions"), owned("sessions")), (owned("🆕 New"), owned("new"))];
    let r1 = vec![(owned("📤 Drain→live"), owned("drain"))];
    assert(pairs_view(r0@) =~= seq![("📂 Sessions"@, "sessions"@), ("🆕 New"@, "new"@)]);
    assert(pairs_view(r1@) =~= seq![("📤 Drain→live"@, "drain"@)]);
    let rows = vec![r0, r1];
    assert(rows_view(rows@) =~= home_rows());
    inline_keyboard(rows)
}

/// The button of one session: its title (at most 40 characters), pressing
/// it attaches to the session.
pub open spec fn session_button(e: EntryV) -> (Seq<char>, Seq<char>) {
    ("▶ "@ + take_chars(e.title, 40), "use:"@ + e.session_id)
}

/// The rows of the session picker: one per session, in the given order,
/// then a button for a new session.
pub open spec fn session_rows(es: Seq<EntryV>) -> Seq<Seq<(Seq<char>, Seq<char>)>> {
    Seq::new(es.len(), |i: int| seq![session_button(es[i])]).push(seq![("🆕 New"@, "new"@)])
}

/// The text of the session picker.
pub open spec fn sessions_card_text(n: nat) -> Seq<char> {
    if n == 0 {
        "📂 No sessions yet. Start a new one:"@
    } else {
        "📂 <b>Sessions</b> (newest first) — tap one to use it:"@
    }
}

/// The session picker for the given sessions: its text and keyboard.
pub fn sessions_card(entries: &Vec<SessionEntry>) -> (out: (String, InlineKeyboard))
    ensures
        out.0@ == sessions_card_text(entries@.len() as nat),
        out.1@ == keyboard_of(session_rows(entries_view(entries@))),
{
    let ghost es = entries_view(entries@);
    let mut rows: Vec<Vec<(String, String)>> = Vec::new();
    let mut i: usize = 0;
    while i < entries.len()
        invariant
            es == entries_view(entries@),
            0 <= i <= entries@.len(),
            rows@.len() == i,
            forall|k: int| 0 <= k < i ==> #[trigger] pairs_view(rows@[k]@) == seq![session_button(es[k])],
        decreases entries@.len() - i,
    {
        let mut label = owned("▶ ");
        let t = first_chars(entries[i].title.as_str(), 40);
        push_str(&mut label, t.as_str());
        let mut data = owned("use:");
        push_str(&mut data, entries[i].session_id.as_str());
        let row = vec![(label, data)];
        assert(pairs_view(row@) =~= seq![session_button(es[i as int])]);
        rows.push(row);
        i = i + 1;
    }
    let last = vec![(owned("🆕 New"), owned("new"))];
    assert(pairs_view(last@) =~= seq![("🆕 New"@, "new"@)]);
    rows.push(last);
    assert(rows_view(rows@) =~= session_rows(es));
    let text = if entries.len() == 0 {
        owned("📂 No sessions yet. Start a new one:")
    } else {
        owned("📂 <b>Sessions</b> (newest first) — tap one to use it:")
    };
    (text, inline_keyboard(rows))
}

} // verus!
