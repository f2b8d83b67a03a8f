//! Telegram Bot API data: the updates the remote reads, HTML escaping and
//! inline keyboards for the messages it sends.
use vstd::prelude::*;
use vstd::utf8::{encode_scalar, encode_utf8};
use crate::acp::pairs_view;
use crate::json::{Json, JsonNumber, JsonV, NumberV, array_of, members_view, object_of, string_of, views_of};
use crate::text::{chars_of, clip, clip_ok, clip_str, first_chars, push_str, take_chars};

verus! {

/// One item of a `getUpdates` reply.
#[derive(Debug, Clone)]
pub struct Update {
    pub update_id: i64,
    pub message: Option<Message>,
    pub callback_query: Option<CallbackQuery>,
}

/// A chat message.
#[derive(Debug, Clone)]
pub struct Message {
    pub message_id: i64,
    pub chat: Chat,
    pub from: Option<User>,
    pub text: Option<String>,
    pub caption: Option<String>,
    pub photo: Option<Vec<PhotoSize>>,
    pub document: Option<Document>,
}

/// One size of a sent photo.
#[derive(Debug, Clone)]
pub struct PhotoSize {
    pub file_id: String,
    pub file_unique_id: Option<String>,
    pub width: Option<i64>,
    pub height: Option<i64>,
    pub file_size: Option<i64>,
}

/// A sent file.
#[derive(Debug, Clone)]
pub struct Document {
    pub file_id: String,
    pub file_name: Option<String>,
    pub mime_type: Option<String>,
    pub file_size: Option<i64>,
}

/// A press on an inline keyboard button.
#[derive(Debug, Clone)]
pub struct CallbackQuery {
    pub id: String,
    pub from: User,
    pub message: Option<Message>,
    pub data: Option<String>,
}

/// A chat.
#[derive(Debug, Clone)]
pub struct Chat {
    pub id: i64,
}

/// A Telegram user.
#[derive(Debug, Clone)]
pub struct User {
    pub id: i64,
}

/// A photo or file attached to a message: the file to download, the
/// sender's name for it (files only) and whether it is a photo.
pub struct MediaV {
    pub file_id: Seq<char>,
    pub file_name: Option<Seq<char>>,
    pub is_image: bool,
}

/// What the remote reads of a message: its id, chat, sender, text, caption
/// and attached photo or file.
pub struct MessageV {
    pub message_id: i64,
    pub chat_id: i64,
    pub from: Option<i64>,
    pub text: Option<Seq<char>>,
    pub caption: Option<Seq<char>>,
    pub media: Option<MediaV>,
}

/// What the remote reads of a button press.
pub struct CallbackV {
    pub id: Seq<char>,
    pub from: i64,
    pub chat_id: Option<i64>,
    pub data: Option<Seq<char>>,
}

/// What the remote reads of an update.
pub struct UpdateV {
    pub update_id: i64,
    pub message: Option<MessageV>,
    pub callback: Option<CallbackV>,
}

/// The optional text behind an optional `String`.
pub open spec fn opt_string(s: Option<String>) -> Option<Seq<char>> {
    match s {
        Some(t) => Some(t@),
        None => None,
    }
}

/// The attachment of a message: the largest (last) size of a photo, else
/// the document.
pub open spec fn media_of(photo: Option<Vec<PhotoSize>>, document: Option<Document>) -> Option<
    MediaV,
> {
    match photo {
        Some(ps) if ps@.len() > 0 => Some(
            MediaV { file_id: ps@.last().file_id@, file_name: None, is_image: true },
        ),
        _ => match document {
            Some(d) => Some(
                MediaV { file_id: d.file_id@, file_name: opt_string(d.file_name), is_image: false },
            ),
            None => None,
        },
    }
}

impl View for Message {
    type V = MessageV;

    open spec fn view(&self) -> MessageV {
        MessageV {
            message_id: self.message_id,
            chat_id: self.chat.id,
            from: match self.from {
                Some(u) => Some(u.id),
                None => None,
            },
            text: opt_string(self.text),
            caption: opt_string(self.caption),
            media: media_of(self.photo, self.document),
        }
    }
}

/// An attachment of a message, as owned parts.
#[derive(Debug)]
pub struct Media {
    pub file_id: String,
    pub file_name: Option<String>,
    pub is_image: bool,
}

impl View for Media {
    type V = MediaV;

    open spec fn view(&self) -> MediaV {
        MediaV { file_id: self.file_id@, file_name: opt_string(self.file_name), is_image: self.is_image }
    }
}

/// The attachment of a message (`media_of`).
pub fn message_media(m: &Message) -> (r: Option<Media>)
    ensures
        match r {
            Some(x) => Some(x@),
            None => None::<MediaV>,
        } == m@.media,
{
    match &m.photo {
        Some(ps) => {
            if ps.len() > 0 {
                let last = &ps[ps.len() - 1];
                return Some(Media { file_id: last.file_id.clone(), file_name: None, is_image: true });
            }
        },
        None => {},
    }
    match &m.document {
        Some(d) => Some(
            Media {
                file_id: d.file_id.clone(),
                file_name: match &d.file_name {
                    Some(n) => Some(n.clone()),
                    None => None,
                },
                is_image: false,
            },
        ),
        None => None,
    }
}

impl View for CallbackQuery {
    type V = CallbackV;

    open spec fn view(&self) -> CallbackV {
        CallbackV {
            id: self.id@,
            from: self.from.id,
            chat_id: match self.message {
                Some(m) => Some(m.chat.id),
                None => None,
            },
            data: opt_string(self.data),
        }
    }
}

impl View for Update {
    type V = UpdateV;

    open spec fn view(&self) -> UpdateV {
        UpdateV {
            update_id: self.update_id,
            message: match self.message {
                Some(m) => Some(m@),
                None => None,
            },
            callback: match self.callback_query {
                Some(c) => Some(c@),
                None => None,
            },
        }
    }
}

/// How one character reads in Telegram HTML.
pub open spec fn esc_char(c: char) -> Seq<char> {
    if c == '&' {
        "&amp;"@
    } else if c == '<' {
        "&lt;"@
    } else if c == '>' {
        "&gt;"@
    } else {
        seq![c]
    }
}

/// `s` escaped for Telegram HTML: `&`, `<` and `>` become entities.
pub open spec fn escape(s: Seq<char>) -> Seq<char>
    decreases s.len(),
{
    if s.len() == 0 {
        Seq::empty()
    } else {
        escape(s.drop_last()) + esc_char(s.last())
    }
}

/// Escape for Telegram HTML.
pub fn esc(s: &str) -> (out: String)
    ensures
        out@ == escape(s@),
{
    let cs = chars_of(s);
    let mut out = String::new();
    let mut i: usize = 0;
    while i < cs.len()
        invariant
            cs@ == s@,
            0 <= i <= cs@.len(),
            out@ == escape(cs@.take(i as int)),
        decreases cs@.len() - i,
    {
        let c = cs[i];
        if c == '&' {
            push_str(&mut out, "&amp;");
        } else if c == '<' {
            push_str(&mut out, "&lt;");
        } else if c == '>' {
            push_str(&mut out, "&gt;");
        } else {
            crate::text::push_char(&mut out, c);
        }
        assert(cs@.take(i + 1).drop_last() =~= cs@.take(i as int));
        i = i + 1;
    }
    assert(cs@.take(cs@.len() as int) =~= cs@);
    out
}

/// Escaped text is safe HTML text: it holds no `<` and no `>`.
pub proof fn lemma_escape_has_no_tags(s: Seq<char>)
    ensures
        forall|i: int| 0 <= i < escape(s).len() ==> #[trigger] escape(s)[i] != '<' && escape(s)[i] != '>',
    decreases s.len(),
{
    reveal_strlit("&amp;");
    reveal_strlit("&lt;");
    reveal_strlit("&gt;");
    if s.len() > 0 {
        lemma_escape_has_no_tags(s.drop_last());
        let a = escape(s.drop_last());
        let b = esc_char(s.last());
        assert forall|i: int| 0 <= i < escape(s).len() implies #[trigger] escape(s)[i] != '<'
            && escape(s)[i] != '>' by {
            if i < a.len() {
                assert(escape(s)[i] == a[i]);
            } else {
                assert(escape(s)[i] == b[i - a.len()]);
            }
        }
    }
}

/// Escaping works character by character: escaping a joined text joins
/// the escaped parts.
pub proof fn lemma_escape_concat(a: Seq<char>, b: Seq<char>)
    ensures
        escape(a + b) == escape(a) + escape(b),
    decreases b.len(),
{
    if b.len() == 0 {
        assert(a + b =~= a);
        assert(escape(a) + escape(b) =~= escape(a));
    } else {
        lemma_escape_concat(a, b.drop_last());
        assert((a + b).drop_last() =~= a + b.drop_last());
        assert((a + b).last() == b.last());
        assert(escape(a) + escape(b.drop_last()) + esc_char(b.last()) =~= escape(a) + (escape(
            b.drop_last(),
        ) + esc_char(b.last())));
    }
}

/// Reading Telegram HTML text back: the entities `&amp;`, `&lt;` and `&gt;`
/// become `&`, `<` and `>`, read from the left; every other character
/// stands for itself.
pub open spec fn unescape(t: Seq<char>) -> Seq<char>
    decreases t.len(),
{
    if t.len() == 0 {
        Seq::empty()
    } else if t.len() >= 5 && t.take(5) == "&amp;"@ {
        seq!['&'] + unescape(t.skip(5))
    } else if t.len() >= 4 && t.take(4) == "&lt;"@ {
        seq!['<'] + unescape(t.skip(4))
    } else if t.len() >= 4 && t.take(4) == "&gt;"@ {
        seq!['>'] + unescape(t.skip(4))
    } else {
        seq![t[0]] + unescape(t.skip(1))
    }
}

/// Escaping loses nothing: reading the escaped text back gives the text.
pub proof fn lemma_unescape_escape(s: Seq<char>)
    ensures
        unescape(escape(s)) == s,
    decreases s.len(),
{
    reveal_strlit("&amp;");
    reveal_strlit("&lt;");
    reveal_strlit("&gt;");
    if s.len() > 0 {
        let c = s[0];
        let r = s.drop_first();
        lemma_unescape_escape(r);
        assert(s =~= seq![c] + r);
        lemma_escape_concat(seq![c], r);
        assert(escape(seq![c]) == esc_char(c)) by {
            reveal_with_fuel(escape, 2);
            assert(seq![c].drop_last() =~= Seq::<char>::empty());
            assert(seq![c].last() == c);
            assert(escape(Seq::<char>::empty()) == Seq::<char>::empty());
            assert(Seq::<char>::empty() + esc_char(c) =~= esc_char(c));
        }
        let e = escape(r);
        let t = esc_char(c) + e;
        assert(escape(s) == t);
        if c == '&' {
            assert(t.take(5) =~= "&amp;"@);
            assert(t.skip(5) =~= e);
        } else if c == '<' {
            assert(t[1] == 'l');
            assert(t.take(4) =~= "&lt;"@);
            assert(t.skip(4) =~= e);
        } else if c == '>' {
            assert(t[1] == 'g');
            assert(t.take(4) =~= "&gt;"@);
            assert(t.skip(4) =~= e);
        } else {
            assert(t[0] == c);
            assert(t.skip(1) =~= e);
            if t.len() >= 5 {
                assert(t.take(5)[0] != "&amp;"@[0]);
            }
            if t.len() >= 4 {
                assert(t.take(4)[0] != "&lt;"@[0]);
                assert(t.take(4)[0] != "&gt;"@[0]);
            }
        }
        assert(unescape(t) =~= seq![c] + r);
    }
}

/// `s` with each occurrence of the non-empty `pat` replaced by `rep`, read
/// from the left without overlaps (`str::replace`).
pub open spec fn replace_all(s: Seq<char>, pat: Seq<char>, rep: Seq<char>) -> Seq<char>
    decreases s.len(),
{
    if s.len() == 0 || pat.len() == 0 {
        s
    } else if pat.is_prefix_of(s) {
        rep + replace_all(s.skip(pat.len() as int), pat, rep)
    } else {
        seq![s[0]] + replace_all(s.drop_first(), pat, rep)
    }
}

/// What a character reads as after `k` of the three replacements
/// (`&lt;`, then `&gt;`, then `&amp;`) undoing its escape.
pub open spec fn undo_piece(k: nat, c: char) -> Seq<char> {
    if k == 0 {
        esc_char(c)
    } else if k == 1 {
        if c == '<' {
            seq!['<']
        } else {
            esc_char(c)
        }
    } else if k == 2 {
        if c == '&' {
            "&amp;"@
        } else {
            seq![c]
        }
    } else {
        seq![c]
    }
}

/// The pieces of `s` after `k` replacements, joined.
pub open spec fn undo_pieces(s: Seq<char>, k: nat) -> Seq<char>
    decreases s.len(),
{
    if s.len() == 0 {
        s
    } else {
        undo_piece(k, s[0]) + undo_pieces(s.drop_first(), k)
    }
}

/// The pattern of the `k`-th replacement, and what it becomes.
pub open spec fn undo_pattern(k: nat) -> (Seq<char>, Seq<char>) {
    if k == 0 {
        ("&lt;"@, seq!['<'])
    } else if k == 1 {
        ("&gt;"@, seq!['>'])
    } else {
        ("&amp;"@, seq!['&'])
    }
}

proof fn lemma_replace_skips_plain(x: Seq<char>, y: Seq<char>, pat: Seq<char>, rep: Seq<char>)
    requires
        pat.len() > 0,
        pat[0] == '&',
        forall|i: int| 0 <= i < x.len() ==> x[i] != '&',
    ensures
        replace_all(x + y, pat, rep) == x + replace_all(y, pat, rep),
    decreases x.len(),
{
    if x.len() == 0 {
        assert(x + y =~= y);
        assert(x + replace_all(y, pat, rep) =~= replace_all(y, pat, rep));
    } else {
        let t = x + y;
        assert(t[0] == x[0]);
        assert(!pat.is_prefix_of(t)) by {
            if pat.is_prefix_of(t) {
                assert(t.take(pat.len() as int)[0] == pat[0]);
            }
        }
        assert(t.drop_first() =~= x.drop_first() + y);
        lemma_replace_skips_plain(x.drop_first(), y, pat, rep);
        assert(seq![x[0]] + (x.drop_first() + replace_all(y, pat, rep)) =~= x + replace_all(
            y,
            pat,
            rep,
        ));
    }
}

proof fn lemma_replace_skips_entity(e: Seq<char>, y: Seq<char>, pat: Seq<char>, rep: Seq<char>)
    requires
        pat.len() >= 2,
        pat[0] == '&',
        e.len() >= 2,
        e[0] == '&',
        e[1] != pat[1],
        forall|i: int| 1 <= i < e.len() ==> e[i] != '&',
    ensures
        replace_all(e + y, pat, rep) == e + replace_all(y, pat, rep),
{
    let t = e + y;
    assert(!pat.is_prefix_of(t)) by {
        if pat.is_prefix_of(t) {
            assert(t.take(pat.len() as int)[1] == pat[1]);
            assert(t[1] == e[1]);
        }
    }
    let x = e.drop_first();
    assert(t.drop_first() =~= x + y);
    lemma_replace_skips_plain(x, y, pat, rep);
    assert(seq![e[0]] + (x + replace_all(y, pat, rep)) =~= e + replace_all(y, pat, rep));
}

proof fn lemma_undo_step(s: Seq<char>, k: nat)
    requires
        k < 3,
    ensures
        replace_all(undo_pieces(s, k), undo_pattern(k).0, undo_pattern(k).1) == undo_pieces(
            s,
            k + 1,
        ),
    decreases s.len(),
{
    reveal_strlit("&amp;");
    reveal_strlit("&lt;");
    reveal_strlit("&gt;");
    let pat = undo_pattern(k).0;
    let rep = undo_pattern(k).1;
    if s.len() == 0 {
    } else {
        let c = s[0];
        let r = s.drop_first();
        lemma_undo_step(r, k);
        let p = undo_piece(k, c);
        let rest = undo_pieces(r, k);
        assert(undo_pieces(s, k) == p + rest);
        assert(undo_pieces(s, k + 1) == undo_piece((k + 1) as nat, c) + undo_pieces(r, (k + 1) as nat));
        if p == pat {
            let t = p + rest;
            assert(t.take(pat.len() as int) =~= pat);
            assert(t.skip(pat.len() as int) =~= rest);
            if c == '&' {
                assert(k == 2) by {
                    if k < 2 {
                        assert(p.len() != pat.len() || p[1] != pat[1]);
                    }
                }
            } else if c == '<' {
                assert(k == 0) by {
                    if k > 0 {
                        assert(p.len() != pat.len());
                    }
                }
            } else if c == '>' {
                assert(k == 1) by {
                    if k == 0 {
                        assert(p[1] != pat[1]);
                    } else if k == 2 {
                        assert(p.len() != pat.len());
                    }
                }
            } else {
                assert(p.len() != pat.len());
            }
            assert(undo_piece((k + 1) as nat, c) == rep);
        } else if p.len() > 1 {
            assert(p[0] == '&');
            lemma_replace_skips_entity(p, rest, pat, rep);
            assert(undo_piece((k + 1) as nat, c) == p);
        } else {
            assert(p == seq![c]);
            assert(c != '&');
            lemma_replace_skips_plain(p, rest, pat, rep);
            assert(undo_piece((k + 1) as nat, c) == p);
        }
    }
}

proof fn lemma_undo_ends(s: Seq<char>)
    ensures
        undo_pieces(s, 0) == escape(s),
        undo_pieces(s, 3) == s,
    decreases s.len(),
{
    if s.len() > 0 {
        let c = s[0];
        let r = s.drop_first();
        lemma_undo_ends(r);
        assert(s =~= seq![c] + r);
        lemma_escape_concat(seq![c], r);
        assert(escape(seq![c]) == esc_char(c)) by {
            reveal_with_fuel(escape, 2);
            assert(seq![c].drop_last() =~= Seq::<char>::empty());
            assert(seq![c].last() == c);
            assert(Seq::<char>::empty() + esc_char(c) =~= esc_char(c));
        }
    }
}

/// Replacing `&lt;` with `<`, then `&gt;` with `>`, then `&amp;` with `&`
/// in escaped text gives back the text.
pub proof fn lemma_escape_undone_by_replacements(s: Seq<char>)
    ensures
        replace_all(replace_all(replace_all(escape(s), "&lt;"@, "<"@), "&gt;"@, ">"@), "&amp;"@, "&"@)
            == s,
{
    reveal_strlit("<");
    reveal_strlit(">");
    reveal_strlit("&");
    assert("<"@ =~= seq!['<']);
    assert(">"@ =~= seq!['>']);
    assert("&"@ =~= seq!['&']);
    lemma_undo_ends(s);
    lemma_undo_step(s, 0);
    lemma_undo_step(s, 1);
    lemma_undo_step(s, 2);
}

/// A text has at most as many characters as its UTF-8 form has bytes.
pub proof fn lemma_chars_le_bytes(s: Seq<char>)
    ensures
        s.len() <= encode_utf8(s).len(),
    decreases s.len(),
{
    if s.len() > 0 {
        lemma_chars_le_bytes(s.drop_first());
    }
}

/// Callback data on a keyboard is the longest start of the given data that
/// fits in Telegram's 64 bytes: it fits (so it has at most 64 characters),
/// one more character would not, and data of at most 64 bytes is kept as it
/// is.
pub proof fn lemma_callback_data_capped(d: Seq<char>)
    ensures
        encode_utf8(cap_data(d)).len() <= 64,
        cap_data(d).len() <= 64,
        cap_data(d).is_prefix_of(d),
        encode_utf8(d).len() <= 64 ==> cap_data(d) == d,
        cap_data(d).len() < d.len() ==> encode_utf8(d.take(cap_data(d).len() + 1int)).len() > 64,
{
    lemma_fit_bytes(d, 64);
    lemma_chars_le_bytes(cap_data(d));
}

/// UTF-8 encoding of a joined text joins the encodings.
proof fn lemma_encode_concat(a: Seq<char>, b: Seq<char>)
    ensures
        encode_utf8(a + b) == encode_utf8(a) + encode_utf8(b),
    decreases a.len(),
{
    if a.len() == 0 {
        assert(a + b =~= b);
        assert(encode_utf8(a) + encode_utf8(b) =~= encode_utf8(b));
    } else {
        lemma_encode_concat(a.drop_first(), b);
        assert((a + b)[0] == a[0]);
        assert((a + b).drop_first() =~= a.drop_first() + b);
        assert(encode_scalar(a[0] as u32) + (encode_utf8(a.drop_first()) + encode_utf8(b))
            =~= encode_scalar(a[0] as u32) + encode_utf8(a.drop_first()) + encode_utf8(b));
    }
}

proof fn lemma_encode_one(c: char)
    ensures
        encode_utf8(seq![c]) == encode_scalar(c as u32),
{
    reveal_with_fuel(encode_utf8, 2);
    assert(seq![c].drop_first() =~= Seq::<char>::empty());
    assert(encode_scalar(c as u32) + Seq::<u8>::empty() =~= encode_scalar(c as u32));
}

/// `fit_bytes(d, n)` starts `d`, fits in `n` bytes, and is all of `d` when
/// `d` fits.
proof fn lemma_fit_bytes(d: Seq<char>, n: int)
    requires
        n >= 0,
    ensures
        fit_bytes(d, n).is_prefix_of(d),
        encode_utf8(fit_bytes(d, n)).len() <= n,
        encode_utf8(d).len() <= n ==> fit_bytes(d, n) == d,
        fit_bytes(d, n).len() < d.len() ==> encode_utf8(d.take(fit_bytes(d, n).len() + 1int)).len() > n,
    decreases d.len(),
{
    if d.len() > 0 {
        let w = encode_scalar(d[0] as u32).len();
        let r = d.drop_first();
        assert(d =~= seq![d[0]] + r);
        lemma_encode_concat(seq![d[0]], r);
        lemma_encode_one(d[0]);
        if w <= n {
            lemma_fit_bytes(r, n - w);
            let f = fit_bytes(r, n - w);
            lemma_encode_concat(seq![d[0]], f);
            assert(f =~= r.take(f.len() as int));
            assert(d.take(f.len() + 1int) =~= seq![d[0]] + f);
            if f.len() < r.len() {
                let g = r.take(f.len() + 1int);
                assert(d.take(f.len() + 2int) =~= seq![d[0]] + g);
                lemma_encode_concat(seq![d[0]], g);
            }
        } else {
            assert(fit_bytes(d, n) =~= Seq::<char>::empty());
            assert(d.take(0) =~= Seq::<char>::empty());
            assert(d.take(1) =~= seq![d[0]]);
        }
    } else {
        assert(d.take(0) =~= d);
    }
}

/// One inline keyboard button.
#[derive(Debug, Clone)]
pub struct Button {
    pub text: String,
    pub callback_data: String,
}

/// An inline keyboard: rows of buttons.
#[derive(Debug, Clone)]
pub struct InlineKeyboard {
    pub rows: Vec<Vec<Button>>,
}

/// The (text, callback data) pairs of a row of buttons.
pub open spec fn buttons_view(row: Seq<Button>) -> Seq<(Seq<char>, Seq<char>)> {
    Seq::new(row.len(), |i: int| (row[i].text@, row[i].callback_data@))
}

impl View for InlineKeyboard {
    type V = Seq<Seq<(Seq<char>, Seq<char>)>>;

    open spec fn view(&self) -> Seq<Seq<(Seq<char>, Seq<char>)>> {
        Seq::new(self.rows@.len(), |i: int| buttons_view(self.rows@[i]@))
    }
}

/// The longest start of `d` whose UTF-8 form has at most `n` bytes.
pub open spec fn fit_bytes(d: Seq<char>, n: int) -> Seq<char>
    decreases d.len(),
{
    if d.len() == 0 {
        d
    } else if encode_scalar(d[0] as u32).len() <= n {
        seq![d[0]] + fit_bytes(d.drop_first(), n - encode_scalar(d[0] as u32).len())
    } else {
        Seq::empty()
    }
}

/// Telegram takes at most 64 bytes of callback data: longer data is cut to
/// its longest start that fits in 64 bytes.
pub open spec fn cap_data(d: Seq<char>) -> Seq<char> {
    if encode_utf8(d).len() > 64 {
        fit_bytes(d, 64)
    } else {
        d
    }
}

/// The keyboard for rows of (text, callback data) pairs.
pub open spec fn keyboard_of(rows: Seq<Seq<(Seq<char>, Seq<char>)>>) -> Seq<
    Seq<(Seq<char>, Seq<char>)>,
> {
    rows.map_values(
        |row: Seq<(Seq<char>, Seq<char>)>|
            row.map_values(|b: (Seq<char>, Seq<char>)| (b.0, cap_data(b.1))),
    )
}

/// The views of rows of (text, data) pairs.
pub open spec fn rows_view(rows: Seq<Vec<(String, String)>>) -> Seq<Seq<(Seq<char>, Seq<char>)>> {
    Seq::new(rows.len(), |i: int| pairs_view(rows[i]@))
}

fn capped_data(d: &String) -> (out: String)
    ensures
        out@ == cap_data(d@),
{
    if d.as_str().as_bytes().len() <= 64 {
        return d.clone();
    }
    let cs = chars_of(d.as_str());
    let ghost ds = d@;
    let mut out = String::new();
    let mut i: usize = 0;
    assert(ds.take(0) =~= Seq::<char>::empty());
    assert(ds.skip(0) =~= ds);
    while i < cs.len()
        invariant
            cs@ == ds,
            ds == d@,
            encode_utf8(ds).len() > 64,
            0 <= i <= ds.len(),
            out@ == ds.take(i as int),
            encode_utf8(out@).len() <= 64,
            fit_bytes(ds, 64) == ds.take(i as int) + fit_bytes(
                ds.skip(i as int),
                64 - encode_utf8(ds.take(i as int)).len(),
            ),
        decreases ds.len() - i,
    {
        let c = cs[i];
        let mut t = out.clone();
        crate::text::push_char(&mut t, c);
        let ghost m = 64 - encode_utf8(ds.take(i as int)).len();
        proof {
            assert(ds.take(i + 1) =~= ds.take(i as int) + seq![c]);
            lemma_encode_concat(ds.take(i as int), seq![c]);
            lemma_encode_one(c);
            assert(ds.skip(i as int)[0] == c);
            assert(ds.skip(i as int).drop_first() =~= ds.skip(i + 1));
        }
        assert(t@ == ds.take(i + 1));
        assert(encode_utf8(t@).len() == encode_utf8(ds.take(i as int)).len() + encode_scalar(
            c as u32,
        ).len());
        if t.as_str().as_bytes().len() > 64 {
            proof {
                assert(ds.skip(i as int).len() > 0);
                assert(encode_scalar(ds.skip(i as int)[0] as u32).len() > m);
                assert(fit_bytes(ds.skip(i as int), m) =~= Seq::<char>::empty());
                assert(ds.take(i as int) + Seq::<char>::empty() =~= ds.take(i as int));
            }
            return out;
        }
        proof {
            assert(fit_bytes(ds.skip(i as int), m) == seq![c] + fit_bytes(
                ds.skip(i + 1),
                m - encode_scalar(c as u32).len(),
            ));
            assert(ds.take(i as int) + (seq![c] + fit_bytes(ds.skip(i + 1), m - encode_scalar(c as u32).len()))
                =~= ds.take(i + 1) + fit_bytes(ds.skip(i + 1), m - encode_scalar(c as u32).len()));
        }
        out = t;
        i = i + 1;
    }
    proof {
        assert(ds.skip(i as int) =~= Seq::<char>::empty());
        assert(ds.take(i as int) =~= ds);
        assert(ds + Seq::<char>::empty() =~= ds);
    }
    out
}

/// Builds an inline keyboard; callback data longer than Telegram's 64
/// bytes is cut to its longest start that fits.
pub fn inline_keyboard(rows: Vec<Vec<(String, String)>>) -> (kb: InlineKeyboard)
    ensures
        kb@ == keyboard_of(rows_view(rows@)),
{
    let mut out: Vec<Vec<Button>> = Vec::new();
    let mut i: usize = 0;
    while i < rows.len()
        invariant
            0 <= i <= rows@.len(),
            out@.len() == i,
            forall|k: int|
                0 <= k < i ==> #[trigger] buttons_view(out@[k]@) == pairs_view(rows@[k]@).map_values(
                    |b: (Seq<char>, Seq<char>)| (b.0, cap_data(b.1)),
                ),
        decreases rows@.len() - i,
    {
        let row = &rows[i];
        let mut buttons: Vec<Button> = Vec::new();
        let mut j: usize = 0;
        while j < row.len()
            invariant
                0 <= j <= row@.len(),
                buttons@.len() == j,
                forall|k: int|
                    0 <= k < j ==> (#[trigger] buttons@[k].text@, buttons@[k].callback_data@) == (
                        row@[k].0@,
                        cap_data(row@[k].1@),
                    ),
            decreases row@.len() - j,
        {
            let text = row[j].0.clone();
            let data = capped_data(&row[j].1);
            buttons.push(Button { text, callback_data: data });
            j = j + 1;
        }
        assert(buttons_view(buttons@) =~= pairs_view(row@).map_values(
            |b: (Seq<char>, Seq<char>)| (b.0, cap_data(b.1)),
        ));
        out.push(buttons);
        i = i + 1;
    }
    let kb = InlineKeyboard { rows: out };
    assert(kb@ =~= keyboard_of(rows_view(rows@)));
    kb
}

/// The text Telegram is sent: at most 4000 bytes are kept as they are;
/// longer text is cut to its first 3999 bytes and an ellipsis
/// (the clipping of `send_message`).
pub fn message_text(text: &str) -> (out: String)
    requires
        clip_ok(text@, 4000, 3999),
    ensures
        out@ == clip(text@, 4000, 3999),
{
    clip_str(text, 4000, 3999)
}

// ---------------------------------------------------------------------
// Bot API requests and replies
// ---------------------------------------------------------------------

/// A Telegram id as a JSON number.
pub open spec fn id_json(i: i64) -> JsonV {
    if i < 0 {
        JsonV::Number(NumberV::NegInt(i))
    } else {
        JsonV::Number(NumberV::PosInt(i as u64))
    }
}

/// One button as the Bot API takes it: `{"text", "callback_data"}`.
pub open spec fn button_json(b: (Seq<char>, Seq<char>)) -> JsonV {
    JsonV::Object(seq![("text"@, JsonV::Str(b.0)), ("callback_data"@, JsonV::Str(b.1))])
}

/// A keyboard as the Bot API's `reply_markup`:
/// `{"inline_keyboard": [[button, ...], ...]}`, rows and buttons in order.
pub open spec fn keyboard_json_of(rows: Seq<Seq<(Seq<char>, Seq<char>)>>) -> JsonV {
    JsonV::Object(
        seq![
            (
                "inline_keyboard"@,
                JsonV::Array(
                    Seq::new(
                        rows.len(),
                        |i: int| JsonV::Array(Seq::new(rows[i].len(), |j: int| button_json(rows[i][j]))),
                    ),
                ),
            ),
        ],
    )
}

fn number_of_id(i: i64) -> (j: Json)
    ensures
        j@ == id_json(i),
{
    if i < 0 {
        Json::Number(JsonNumber::NegInt(i))
    } else {
        Json::Number(JsonNumber::PosInt(i as u64))
    }
}

/// The keyboard as the Bot API's `reply_markup` (`keyboard_json_of`).
pub fn keyboard_json(kb: &InlineKeyboard) -> (j: Json)
    ensures
        j@ == keyboard_json_of(kb@),
{
    let ghost rows = kb@;
    let mut out_rows: Vec<Json> = Vec::new();
    let mut i: usize = 0;
    while i < kb.rows.len()
        invariant
            rows == kb@,
            0 <= i <= kb.rows@.len(),
            out_rows@.len() == i,
            forall|k: int|
                0 <= k < i ==> #[trigger] out_rows@[k]@ == JsonV::Array(
                    Seq::new(rows[k].len(), |j: int| button_json(rows[k][j])),
                ),
        decreases kb.rows@.len() - i,
    {
        let row = &kb.rows[i];
        let mut buttons: Vec<Json> = Vec::new();
        let mut j: usize = 0;
        while j < row.len()
            invariant
                rows == kb@,
                row == kb.rows@[i as int],
                0 <= i < kb.rows@.len(),
                0 <= j <= row@.len(),
                buttons@.len() == j,
                forall|k: int| 0 <= k < j ==> #[trigger] buttons@[k]@ == button_json(rows[i as int][k]),
            decreases row@.len() - j,
        {
            let members = vec![
                (String::from_str("text"), string_of(row[j].text.as_str())),
                (String::from_str("callback_data"), string_of(row[j].callback_data.as_str())),
            ];
            assert(members_view(members@) =~= seq![
                ("text"@, JsonV::Str(rows[i as int][j as int].0)),
                ("callback_data"@, JsonV::Str(rows[i as int][j as int].1)),
            ]);
            buttons.push(object_of(members));
            j = j + 1;
        }
        let ghost bv = buttons@;
        let r = array_of(buttons);
        assert(views_of(bv) =~= Seq::new(rows[i as int].len(), |j: int| button_json(rows[i as int][j])));
        out_rows.push(r);
        i = i + 1;
    }
    let ghost ov = out_rows@;
    let arr = array_of(out_rows);
    assert(views_of(ov) =~= Seq::new(
        rows.len(),
        |i: int| JsonV::Array(Seq::new(rows[i].len(), |j: int| button_json(rows[i][j]))),
    ));
    let members = vec![(String::from_str("inline_keyboard"), arr)];
    let ghost av = members@[0].1@;
    assert(members_view(members@) =~= seq![("inline_keyboard"@, av)]);
    object_of(members)
}

/// The body of a `sendMessage` request: chat, text (HTML, link previews
/// off) and, with a keyboard, its `reply_markup`.
pub open spec fn message_request(chat_id: i64, text: Seq<char>, markup: Option<JsonV>) -> JsonV {
    let base = seq![
        ("chat_id"@, id_json(chat_id)),
        ("text"@, JsonV::Str(text)),
        ("parse_mode"@, JsonV::Str("HTML"@)),
        ("disable_web_page_preview"@, JsonV::Bool(true)),
    ];
    JsonV::Object(
        match markup {
            Some(m) => base.push(("reply_markup"@, m)),
            None => base,
        },
    )
}

/// The `sendMessage` body for `text` in `chat_id`: the text as Telegram
/// is sent it (`message_text`), with the keyboard if there is one.
pub fn send_message_body(chat_id: i64, text: &str, keyboard: Option<&InlineKeyboard>) -> (j: Json)
    requires
        clip_ok(text@, 4000, 3999),
    ensures
        j@ == message_request(
            chat_id,
            clip(text@, 4000, 3999),
            match keyboard {
                Some(k) => Some(keyboard_json_of(k@)),
                None => None,
            },
        ),
{
    let body = message_text(text);
    let mut members = vec![
        (String::from_str("chat_id"), number_of_id(chat_id)),
        (String::from_str("text"), string_of(body.as_str())),
        (String::from_str("parse_mode"), string_of("HTML")),
        (String::from_str("disable_web_page_preview"), Json::Bool(true)),
    ];
    let ghost base = seq![
        ("chat_id"@, id_json(chat_id)),
        ("text"@, JsonV::Str(body@)),
        ("parse_mode"@, JsonV::Str("HTML"@)),
        ("disable_web_page_preview"@, JsonV::Bool(true)),
    ];
    assert(members_view(members@) =~= base);
    match keyboard {
        Some(k) => {
            let m = keyboard_json(k);
            let ghost mv = m@;
            members.push((String::from_str("reply_markup"), m));
            assert(members_view(members@) =~= base.push(("reply_markup"@, mv)));
        },
        None => {},
    }
    object_of(members)
}

/// The body of an `answerCallbackQuery` request: the press and the notice.
pub open spec fn answer_request(callback_id: Seq<char>, text: Seq<char>) -> JsonV {
    JsonV::Object(seq![("callback_query_id"@, JsonV::Str(callback_id)), ("text"@, JsonV::Str(text))])
}

/// The `answerCallbackQuery` body (`answer_request`).
pub fn answer_callback_body(callback_id: &str, text: &str) -> (j: Json)
    ensures
        j@ == answer_request(callback_id@, text@),
{
    let members = vec![
        (String::from_str("callback_query_id"), string_of(callback_id)),
        (String::from_str("text"), string_of(text)),
    ];
    assert(members_view(members@) =~= seq![
        ("callback_query_id"@, JsonV::Str(callback_id@)),
        ("text"@, JsonV::Str(text@)),
    ]);
    object_of(members)
}

/// Whether a Bot API reply reports success: its `ok` member is `true`.
pub fn reply_ok(reply: &Json) -> (r: bool)
    ensures
        r == (reply@.field("ok"@) == Some(JsonV::Bool(true))),
{
    match reply.get("ok") {
        Some(Json::Bool(b)) => *b,
        _ => false,
    }
}

} // verus!
