//! The phone's session picker over the agent's session store
//! (`~/.grok/sessions/<group>/<session>/`): decoding group names, reading a
//! session's summary, ordering sessions newest first, and the chat history
//! digest. Walking the directories and reading the files is the caller's.
use vstd::prelude::*;
use vstd::utf8::encode_utf8;
use vstd::string::StringSliceAdditionalSpecFns;
use crate::json::{
    Json, JsonV, at_in, first_of, json_text_value, opt_step, opt_text, or_else, parse_json, str_in,
};
use crate::text::{
    chars_of, contains_char, first_chars, owned, push_char, push_str, str_eq, take_chars,
};
use crate::ui::{join_lines, lemma_join_push};

verus! {

// ---------------------------------------------------------------------
// Group names
// ---------------------------------------------------------------------

/// The value of an ASCII hexadecimal digit (either case).
pub open spec fn hex_value(b: u8) -> Option<nat> {
    if 48 <= b <= 57 {
        Some((b - 48) as nat)
    } else if 97 <= b <= 102 {
        Some((b - 87) as nat)
    } else if 65 <= b <= 70 {
        Some((b - 55) as nat)
    } else {
        None
    }
}

/// What `u8::from_str_radix(h, 16)` gives for the two bytes after a `%`:
/// two hex digits, or a `+` sign and one hex digit.
pub open spec fn escape_value(b1: u8, b2: u8) -> Option<nat> {
    match (hex_value(b1), hex_value(b2)) {
        (Some(h), Some(l)) => Some(h * 16 + l),
        (None, Some(l)) => if b1 == 43 {
            Some(l)
        } else {
            None
        },
        _ => None,
    }
}

/// The light percent-decoding of a group name: `%XX` becomes the byte
/// `XX`, every other byte stays; each byte becomes the `char` of the same
/// number.
pub open spec fn percent_decode(b: Seq<u8>) -> Seq<char>
    decreases b.len(),
{
    if b.len() == 0 {
        Seq::empty()
    } else if b[0] == 37 && 2 < b.len() && escape_value(b[1], b[2]) is Some {
        seq![(escape_value(b[1], b[2])->0) as char] + percent_decode(b.skip(3))
    } else {
        seq![b[0] as char] + percent_decode(b.skip(1))
    }
}

/// The working directory a group name stands for: the decoded name, with a
/// leading `/` added when it has none.
pub open spec fn group_cwd(name: Seq<char>) -> Seq<char> {
    let s = percent_decode(encode_utf8(name));
    if s.len() > 0 && s[0] == '/' {
        s
    } else {
        seq!['/'] + s
    }
}

/// A group's working directory is absolute: it starts with `/`.
pub proof fn lemma_group_cwd_is_absolute(name: Seq<char>)
    ensures
        group_cwd(name).len() > 0,
        group_cwd(name)[0] == '/',
{
}

fn hex_digit(b: u8) -> (r: Option<u8>)
    ensures
        match hex_value(b) {
            Some(v) => r == Some(v as u8),
            None => r is None,
        },
{
    if 48 <= b && b <= 57 {
        Some(b - 48)
    } else if 97 <= b && b <= 102 {
        Some(b - 87)
    } else if 65 <= b && b <= 70 {
        Some(b - 55)
    } else {
        None
    }
}

fn escape_byte(b1: u8, b2: u8) -> (r: Option<u8>)
    ensures
        match escape_value(b1, b2) {
            Some(v) => r == Some(v as u8),
            None => r is None,
        },
{
    match (hex_digit(b1), hex_digit(b2)) {
        (Some(h), Some(l)) => Some(h * 16 + l),
        (None, Some(l)) => if b1 == 43 {
            Some(l)
        } else {
            None
        },
        _ => None,
    }
}

/// Light percent-decoding of a session group name into a working
/// directory (always starting with `/`).
pub fn decode_cwd_group(name: &str) -> (out: String)
    ensures
        out@ == group_cwd(name@),
{
    let b = name.as_bytes();
    let ghost bs = name.spec_bytes();
    let mut s = String::new();
    let mut i: usize = 0;
    assert(bs.skip(0) =~= bs);
    while i < b.len()
        invariant
            b@ == bs,
            0 <= i <= bs.len(),
            percent_decode(bs) == s@ + percent_decode(bs.skip(i as int)),
        decreases bs.len() - i,
    {
        let ghost rest = bs.skip(i as int);
        if b[i] == 37u8 && b.len() - i > 2 {
            match escape_byte(b[i + 1], b[i + 2]) {
                Some(v) => {
                    proof {
                        assert(rest[0] == bs[i as int] && rest[1] == bs[i + 1] && rest[2] == bs[i + 2]);
                        assert(rest.skip(3) =~= bs.skip(i + 3));
                        assert(percent_decode(rest) == seq![v as char] + percent_decode(bs.skip(i + 3)));
                    }
                    let ghost before = s@;
                    push_char(&mut s, v as char);
                    assert(before + percent_decode(rest) =~= s@ + percent_decode(bs.skip(i + 3)));
                    i = i + 3;
                    continue;
                },
                None => {
                    proof {
                        assert(rest[0] == bs[i as int] && rest[1] == bs[i + 1] && rest[2] == bs[i + 2]);
                    }
                },
            }
        }
        proof {
            assert(rest[0] == bs[i as int]);
            assert(rest.skip(1) =~= bs.skip(i + 1));
        }
        let ghost before = s@;
        push_char(&mut s, b[i] as char);
        assert(before + percent_decode(rest) =~= s@ + percent_decode(bs.skip(i + 1)));
        i = i + 1;
    }
    proof {
        assert(bs.skip(bs.len() as int) =~= Seq::<u8>::empty());
        assert(s@ =~= percent_decode(bs));
    }
    let cs = chars_of(s.as_str());
    let starts_with_slash = cs.len() > 0 && cs[0] == '/';
    if starts_with_slash {
        s
    } else {
        let mut out = String::new();
        push_char(&mut out, '/');
        push_str(&mut out, s.as_str());
        out
    }
}


// ---------------------------------------------------------------------
// Session entries
// ---------------------------------------------------------------------

/// The `info` member of a session's `summary.json`.
#[derive(Debug, Clone)]
pub struct SummaryInfo {
    pub id: Option<String>,
    pub cwd: Option<String>,
}

/// A session's `summary.json`.
#[derive(Debug, Clone)]
pub struct SessionSummary {
    pub info: Option<SummaryInfo>,
    pub session_summary: Option<String>,
    pub generated_title: Option<String>,
    pub updated_at: Option<String>,
    pub last_active_at: Option<String>,
}

/// The path of a session folder on disk, carried through unchanged.
#[verifier::external_type_specification]
#[verifier::external_body]
pub struct ExPathBuf(std::path::PathBuf);

/// One session of the picker.
///
/// `updated` is the folder's modification time in nanoseconds from the Unix
/// epoch (negative before it).
#[derive(Debug)]
pub struct SessionEntry {
    pub session_id: String,
    pub cwd: String,
    pub title: String,
    pub updated: i128,
    pub disk_path: std::path::PathBuf,
}

/// The spec-level form of a `SessionEntry`.
pub struct EntryV {
    pub session_id: Seq<char>,
    pub cwd: Seq<char>,
    pub title: Seq<char>,
    pub updated: i128,
    pub disk_path: std::path::PathBuf,
}

impl View for SessionEntry {
    type V = EntryV;

    open spec fn view(&self) -> EntryV {
        EntryV {
            session_id: self.session_id@,
            cwd: self.cwd@,
            title: self.title@,
            updated: self.updated,
            disk_path: self.disk_path,
        }
    }
}

/// A folder name that looks like a session id: at least 8 bytes with a
/// `-` in it.
pub open spec fn is_session_dir_name(name: Seq<char>) -> bool {
    encode_utf8(name).len() >= 8 && name.contains('-')
}

/// The optional text behind an optional `String`.
pub open spec fn opt_view(s: Option<String>) -> Option<Seq<char>> {
    match s {
        Some(t) => Some(t@),
        None => None,
    }
}

/// The title a summary gives: the generated title, else the session
/// summary, when that one is not empty; otherwise `fallback`.
pub open spec fn summary_title(sum: SessionSummary, fallback: Seq<char>) -> Seq<char> {
    match or_else(opt_view(sum.generated_title), opt_view(sum.session_summary)) {
        Some(t) => if t.len() > 0 {
            t
        } else {
            fallback
        },
        None => fallback,
    }
}

/// The entry for session folder `name` in a group whose working directory
/// is `cwd`: the summary's id and cwd override the folder's, and the
/// title defaults to the first 12 characters of the folder name.
pub open spec fn entry_fields(cwd: Seq<char>, name: Seq<char>, summary: Option<SessionSummary>) -> (
    Seq<char>,
    Seq<char>,
    Seq<char>,
) {
    let title = take_chars(name, 12);
    match summary {
        None => (name, cwd, title),
        Some(sum) => {
            let (sid, c) = match sum.info {
                Some(info) => (
                    match opt_view(info.id) {
                        Some(i) => i,
                        None => name,
                    },
                    match opt_view(info.cwd) {
                        Some(x) => x,
                        None => cwd,
                    },
                ),
                None => (name, cwd),
            };
            (sid, c, summary_title(sum, title))
        },
    }
}

/// A picker entry's fields: without a summary, the folder name as id, the
/// group's directory as working directory, and the name's first 12
/// characters as title; a summary's `info.id` and `info.cwd` override the
/// id and directory, and a non-empty generated title (else a non-empty
/// session summary) becomes the title.
pub proof fn lemma_entry_fields(cwd: Seq<char>, name: Seq<char>, summary: Option<SessionSummary>)
    ensures
        summary is None ==> entry_fields(cwd, name, summary) == (name, cwd, take_chars(name, 12)),
        summary matches Some(sum) ==> ({
            let (sid, c, title) = entry_fields(cwd, name, summary);
            &&& (sum.info is Some && sum.info->0.id is Some) ==> sid == sum.info->0.id->0@
            &&& (sum.info is None || sum.info->0.id is None) ==> sid == name
            &&& (sum.info is Some && sum.info->0.cwd is Some) ==> c == sum.info->0.cwd->0@
            &&& (sum.info is None || sum.info->0.cwd is None) ==> c == cwd
            &&& (sum.generated_title is Some && sum.generated_title->0@.len() > 0) ==> title
                == sum.generated_title->0@
            &&& (sum.generated_title is None && sum.session_summary is Some
                && sum.session_summary->0@.len() > 0) ==> title == sum.session_summary->0@
            &&& (sum.generated_title is None && sum.session_summary is None) ==> title == take_chars(
                name,
                12,
            )
        }),
{
}

fn copy_opt(s: &Option<String>) -> (r: Option<String>)
    ensures
        opt_view(r) == opt_view(*s),
{
    match s {
        Some(t) => Some(t.clone()),
        None => None,
    }
}

/// The picker entry for a session folder `dir_name` inside a group whose
/// working directory is `group_cwd`; `None` when the folder name does not
/// look like a session id. `summary` is the folder's parsed
/// `summary.json`, if it could be read.
pub fn session_entry(
    group_cwd: &str,
    dir_name: &str,
    summary: Option<&SessionSummary>,
    updated: i128,
    disk_path: std::path::PathBuf,
) -> (r: Option<SessionEntry>)
    ensures
        r is Some <==> is_session_dir_name(dir_name@),
        r matches Some(e) ==> {
            &&& (e.session_id@, e.cwd@, e.title@) == entry_fields(
                group_cwd@,
                dir_name@,
                match summary {
                    Some(s) => Some(*s),
                    None => None,
                },
            )
            &&& e.updated == updated
            &&& e.disk_path == disk_path
        },
{
    if dir_name.as_bytes().len() < 8 || !contains_char(dir_name, '-') {
        return None;
    }
    let fallback = first_chars(dir_name, 12);
    let mut title = fallback;
    let mut cwd = owned(group_cwd);
    let mut sid = owned(dir_name);
    match summary {
        Some(sum) => {
            match &sum.info {
                Some(info) => {
                    match &info.id {
                        Some(id) => {
                            sid = id.clone();
                        },
                        None => {},
                    }
                    match &info.cwd {
                        Some(c) => {
                            cwd = c.clone();
                        },
                        None => {},
                    }
                },
                None => {},
            }
            let chosen = match copy_opt(&sum.generated_title) {
                Some(t) => Some(t),
                None => copy_opt(&sum.session_summary),
            };
            match chosen {
                Some(t) => {
                    if !t.as_str().is_empty() {
                        title = t;
                    }
                },
                None => {},
            }
        },
        None => {},
    }
    Some(SessionEntry { session_id: sid, cwd, title, updated, disk_path })
}

/// A session folder found under the sessions root: its group folder's
/// name, its own name, its parsed `summary.json` if it could be read, its
/// modification time (nanoseconds from the Unix epoch) and its path.
#[derive(Debug)]
pub struct FoundDir {
    pub group: String,
    pub name: String,
    pub summary: Option<SessionSummary>,
    pub updated: i128,
    pub disk_path: std::path::PathBuf,
}

/// The picker entry a found folder gives, if its name looks like a session
/// id (`session_entry` with the group's decoded working directory).
pub open spec fn found_entry(f: FoundDir) -> Option<EntryV> {
    if is_session_dir_name(f.name@) {
        let (sid, cwd, title) = entry_fields(group_cwd(f.group@), f.name@, f.summary);
        Some(EntryV { session_id: sid, cwd, title, updated: f.updated, disk_path: f.disk_path })
    } else {
        None
    }
}

/// The entries the found folders give, in the order they were found.
pub open spec fn found_entries(fs: Seq<FoundDir>) -> Seq<EntryV>
    decreases fs.len(),
{
    if fs.len() == 0 {
        Seq::empty()
    } else {
        match found_entry(fs.last()) {
            Some(e) => found_entries(fs.drop_last()).push(e),
            None => found_entries(fs.drop_last()),
        }
    }
}

/// The session picker's list from the folders found under the sessions
/// root: the session folders among them, newest first, at most `limit`.
pub fn collect_sessions(found: Vec<FoundDir>, limit: usize) -> (out: Vec<SessionEntry>)
    ensures
        entries_view(out@) == at_most(newest_first(found_entries(found@)), limit as int),
{
    let ghost fs = found@;
    let mut rest = found;
    let mut back: Vec<FoundDir> = Vec::new();
    while rest.len() > 0
        invariant
            fs == rest@ + back@.reverse(),
        decreases rest@.len(),
    {
        let f = rest.pop().unwrap();
        proof {
            assert(back@.push(f).reverse() =~= seq![f] + back@.reverse());
        }
        back.push(f);
        assert(fs =~= rest@ + back@.reverse());
    }
    assert(fs =~= back@.reverse());
    assert(fs.skip(0) =~= fs);
    assert(fs.take(0) =~= Seq::<FoundDir>::empty());
    let mut entries: Vec<SessionEntry> = Vec::new();
    let ghost n = fs.len();
    while back.len() > 0
        invariant
            back@.reverse() == fs.skip(fs.len() - back@.len()),
            back@.len() <= fs.len(),
            entries_view(entries@) == found_entries(fs.take(fs.len() - back@.len())),
        decreases back@.len(),
    {
        let ghost k = fs.len() - back@.len();
        let ghost before = back@;
        let f = back.pop().unwrap();
        proof {
            assert(before =~= back@.push(f));
            assert(fs[k] == f) by {
                assert(before.reverse()[0] == f);
                assert(fs.skip(k)[0] == fs[k]);
            }
            assert(fs.take(k + 1).drop_last() =~= fs.take(k));
            assert(fs.take(k + 1).last() == f);
        }
        let group_cwd_text = decode_cwd_group(f.group.as_str());
        let e = session_entry(
            group_cwd_text.as_str(),
            f.name.as_str(),
            match &f.summary {
                Some(sum) => Some(sum),
                None => None,
            },
            f.updated,
            f.disk_path,
        );
        match e {
            Some(e) => {
                let ghost old_v = entries_view(entries@);
                entries.push(e);
                assert(entries_view(entries@) =~= old_v.push(e@));
            },
            None => {},
        }
        proof {
            assert(back@.reverse() =~= before.reverse().drop_first());
            assert(fs.skip(k + 1) =~= fs.skip(k).drop_first());
        }
    }
    assert(fs.take(fs.len() as int) =~= fs);
    sort_sessions(entries, limit)
}

// ---------------------------------------------------------------------
// Newest first
// ---------------------------------------------------------------------

/// The number of leading entries of `s` updated at `t` or later: where an
/// entry updated at `t` goes in a newest-first list, after its equals.
pub open spec fn insert_pos(s: Seq<EntryV>, t: i128) -> nat
    decreases s.len(),
{
    if s.len() == 0 {
        0
    } else if s[0].updated >= t {
        1 + insert_pos(s.drop_first(), t)
    } else {
        0
    }
}

/// `s` ordered newest first; entries updated at the same time keep their
/// order (a stable sort on the update time, descending).
pub open spec fn newest_first(s: Seq<EntryV>) -> Seq<EntryV>
    decreases s.len(),
{
    if s.len() == 0 {
        s
    } else {
        let r = newest_first(s.drop_last());
        r.insert(insert_pos(r, s.last().updated) as int, s.last())
    }
}

/// The first `limit` entries of `s`, or all of them (`Vec::truncate`).
pub open spec fn at_most(s: Seq<EntryV>, limit: int) -> Seq<EntryV> {
    if s.len() <= limit {
        s
    } else {
        s.take(limit)
    }
}

/// The views of a list of entries.
pub open spec fn entries_view(v: Seq<SessionEntry>) -> Seq<EntryV> {
    Seq::new(v.len(), |i: int| v[i]@)
}

proof fn lemma_insert_pos_bound(s: Seq<EntryV>, t: i128)
    ensures
        insert_pos(s, t) <= s.len(),
        forall|j: int| 0 <= j < insert_pos(s, t) ==> s[j].updated >= t,
        insert_pos(s, t) < s.len() ==> s[insert_pos(s, t) as int].updated < t,
    decreases s.len(),
{
    if s.len() > 0 && s[0].updated >= t {
        lemma_insert_pos_bound(s.drop_first(), t);
        assert forall|j: int| 0 <= j < insert_pos(s, t) implies s[j].updated >= t by {
            if j > 0 {
                assert(s[j] == s.drop_first()[j - 1]);
            }
        }
    }
}

/// Orders session entries newest first (stable) and keeps at most `limit`.
pub fn sort_sessions(entries: Vec<SessionEntry>, limit: usize) -> (out: Vec<SessionEntry>)
    ensures
        entries_view(out@) == at_most(newest_first(entries_view(entries@)), limit as int),
{
    let ghost input = entries_view(entries@);
    let mut rest = entries;
    let mut out: Vec<SessionEntry> = Vec::new();
    let mut k: usize = 0;
    let n = rest.len();
    assert(input.take(0) =~= Seq::<EntryV>::empty());
    while rest.len() > 0
        invariant
            n == input.len(),
            k + rest@.len() == n,
            entries_view(rest@) == input.skip(k as int),
            entries_view(out@) == newest_first(input.take(k as int)),
        decreases rest@.len(),
    {
        let ghost old_rest = rest@;
        let x = rest.remove(0);
        proof {
            assert(entries_view(old_rest)[0] == x@);
            assert(input.skip(k as int)[0] == x@);
            assert forall|j: int| 0 <= j < rest@.len() implies entries_view(rest@)[j] == input.skip(k + 1)[j] by {
                assert(rest@[j] == old_rest[j + 1]);
                assert(entries_view(old_rest)[j + 1] == input.skip(k as int)[j + 1]);
            }
            assert(entries_view(rest@) =~= input.skip(k + 1));
            assert(input.take(k + 1).drop_last() =~= input.take(k as int));
            assert(input.take(k + 1).last() == x@);
        }
        let mut p: usize = 0;
        let ghost sorted = entries_view(out@);
        assert(sorted.skip(0) =~= sorted);
        while p < out.len() && out[p].updated >= x.updated
            invariant
                sorted == entries_view(out@),
                0 <= p <= out@.len(),
                insert_pos(sorted, x.updated) == p + insert_pos(sorted.skip(p as int), x.updated),
            decreases out@.len() - p,
        {
            assert(sorted.skip(p as int)[0] == sorted[p as int]);
            assert(sorted.skip(p as int).drop_first() =~= sorted.skip(p + 1));
            p = p + 1;
        }
        proof {
            if p < out@.len() {
                assert(sorted.skip(p as int)[0] == sorted[p as int]);
            }
        }
        out.insert(p, x);
        assert(entries_view(out@) =~= sorted.insert(p as int, x@));
        k = k + 1;
    }
    assert(input.take(n as int) =~= input);
    if out.len() > limit {
        out.truncate(limit);
    }
    assert(entries_view(out@) =~= at_most(newest_first(input), limit as int));
    out
}

/// The entries of `s` updated at time `t`, in order.
pub open spec fn updated_at(s: Seq<EntryV>, t: i128) -> Seq<EntryV> {
    s.filter(|e: EntryV| e.updated == t)
}

/// `s` is ordered newest first.
pub open spec fn is_newest_first(s: Seq<EntryV>) -> bool {
    forall|i: int, j: int| 0 <= i < j < s.len() ==> s[i].updated >= s[j].updated
}

/// The session list order: newest first, holding the same entries, and
/// entries with the same update time in the order they were found.
pub proof fn lemma_newest_first_is_stable_sort(s: Seq<EntryV>)
    ensures
        is_newest_first(newest_first(s)),
        newest_first(s).len() == s.len(),
        forall|t: i128| #[trigger] updated_at(newest_first(s), t) == updated_at(s, t),
    decreases s.len(),
{
    if s.len() > 0 {
        let p = s.drop_last();
        let x = s.last();
        lemma_newest_first_is_stable_sort(p);
        let r = newest_first(p);
        let pos = insert_pos(r, x.updated);
        lemma_insert_pos_bound(r, x.updated);
        let out = r.insert(pos as int, x);
        assert(out == newest_first(s));
        assert forall|i: int, j: int| 0 <= i < j < out.len() implies out[i].updated
            >= out[j].updated by {
            if i < pos && j < pos {
                assert(out[i] == r[i] && out[j] == r[j]);
            } else if i < pos && j == pos {
            } else if i < pos && j > pos {
                assert(out[i] == r[i] && out[j] == r[j - 1]);
            } else if i == pos {
                assert(out[j] == r[j - 1]);
                assert(r[pos as int].updated < x.updated);
            } else {
                assert(out[i] == r[i - 1] && out[j] == r[j - 1]);
            }
        }
        assert forall|t: i128| #[trigger] updated_at(out, t) == updated_at(s, t) by {
            let pred = |e: EntryV| e.updated == t;
            assert(out =~= r.take(pos as int) + seq![x] + r.skip(pos as int));
            assert(r =~= r.take(pos as int) + r.skip(pos as int));
            Seq::filter_distributes_over_add(r.take(pos as int) + seq![x], r.skip(pos as int), pred);
            Seq::filter_distributes_over_add(r.take(pos as int), seq![x], pred);
            Seq::filter_distributes_over_add(r.take(pos as int), r.skip(pos as int), pred);
            assert(s =~= p + seq![x]);
            Seq::filter_distributes_over_add(p, seq![x], pred);
            reveal_with_fuel(Seq::filter, 2);
            assert(updated_at(r, t) == updated_at(p, t));
            if t == x.updated {
                assert forall|j: int| 0 <= j < r.skip(pos as int).len() implies !pred(
                    #[trigger] r.skip(pos as int)[j],
                ) by {
                    assert(r.skip(pos as int)[j] == r[pos + j]);
                    if j > 0 {
                        assert(r[pos as int].updated >= r[pos + j].updated);
                    }
                }
                lemma_filter_none(r.skip(pos as int), pred);
            }
        }
    }
}

proof fn lemma_filter_none(s: Seq<EntryV>, pred: spec_fn(EntryV) -> bool)
    requires
        forall|j: int| 0 <= j < s.len() ==> !pred(#[trigger] s[j]),
    ensures
        s.filter(pred) =~= Seq::<EntryV>::empty(),
    decreases s.len(),
{
    reveal_with_fuel(Seq::filter, 1);
    if s.len() > 0 {
        lemma_filter_none(s.drop_last(), pred);
        assert(s.drop_last().len() == s.len() - 1);
        assert forall|j: int| 0 <= j < s.drop_last().len() implies !pred(
            #[trigger] s.drop_last()[j],
        ) by {
            assert(s.drop_last()[j] == s[j]);
        }
    }
}

/// The picker keeps the newest sessions: what it shows is the start of the
/// newest-first order, and no session it leaves out was updated later
/// than one it shows.
pub proof fn lemma_picker_keeps_newest(s: Seq<EntryV>, limit: int)
    requires
        limit >= 0,
    ensures
        at_most(newest_first(s), limit) == newest_first(s).take(
            if s.len() <= limit { s.len() as int } else { limit },
        ),
        forall|i: int, j: int|
            0 <= i < at_most(newest_first(s), limit).len() && limit <= j < newest_first(s).len()
                ==> (#[trigger] at_most(newest_first(s), limit)[i]).updated >= (
            #[trigger] newest_first(s)[j]).updated,
{
    lemma_newest_first_is_stable_sort(s);
    let r = newest_first(s);
    if s.len() <= limit {
        assert(r.take(s.len() as int) =~= r);
    }
    assert forall|i: int, j: int|
        0 <= i < at_most(r, limit).len() && limit <= j < r.len() implies (#[trigger] at_most(
        r,
        limit,
    )[i]).updated >= (#[trigger] r[j]).updated by {
        assert(at_most(r, limit)[i] == r[i]);
    }
}

proof fn lemma_found_entries_from(fs: Seq<FoundDir>, e: EntryV)
    requires
        found_entries(fs).contains(e),
    ensures
        exists|j: int| 0 <= j < fs.len() && found_entry(#[trigger] fs[j]) == Some(e),
    decreases fs.len(),
{
    let p = fs.drop_last();
    let r = found_entries(p);
    match found_entry(fs.last()) {
        Some(x) => {
            let k = choose|k: int| 0 <= k < r.push(x).len() && r.push(x)[k] == e;
            if k < r.len() {
                assert(r[k] == e);
                lemma_found_entries_from(p, e);
                let j = choose|j: int| 0 <= j < p.len() && found_entry(#[trigger] p[j]) == Some(e);
                assert(fs[j] == p[j]);
            } else {
                assert(found_entry(fs[fs.len() - 1]) == Some(e));
            }
        },
        None => {
            lemma_found_entries_from(p, e);
            let j = choose|j: int| 0 <= j < p.len() && found_entry(#[trigger] p[j]) == Some(e);
            assert(fs[j] == p[j]);
        },
    }
}

/// The session picker's list: every entry it shows is the entry of one of
/// the folders found (a session folder, with its summary's id and working
/// directory, its time and its path), it shows them newest first, and no
/// session folder it leaves out was updated later than one it shows.
pub proof fn lemma_listing_from_found(fs: Seq<FoundDir>, limit: int)
    requires
        limit >= 0,
    ensures
        forall|i: int|
            0 <= i < at_most(newest_first(found_entries(fs)), limit).len() ==> exists|j: int|
                0 <= j < fs.len() && found_entry(#[trigger] fs[j]) == Some(
                    #[trigger] at_most(newest_first(found_entries(fs)), limit)[i],
                ),
        is_newest_first(at_most(newest_first(found_entries(fs)), limit)),
        forall|i: int, j: int|
            0 <= i < at_most(newest_first(found_entries(fs)), limit).len() && limit <= j
                < newest_first(found_entries(fs)).len() ==> (#[trigger] at_most(
                newest_first(found_entries(fs)),
                limit,
            )[i]).updated >= (#[trigger] newest_first(found_entries(fs))[j]).updated,
{
    let c = found_entries(fs);
    let r = newest_first(c);
    let l = at_most(r, limit);
    lemma_picker_keeps_newest(c, limit);
    lemma_newest_first_is_stable_sort(c);
    assert forall|i: int, j: int| 0 <= i < j < l.len() implies l[i].updated >= l[j].updated by {
        assert(l[i] == r[i] && l[j] == r[j]);
    }
    assert forall|i: int| 0 <= i < l.len() implies exists|j: int|
        0 <= j < fs.len() && found_entry(#[trigger] fs[j]) == Some(#[trigger] l[i]) by {
        let e = l[i];
        assert(e == r[i]);
        let t = e.updated;
        let pred = |x: EntryV| x.updated == t;
        r.lemma_filter_contains(pred, i);
        assert(updated_at(r, t) == updated_at(c, t));
        assert(c.filter(pred).contains(e));
        c.lemma_filter_contains_rev(pred, e);
        lemma_found_entries_from(fs, e);
    }
}

// ---------------------------------------------------------------------
// Chat history digest
// ---------------------------------------------------------------------

/// The label of a chat role that the digest shows: `user` and `assistant`
/// only.
pub open spec fn role_label(role: Option<Seq<char>>) -> Option<Seq<char>> {
    match role {
        Some(r) => if r == "user"@ {
            Some("USER"@)
        } else if r == "assistant"@ {
            Some("ASSISTANT"@)
        } else {
            None
        },
        None => None,
    }
}

/// The digest line for one chat history record: `"[USER] text"` or
/// `"[ASSISTANT] text"` with the text cut to 200 characters; `None` for a
/// record of any other role (or none) and for one without text.
pub open spec fn history_line(v: JsonV) -> Option<Seq<char>> {
    let role = opt_text(or_else(v.field("role"@), opt_step(v.step("message"@), "role"@)));
    let text = match opt_text(
        or_else(
            or_else(
                v.field("text"@),
                opt_step(opt_step(opt_step(v.step("message"@), "content"@), "0"@), "text"@),
            ),
            v.field("content"@),
        ),
    ) {
        Some(t) => take_chars(t, 200),
        None => Seq::empty(),
    };
    match role_label(role) {
        Some(label) => if text.len() == 0 {
            None
        } else {
            Some("["@ + label + "] "@ + text)
        },
        None => None,
    }
}

/// The digest lines of the last `n` history records that have text,
/// oldest first. `records` holds one item per line of the history file,
/// `None` for a line that is not JSON.
pub open spec fn last_lines(records: Seq<Option<JsonV>>, n: nat) -> Seq<Seq<char>>
    decreases records.len(),
{
    if records.len() == 0 || n == 0 {
        Seq::empty()
    } else {
        match records.last() {
            Some(v) => match history_line(v) {
                Some(l) => last_lines(records.drop_last(), (n - 1) as nat).push(l),
                None => last_lines(records.drop_last(), n),
            },
            None => last_lines(records.drop_last(), n),
        }
    }
}

/// The label a history line gives a role: `USER` or `ASSISTANT`.
pub open spec fn role_word(role: Seq<char>) -> Seq<char> {
    if role == "user"@ {
        "USER"@
    } else {
        "ASSISTANT"@
    }
}

/// A user or assistant record whose only text is a non-empty `content`
/// string (no `text` member, no `message.content[0].text`) gives the line
/// `[USER] ` / `[ASSISTANT] ` and that content cut to 200 characters.
pub proof fn lemma_history_content_line(v: JsonV, role: Seq<char>, c: Seq<char>)
    requires
        v.field("role"@) == Some(JsonV::Str(role)),
        role == "user"@ || role == "assistant"@,
        v.field("text"@) is None,
        opt_step(opt_step(opt_step(v.step("message"@), "content"@), "0"@), "text"@) is None,
        v.field("content"@) == Some(JsonV::Str(c)),
        c.len() > 0,
    ensures
        history_line(v) == Some("["@ + role_word(role) + "] "@ + take_chars(c, 200)),
{
    reveal_strlit("user");
    reveal_strlit("assistant");
    assert("user"@ != "assistant"@) by {
        assert("user"@.len() != "assistant"@.len());
    }
    assert(take_chars(c, 200).len() > 0);
}

/// A user or assistant record with a non-empty `text` member gives the
/// line `[USER] ` / `[ASSISTANT] ` and that text cut to 200 characters,
/// whatever other members it carries.
pub proof fn lemma_history_text_line(v: JsonV, role: Seq<char>, t: Seq<char>)
    requires
        v.field("role"@) == Some(JsonV::Str(role)),
        role == "user"@ || role == "assistant"@,
        v.field("text"@) == Some(JsonV::Str(t)),
        t.len() > 0,
    ensures
        history_line(v) == Some("["@ + role_word(role) + "] "@ + take_chars(t, 200)),
{
    reveal_strlit("user");
    reveal_strlit("assistant");
    assert("user"@ != "assistant"@) by {
        assert("user"@.len() != "assistant"@.len());
    }
    assert(take_chars(t, 200).len() > 0);
}

/// A history made of one such record shows just its line.
pub proof fn lemma_history_of_one_record(v: JsonV, n: nat)
    requires
        n > 0,
        history_line(v) is Some,
    ensures
        history_digest(seq![Some(v)], n) == history_line(v)->0,
{
    let r = seq![Some(v)];
    reveal_with_fuel(last_lines, 2);
    assert(r.drop_last() =~= Seq::<Option<JsonV>>::empty());
    assert(last_lines(r.drop_last(), (n - 1) as nat) == Seq::<Seq<char>>::empty());
    assert(r.last() == Some(v));
    let ls = last_lines(r, n);
    assert(ls =~= seq![history_line(v)->0]);
}

/// The lines of all the records that give one, oldest first.
pub open spec fn all_lines(records: Seq<Option<JsonV>>) -> Seq<Seq<char>>
    decreases records.len(),
{
    if records.len() == 0 {
        Seq::empty()
    } else {
        let rest = all_lines(records.drop_last());
        match records.last() {
            Some(v) => match history_line(v) {
                Some(l) => rest.push(l),
                None => rest,
            },
            None => rest,
        }
    }
}

/// The digest keeps the last `n` lines: the lines of the records that give
/// one, oldest first, without all but the last `n` of them.
pub proof fn lemma_digest_keeps_last_lines(records: Seq<Option<JsonV>>, n: nat)
    ensures
        last_lines(records, n) == all_lines(records).skip(
            all_lines(records).len() - if all_lines(records).len() <= n {
                all_lines(records).len() as int
            } else {
                n as int
            },
        ),
    decreases records.len(),
{
    let a = all_lines(records);
    if records.len() == 0 {
        assert(a.skip(0) =~= a);
    } else if n == 0 {
        assert(a.skip(a.len() as int) =~= Seq::<Seq<char>>::empty());
    } else {
        let p = records.drop_last();
        let ap = all_lines(p);
        match records.last() {
            Some(v) => match history_line(v) {
                Some(l) => {
                    lemma_digest_keeps_last_lines(p, (n - 1) as nat);
                    let k: int = if ap.len() <= n - 1 {
                        ap.len() as int
                    } else {
                        n - 1
                    };
                    assert(a == ap.push(l));
                    assert(ap.skip(ap.len() - k).push(l) =~= ap.push(l).skip(ap.len() - k));
                },
                None => {
                    lemma_digest_keeps_last_lines(p, n);
                },
            },
            None => {
                lemma_digest_keeps_last_lines(p, n);
            },
        }
    }
}

/// The line is one of the user's or the assistant's.
pub open spec fn is_user_or_assistant_line(l: Seq<char>) -> bool {
    "[USER] "@.is_prefix_of(l) || "[ASSISTANT] "@.is_prefix_of(l)
}

/// The digest shows user and assistant lines only: every line it keeps
/// starts with `[USER] ` or `[ASSISTANT] `.
pub proof fn lemma_digest_is_user_and_assistant_only(records: Seq<Option<JsonV>>, n: nat)
    ensures
        forall|i: int|
            0 <= i < last_lines(records, n).len() ==> is_user_or_assistant_line(
                #[trigger] last_lines(records, n)[i],
            ),
    decreases records.len(),
{
    if records.len() > 0 && n > 0 {
        lemma_digest_is_user_and_assistant_only(records.drop_last(), n);
        lemma_digest_is_user_and_assistant_only(records.drop_last(), (n - 1) as nat);
        match records.last() {
            Some(v) => match history_line(v) {
                Some(l) => {
                    reveal_strlit("[USER] ");
                    reveal_strlit("[ASSISTANT] ");
                    reveal_strlit("[");
                    reveal_strlit("] ");
                    reveal_strlit("USER");
                    reveal_strlit("ASSISTANT");
                    let role = opt_text(
                        or_else(v.field("role"@), opt_step(v.step("message"@), "role"@)),
                    );
                    let label = role_label(role)->0;
                    let text = l.skip(label.len() + 3int);
                    assert(l == "["@ + label + "] "@ + text);
                    if label == "USER"@ {
                        assert(("["@ + label + "] "@ + text).take(7) =~= "[USER] "@);
                    } else {
                        assert(label == "ASSISTANT"@);
                        assert(("["@ + label + "] "@ + text).take(12) =~= "[ASSISTANT] "@);
                    }
                    assert(is_user_or_assistant_line(l));
                    let prev = last_lines(records.drop_last(), (n - 1) as nat);
                    assert(last_lines(records, n) == prev.push(l));
                    assert forall|i: int|
                        0 <= i < prev.push(l).len() implies is_user_or_assistant_line(
                        #[trigger] prev.push(l)[i],
                    ) by {
                        if i < prev.len() {
                            assert(prev.push(l)[i] == prev[i]);
                        }
                    }
                },
                None => {
                    assert(last_lines(records, n) == last_lines(records.drop_last(), n));
                },
            },
            None => {
                assert(last_lines(records, n) == last_lines(records.drop_last(), n));
            },
        }
    }
}

/// The history digest: the last `n` lines joined with newlines, or
/// `"(empty history)"`.
pub open spec fn history_digest(records: Seq<Option<JsonV>>, n: nat) -> Seq<char> {
    let ls = last_lines(records, n);
    if ls.len() == 0 {
        "(empty history)"@
    } else {
        join_lines(ls)
    }
}

/// The views of the records of a history file.
pub open spec fn records_view(v: Seq<Option<Json>>) -> Seq<Option<JsonV>> {
    Seq::new(
        v.len(),
        |i: int|
            match v[i] {
                Some(j) => Some(j@),
                None => None,
            },
    )
}

fn digest_line(v: &Json) -> (r: Option<String>)
    ensures
        match r {
            Some(l) => history_line(v@) == Some(l@),
            None => history_line(v@) is None,
        },
{
    let label = match str_in(first_of(v.get("role"), at_in(v.at("message"), "role"))) {
        Some(r) => if str_eq(r, "user") {
            "USER"
        } else if str_eq(r, "assistant") {
            "ASSISTANT"
        } else {
            return None;
        },
        None => return None,
    };
    let t = str_in(
        first_of(
            first_of(v.get("text"), at_in(at_in(at_in(v.at("message"), "content"), "0"), "text")),
            v.get("content"),
        ),
    );
    let text = match t {
        Some(t) => first_chars(t, 200),
        None => String::new(),
    };
    if text.as_str().is_empty() {
        return None;
    }
    let mut line = owned("[");
    push_str(&mut line, label);
    push_str(&mut line, "] ");
    push_str(&mut line, text.as_str());
    Some(line)
}

/// The views of a list of texts.
pub open spec fn texts_view(v: Seq<String>) -> Seq<Seq<char>> {
    Seq::new(v.len(), |i: int| v[i]@)
}

/// The last `n` user / assistant lines of a chat history, oldest first
/// (the digest `/history` shows), from its parsed lines.
pub fn history_text(records: &Vec<Option<Json>>, n: usize) -> (out: String)
    ensures
        out@ == history_digest(records_view(records@), n as nat),
{
    let ghost rs = records_view(records@);
    let mut acc: Vec<String> = Vec::new();
    let mut i: usize = records.len();
    assert(rs.take(rs.len() as int) =~= rs);
    while i > 0 && acc.len() < n
        invariant
            rs == records_view(records@),
            0 <= i <= records@.len(),
            acc@.len() <= n,
            last_lines(rs, n as nat) == last_lines(rs.take(i as int), (n - acc@.len()) as nat)
                + texts_view(acc@).reverse(),
        decreases i,
    {
        let ghost m = (n - acc@.len()) as nat;
        proof {
            assert(rs.take(i as int).drop_last() =~= rs.take(i - 1));
            assert(rs.take(i as int).last() == rs[i - 1]);
        }
        match &records[i - 1] {
            Some(v) => {
                match digest_line(v) {
                    Some(l) => {
                        let ghost old_acc = texts_view(acc@);
                        acc.push(l);
                        proof {
                            assert(texts_view(acc@) =~= old_acc.push(l@));
                            assert(texts_view(acc@).reverse() =~= seq![l@] + old_acc.reverse());
                            assert(last_lines(rs.take(i - 1), (m - 1) as nat).push(l@) + old_acc.reverse()
                                =~= last_lines(rs.take(i - 1), (m - 1) as nat) + texts_view(acc@).reverse());
                        }
                    },
                    None => {},
                }
            },
            None => {},
        }
        i = i - 1;
    }
    let ghost ls = last_lines(rs, n as nat);
    proof {
        assert(ls =~= texts_view(acc@).reverse());
    }
    if acc.len() == 0 {
        return owned("(empty history)");
    }
    let mut out = String::new();
    let mut j: usize = acc.len();
    push_str(&mut out, acc[j - 1].as_str());
    proof {
        assert(ls.take(1) =~= seq![ls[0]]);
        assert(ls[0] == acc@[acc@.len() - 1]@);
    }
    j = j - 1;
    while j > 0
        invariant
            0 <= j < acc@.len(),
            ls == texts_view(acc@).reverse(),
            out@ == join_lines(ls.take(acc@.len() - j)),
        decreases j,
    {
        push_char(&mut out, '\n');
        push_str(&mut out, acc[j - 1].as_str());
        proof {
            let k = acc@.len() - j;
            lemma_join_push(ls.take(k), ls[k]);
            assert(ls.take(k).push(ls[k]) =~= ls.take(k + 1));
            assert(ls[k] == acc@[j - 1]@);
        }
        j = j - 1;
    }
    assert(ls.take(acc@.len() as int) =~= ls);
    out
}

/// The records of a history file's lines: each line's JSON value, or
/// `None` for a line that is not JSON.
pub open spec fn line_records(lines: Seq<Seq<char>>) -> Seq<Option<JsonV>> {
    Seq::new(
        lines.len(),
        |i: int|
            match json_text_value(lines[i]) {
                Ok(v) => Some(v),
                Err(_) => None,
            },
    )
}

/// The last `n` user / assistant lines of a chat history, oldest first
/// (the digest `/history` shows), from the lines of its file.
pub fn history_of_lines(lines: &Vec<String>, n: usize) -> (out: String)
    ensures
        out@ == history_digest(line_records(Seq::new(lines@.len(), |i: int| lines@[i]@)), n as nat),
{
    let ghost ls = Seq::new(lines@.len(), |i: int| lines@[i]@);
    let mut records: Vec<Option<Json>> = Vec::new();
    let mut i: usize = 0;
    while i < lines.len()
        invariant
            ls == Seq::new(lines@.len(), |i: int| lines@[i]@),
            0 <= i <= lines@.len(),
            records@.len() == i,
            forall|k: int| 0 <= k < i ==> #[trigger] records_view(records@)[k] == line_records(ls)[k],
        decreases lines@.len() - i,
    {
        let r = match parse_json(lines[i].as_str()) {
            Ok(v) => Some(v),
            Err(_) => None,
        };
        let ghost before = records@;
        records.push(r);
        proof {
            assert forall|k: int| 0 <= k < i + 1 implies #[trigger] records_view(records@)[k]
                == line_records(ls)[k] by {
                if k < i {
                    assert(records@[k] == before[k]);
                    assert(records_view(before)[k] == line_records(ls)[k]);
                }
            }
        }
        i = i + 1;
    }
    assert(records_view(records@) =~= line_records(ls));
    history_text(&records, n)
}

} // verus!
