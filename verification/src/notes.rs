//! Notes queue for offline phone work: a first-in first-out list of parked
//! messages. The durable JSON file that holds it is read and written by the
//! caller; this module is the queue itself.
use vstd::prelude::*;
use crate::text::{decimal, u64_to_decimal};

verus! {

/// A parked message.
#[derive(Debug, Clone)]
pub struct Note {
    pub id: String,
    pub text: String,
    pub session_id: Option<String>,
    pub created_at: String,
    pub media_path: Option<String>,
    pub is_image: bool,
}

/// The spec-level form of a `Note`.
pub struct NoteV {
    pub id: Seq<char>,
    pub text: Seq<char>,
    pub session_id: Option<Seq<char>>,
    pub created_at: Seq<char>,
    pub media_path: Option<Seq<char>>,
    pub is_image: bool,
}

/// The view of an optional text.
pub open spec fn opt_text_view(s: Option<String>) -> Option<Seq<char>> {
    match s {
        Some(t) => Some(t@),
        None => None,
    }
}

impl View for Note {
    type V = NoteV;

    open spec fn view(&self) -> NoteV {
        NoteV {
            id: self.id@,
            text: self.text@,
            session_id: opt_text_view(self.session_id),
            created_at: self.created_at@,
            media_path: opt_text_view(self.media_path),
            is_image: self.is_image,
        }
    }
}

/// The views of a list of notes.
pub open spec fn notes_view(v: Seq<Note>) -> Seq<NoteV> {
    Seq::new(v.len(), |i: int| v[i]@)
}

/// The queue of parked notes, oldest first.
#[derive(Debug, Clone)]
pub struct NoteQueue {
    notes: Vec<Note>,
}

impl View for NoteQueue {
    type V = Seq<NoteV>;

    closed spec fn view(&self) -> Seq<NoteV> {
        notes_view(self.notes@)
    }
}

/// A lower-case hexadecimal digit.
pub open spec fn is_lower_hex(c: char) -> bool {
    ('0' <= c <= '9') || ('a' <= c <= 'f')
}

/// The text of a random (version 4) UUID in hyphenated lower-case form,
/// such as `67e55044-10b1-426f-9247-bb680e5fe0c8`.
pub open spec fn is_uuid_v4_text(s: Seq<char>) -> bool {
    &&& s.len() == 36
    &&& forall|i: int|
        0 <= i < 36 ==> if i == 8 || i == 13 || i == 18 || i == 23 {
            #[trigger] s[i] == '-'
        } else {
            is_lower_hex(s[i])
        }
    &&& s[14] == '4'
    &&& (s[19] == '8' || s[19] == '9' || s[19] == 'a' || s[19] == 'b')
}

/// A fresh note id.
///
/// Trusted: calls `uuid::Uuid::new_v4` and formats it with `to_string`.
/// The uuid source sets the version nibble to 4 and the variant bits to
/// `10`, and its `Display` writes the 36-character hyphenated lower-case
/// form; the random bits themselves are not stated.
#[verifier::external_body]
pub(crate) fn fresh_note_id() -> (id: String)
    ensures
        is_uuid_v4_text(id@),
{
    uuid::Uuid::new_v4().to_string()
}

/// A reading of the system clock, carried through unchanged.
#[verifier::external_type_specification]
#[verifier::external_body]
pub struct ExSystemTime(std::time::SystemTime);

/// Why a clock reading is before the epoch, carried through unchanged.
#[verifier::external_type_specification]
#[verifier::external_body]
pub struct ExSystemTimeError(std::time::SystemTimeError);

/// The system clock now.
///
/// Trusted: calls `SystemTime::now`; nothing is stated of the reading.
#[verifier::external_body]
fn clock_now() -> (t: std::time::SystemTime) {
    std::time::SystemTime::now()
}

/// The time from the Unix epoch to `t`, or an error when `t` is before it.
///
/// Trusted: calls `SystemTime::duration_since` with `UNIX_EPOCH`; nothing is
/// stated of the duration.
#[verifier::external_body]
fn since_epoch(t: &std::time::SystemTime) -> (r: Result<
    std::time::Duration,
    std::time::SystemTimeError,
>) {
    t.duration_since(std::time::UNIX_EPOCH)
}

/// The whole seconds of a duration.
///
/// Trusted: calls `Duration::as_secs`; the duration is opaque here, so
/// nothing is stated of the result.
#[verifier::external_body]
fn whole_secs(d: &std::time::Duration) -> (secs: u64) {
    d.as_secs()
}

/// The creation time of a note: the Unix seconds of the clock in decimal,
/// `"0"` when the clock reads before the epoch.
pub fn chrono_lite_now() -> (s: String)
    ensures
        exists|n: u64| s@ == decimal(n as nat),
{
    let now = clock_now();
    let secs = match since_epoch(&now) {
        Ok(d) => whole_secs(&d),
        Err(_) => 0,
    };
    u64_to_decimal(secs)
}

/// A copy of a note.
pub fn copy_note(n: &Note) -> (r: Note)
    ensures
        r@ == n@,
{
    Note {
        id: n.id.clone(),
        text: n.text.clone(),
        session_id: match &n.session_id {
            Some(s) => Some(s.clone()),
            None => None,
        },
        created_at: n.created_at.clone(),
        media_path: match &n.media_path {
            Some(s) => Some(s.clone()),
            None => None,
        },
        is_image: n.is_image,
    }
}

/// The queue after taking its first note, and that note.
pub open spec fn pop_front(q: Seq<NoteV>) -> (Seq<NoteV>, Option<NoteV>) {
    if q.len() == 0 {
        (q, None)
    } else {
        (q.drop_first(), Some(q[0]))
    }
}

/// The queue without the notes whose id is `id`.
pub open spec fn without_id(q: Seq<NoteV>, id: Seq<char>) -> Seq<NoteV> {
    q.filter(|n: NoteV| n.id != id)
}

/// The view of an optional note.
pub open spec fn opt_note_view(n: Option<Note>) -> Option<NoteV> {
    match n {
        Some(x) => Some(x@),
        None => None,
    }
}

impl NoteQueue {
    /// An empty queue.
    pub fn new() -> (q: NoteQueue)
        ensures
            q@ == Seq::<NoteV>::empty(),
    {
        let q = NoteQueue { notes: Vec::new() };
        assert(q@ =~= Seq::<NoteV>::empty());
        q
    }

    /// A queue holding `notes`, oldest first (as read back from storage).
    pub fn from_notes(notes: Vec<Note>) -> (q: NoteQueue)
        ensures
            q@ == notes_view(notes@),
    {
        NoteQueue { notes }
    }

    /// The notes of the queue, oldest first (for storage).
    pub fn into_notes(self) -> (v: Vec<Note>)
        ensures
            notes_view(v@) == self@,
    {
        self.notes
    }

    /// All parked notes, oldest first.
    pub fn list(&self) -> (v: Vec<Note>)
        ensures
            notes_view(v@) == self@,
    {
        let mut out: Vec<Note> = Vec::new();
        let mut i: usize = 0;
        while i < self.notes.len()
            invariant
                0 <= i <= self.notes@.len(),
                out@.len() == i,
                forall|j: int| 0 <= j < i ==> #[trigger] out@[j]@ == self.notes@[j]@,
            decreases self.notes@.len() - i,
        {
            out.push(copy_note(&self.notes[i]));
            i = i + 1;
        }
        assert(notes_view(out@) =~= self@);
        out
    }

    /// Appends a note made of the given parts; returns a copy of it.
    pub fn push_note(
        &mut self,
        id: String,
        text: String,
        session_id: Option<String>,
        created_at: String,
        media_path: Option<String>,
        is_image: bool,
    ) -> (n: Note)
        ensures
            n@ == (NoteV {
                id: id@,
                text: text@,
                session_id: opt_text_view(session_id),
                created_at: created_at@,
                media_path: opt_text_view(media_path),
                is_image,
            }),
            final(self)@ == old(self)@.push(n@),
    {
        let note = Note { id, text, session_id, created_at, media_path, is_image };
        let copy = copy_note(&note);
        self.notes.push(note);
        assert(self@ =~= old(self)@.push(copy@));
        copy
    }

    /// Parks a message: a note with a fresh id and the current time goes to
    /// the back of the queue; returns a copy of it.
    pub fn enqueue(
        &mut self,
        text: String,
        session_id: Option<String>,
        media_path: Option<String>,
        is_image: bool,
    ) -> (n: Note)
        ensures
            n@.text == text@,
            n@.session_id == opt_text_view(session_id),
            n@.media_path == opt_text_view(media_path),
            n@.is_image == is_image,
            is_uuid_v4_text(n@.id),
            exists|t: u64| n@.created_at == decimal(t as nat),
            final(self)@ == old(self)@.push(n@),
    {
        let id = fresh_note_id();
        let created_at = chrono_lite_now();
        self.push_note(id, text, session_id, created_at, media_path, is_image)
    }

    /// Takes the oldest note, if any.
    pub fn pop_next(&mut self) -> (r: Option<Note>)
        ensures
            (final(self)@, opt_note_view(r)) == pop_front(old(self)@),
    {
        if self.notes.len() == 0 {
            return None;
        }
        let n = self.notes.remove(0);
        assert(self@ =~= old(self)@.drop_first());
        Some(n)
    }

    /// Drops every note with the given id; whether any was dropped.
    pub fn remove(&mut self, id: &str) -> (removed: bool)
        ensures
            final(self)@ == without_id(old(self)@, id@),
            removed == (final(self)@.len() != old(self)@.len()),
    {
        let ghost pred = |n: NoteV| n.id != id@;
        let ghost before = self@;
        let mut old_notes: Vec<Note> = Vec::new();
        std::mem::swap(&mut old_notes, &mut self.notes);
        let mut kept: Vec<Note> = Vec::new();
        let mut i: usize = 0;
        let n = old_notes.len();
        assert(notes_view(old_notes@) == before);
        while i < n
            invariant
                n == old_notes@.len(),
                notes_view(old_notes@) == before,
                0 <= i <= n,
                notes_view(kept@) == before.take(i as int).filter(pred),
                pred == (|n: NoteV| n.id != id@),
            decreases n - i,
        {
            let keep = !crate::text::str_eq(old_notes[i].id.as_str(), id);
            proof {
                assert(before.take(i + 1).drop_last() =~= before.take(i as int));
                assert(before.take(i + 1).last() == old_notes@[i as int]@);
                reveal_with_fuel(Seq::filter, 1);
            }
            if keep {
                kept.push(copy_note(&old_notes[i]));
                assert(notes_view(kept@) =~= before.take(i as int).filter(pred).push(
                    old_notes@[i as int]@,
                ));
            }
            i = i + 1;
        }
        assert(before.take(n as int) =~= before);
        let removed = kept.len() != n;
        self.notes = kept;
        removed
    }

    /// Drops every note; how many there were.
    pub fn clear(&mut self) -> (n: usize)
        ensures
            n == old(self)@.len(),
            final(self)@ == Seq::<NoteV>::empty(),
    {
        let n = self.notes.len();
        self.notes = Vec::new();
        assert(self@ =~= Seq::<NoteV>::empty());
        n
    }

    /// How many notes are parked.
    pub fn count(&self) -> (n: usize)
        ensures
            n == self@.len(),
    {
        self.notes.len()
    }
}

/// First in, first out: taking the next note from a queue to which a note
/// was just added gives the queue's oldest note, or the added one when the
/// queue was empty, and leaves the rest in order.
pub proof fn lemma_queue_fifo(q: Seq<NoteV>, n: NoteV)
    ensures
        pop_front(q.push(n)) == (if q.len() == 0 {
            (Seq::<NoteV>::empty(), Some(n))
        } else {
            (q.drop_first().push(n), Some(q[0]))
        }),
{
    if q.len() == 0 {
        assert(q.push(n).drop_first() =~= Seq::<NoteV>::empty());
    } else {
        assert(q.push(n).drop_first() =~= q.drop_first().push(n));
    }
}

/// Removing by id reports a removal exactly when some note had that id,
/// and no note with that id is left.
pub proof fn lemma_remove_reports_presence(q: Seq<NoteV>, id: Seq<char>)
    ensures
        (without_id(q, id).len() != q.len()) <==> (exists|i: int|
            0 <= i < q.len() && (#[trigger] q[i]).id == id),
        forall|i: int| 0 <= i < without_id(q, id).len() ==> (#[trigger] without_id(q, id)[i]).id
            != id,
    decreases q.len(),
{
    let pred = |n: NoteV| n.id != id;
    reveal_with_fuel(Seq::filter, 1);
    if q.len() > 0 {
        let p = q.drop_last();
        lemma_remove_reports_presence(p, id);
        assert(without_id(q, id) == if pred(q.last()) {
            without_id(p, id).push(q.last())
        } else {
            without_id(p, id)
        });
        p.lemma_filter_len(pred);
        if exists|i: int| 0 <= i < p.len() && (#[trigger] p[i]).id == id {
            let i = choose|i: int| 0 <= i < p.len() && (#[trigger] p[i]).id == id;
            assert(q[i] == p[i]);
        }
        if exists|i: int| 0 <= i < q.len() && (#[trigger] q[i]).id == id {
            let i = choose|i: int| 0 <= i < q.len() && (#[trigger] q[i]).id == id;
            if i < p.len() {
                assert(p[i] == q[i]);
            }
        }
    }
}

/// The queue after adding the notes `ns` one after the other (what a run
/// of `enqueue` or `push_note` calls leaves).
pub open spec fn pushed_all(q: Seq<NoteV>, ns: Seq<NoteV>) -> Seq<NoteV>
    decreases ns.len(),
{
    if ns.len() == 0 {
        q
    } else {
        pushed_all(q.push(ns[0]), ns.drop_first())
    }
}

/// Notes added one after the other come after the ones already parked, in
/// the order they were added; so a queue that starts empty lists exactly
/// the added notes, oldest first, and counts them.
pub proof fn lemma_enqueues_append_in_order(q: Seq<NoteV>, ns: Seq<NoteV>)
    ensures
        pushed_all(q, ns) == q + ns,
        pushed_all(Seq::empty(), ns) == ns,
        pushed_all(Seq::empty(), ns).len() == ns.len(),
{
    lemma_pushed_all_concat(q, ns);
    lemma_pushed_all_concat(Seq::empty(), ns);
    assert(Seq::<NoteV>::empty() + ns =~= ns);
}

proof fn lemma_pushed_all_concat(q: Seq<NoteV>, ns: Seq<NoteV>)
    ensures
        pushed_all(q, ns) == q + ns,
    decreases ns.len(),
{
    if ns.len() == 0 {
        assert(q + ns =~= q);
    } else {
        lemma_pushed_all_concat(q.push(ns[0]), ns.drop_first());
        assert(q.push(ns[0]) + ns.drop_first() =~= q + ns);
    }
}

/// Adding a note whose id no parked note has, then removing that id, gives
/// back the queue as it was, and the removal reports it.
pub proof fn lemma_push_then_remove(q: Seq<NoteV>, n: NoteV)
    requires
        forall|i: int| 0 <= i < q.len() ==> (#[trigger] q[i]).id != n.id,
    ensures
        without_id(q.push(n), n.id) == q,
        without_id(q.push(n), n.id).len() != q.push(n).len(),
{
    let pred = |x: NoteV| x.id != n.id;
    reveal_with_fuel(Seq::filter, 1);
    assert(q.push(n).drop_last() =~= q);
    assert(q.push(n).filter(pred) == q.filter(pred));
    lemma_filter_keeps_all(q, n.id);
}

proof fn lemma_filter_keeps_all(q: Seq<NoteV>, id: Seq<char>)
    requires
        forall|i: int| 0 <= i < q.len() ==> (#[trigger] q[i]).id != id,
    ensures
        without_id(q, id) == q,
    decreases q.len(),
{
    reveal_with_fuel(Seq::filter, 1);
    if q.len() > 0 {
        let p = q.drop_last();
        assert forall|i: int| 0 <= i < p.len() implies (#[trigger] p[i]).id != id by {
            assert(p[i] == q[i]);
        }
        lemma_filter_keeps_all(p, id);
        assert(q.last().id != id);
        assert(p.push(q.last()) =~= q);
    }
}

} // verus!
