//! Fail-closed Telegram allowlist.
use vstd::prelude::*;
use crate::json::{all_digits, digits_value, is_digit, lemma_digits_prefix_le};
use crate::text::{decimal, digit_char, is_white_space, signed_decimal, trim, white_space};

verus! {

/// Authorized operators for the bot.
#[derive(Debug, Clone)]
pub struct AuthPolicy {
    allowed_user_ids: Vec<i64>,
}

impl View for AuthPolicy {
    type V = Seq<i64>;

    closed spec fn view(&self) -> Seq<i64> {
        self.allowed_user_ids@
    }
}

/// A separator of the allowlist: a comma or white space.
pub open spec fn is_separator(c: char) -> bool {
    c == ',' || is_white_space(c)
}

/// The pieces of `s` between separators, empty pieces included
/// (`str::split` with a separator predicate).
pub open spec fn split_pieces(s: Seq<char>) -> Seq<Seq<char>>
    decreases s.len(),
{
    if s.len() == 0 {
        seq![Seq::empty()]
    } else {
        let p = split_pieces(s.drop_last());
        if is_separator(s.last()) {
            p.push(Seq::empty())
        } else {
            p.update(p.len() - 1, p.last().push(s.last()))
        }
    }
}

/// What `str::parse::<i64>` accepts: an optional `+` or `-`, then at least
/// one decimal digit, with the value in the range of `i64`.
pub open spec fn parse_int(t: Seq<char>) -> Option<int> {
    let signed = t.len() > 0 && (t[0] == '-' || t[0] == '+');
    let ds = if signed {
        t.drop_first()
    } else {
        t
    };
    if ds.len() == 0 || !all_digits(ds) {
        None
    } else {
        let v = if t.len() > 0 && t[0] == '-' {
            -(digits_value(ds) as int)
        } else {
            digits_value(ds) as int
        };
        if i64::MIN <= v <= i64::MAX {
            Some(v)
        } else {
            None
        }
    }
}

/// The user id a piece of the allowlist names, if any: the trimmed piece,
/// when it is not empty and parses as an `i64`.
pub open spec fn piece_id(p: Seq<char>) -> Option<int> {
    if trim(p).len() == 0 {
        None
    } else {
        parse_int(trim(p))
    }
}

/// The ids named by a list of pieces, in order.
pub open spec fn ids_of(ps: Seq<Seq<char>>) -> Seq<i64>
    decreases ps.len(),
{
    if ps.len() == 0 {
        Seq::empty()
    } else {
        match piece_id(ps.last()) {
            Some(v) => ids_of(ps.drop_last()).push(v as i64),
            None => ids_of(ps.drop_last()),
        }
    }
}

/// The allowlist that a comma / white-space separated list of ids gives.
pub open spec fn csv_ids(csv: Seq<char>) -> Seq<i64> {
    ids_of(split_pieces(csv))
}

/// The decision of the allowlist: a user is let in only when the list is
/// not empty and holds the user's id.
pub open spec fn authorized(ids: Seq<i64>, user_id: Option<i64>) -> bool {
    ids.len() > 0 && match user_id {
        Some(u) => ids.contains(u),
        None => false,
    }
}

proof fn lemma_trim_no_space(p: Seq<char>)
    requires
        forall|i: int| 0 <= i < p.len() ==> !is_white_space(#[trigger] p[i]),
    ensures
        trim(p) == p,
{
    if p.len() > 0 {
        assert(!is_white_space(p[0]));
        assert(!is_white_space(p.last()));
    }
}

/// Parses a piece of the allowlist (`str::parse::<i64>`).
fn parse_i64(t: &Vec<char>) -> (r: Option<i64>)
    ensures
        r matches Some(v) ==> parse_int(t@) == Some(v as int),
        r is None ==> parse_int(t@) is None,
{
    let neg = t.len() > 0 && t[0] == '-';
    let signed = t.len() > 0 && (t[0] == '-' || t[0] == '+');
    let start: usize = if signed {
        1
    } else {
        0
    };
    let ghost ds = if signed {
        t@.drop_first()
    } else {
        t@
    };
    assert(ds =~= t@.subrange(start as int, t@.len() as int));
    if t.len() == start {
        return None;
    }
    let limit: u64 = if neg {
        9223372036854775808u64
    } else {
        9223372036854775807u64
    };
    let mut acc: u64 = 0;
    let mut i: usize = start;
    while i < t.len()
        invariant
            ds =~= t@.subrange(start as int, t@.len() as int),
            ds == (if t@.len() > 0 && (t@[0] == '-' || t@[0] == '+') {
                t@.drop_first()
            } else {
                t@
            }),
            neg == (t@.len() > 0 && t@[0] == '-'),
            start <= i <= t@.len(),
            all_digits(ds.take(i - start)),
            acc as nat == digits_value(ds.take(i - start)),
            acc <= limit,
            limit == (if neg {
                9223372036854775808u64
            } else {
                9223372036854775807u64
            }),
        decreases t@.len() - i,
    {
        let c = t[i];
        if !('0' <= c && c <= '9') {
            assert(!all_digits(ds)) by {
                assert(!is_digit(ds[i - start]));
            }
            return None;
        }
        proof {
            assert(ds.take(i - start + 1) =~= ds.take(i - start).push(c));
            assert(ds.take(i - start + 1).drop_last() =~= ds.take(i - start));
        }
        let d = (c as u32 - 48) as u64;
        if acc > (limit - d) / 10 {
            proof {
                assert(digits_value(ds.take(i - start + 1)) > limit) by (nonlinear_arith)
                    requires
                        digits_value(ds.take(i - start + 1)) == acc * 10 + d,
                        acc > (limit - d) / 10,
                        d <= 9,
                        limit >= 9,
                ;
                if all_digits(ds) {
                    lemma_digits_prefix_le(ds, i - start + 1);
                }
            }
            return None;
        }
        proof {
            assert(acc * 10 + d <= limit) by (nonlinear_arith)
                requires
                    acc <= (limit - d) / 10,
                    d <= 9,
                    limit >= 9,
            ;
        }
        acc = acc * 10 + d;
        i = i + 1;
    }
    assert(ds.take(ds.len() as int) =~= ds);
    if neg {
        if acc == 9223372036854775808u64 {
            Some(i64::MIN)
        } else {
            Some(-(acc as i64))
        }
    } else {
        Some(acc as i64)
    }
}

impl AuthPolicy {
    /// Builds the allowlist from comma / white-space separated user ids;
    /// pieces that are not ids are skipped. Empty allowlist denies everyone.
    pub fn from_csv(csv: &str) -> (p: AuthPolicy)
        ensures
            p@ == csv_ids(csv@),
    {
        let mut ids: Vec<i64> = Vec::new();
        let mut cur: Vec<char> = Vec::new();
        let mut done: Ghost<Seq<Seq<char>>> = Ghost(Seq::empty());
        let ghost s = csv@;
        assert(s.take(0) =~= Seq::<char>::empty());
        for c in iter: csv.chars()
            invariant
                iter.seq() == s,
                split_pieces(s.take(iter.index() as int)) == done@.push(cur@),
                ids@ == ids_of(done@),
                forall|j: int| 0 <= j < cur@.len() ==> !is_separator(#[trigger] cur@[j]),
        {
            let ghost i = iter.index() as int;
            proof {
                assert(s.take(i + 1).drop_last() =~= s.take(i));
                assert(s.take(i + 1).last() == c);
            }
            if c == ',' || white_space(c) {
                proof {
                    lemma_trim_no_space(cur@);
                    assert(done@.push(cur@).drop_last() =~= done@);
                }
                match parse_i64(&cur) {
                    Some(v) => ids.push(v),
                    None => {},
                }
                proof {
                    assert(ids_of(done@.push(cur@)) == ids@);
                    done@ = done@.push(cur@);
                }
                cur = Vec::new();
                assert(split_pieces(s.take(i + 1)) =~= done@.push(cur@));
            } else {
                cur.push(c);
                assert(split_pieces(s.take(i + 1)) =~= done@.push(cur@));
            }
        }
        proof {
            assert(s.take(s.len() as int) =~= s);
            lemma_trim_no_space(cur@);
            assert(done@.push(cur@).drop_last() =~= done@);
        }
        match parse_i64(&cur) {
            Some(v) => ids.push(v),
            None => {},
        }
        AuthPolicy { allowed_user_ids: ids }
    }

    /// Whether nobody is allowed.
    pub fn is_empty(&self) -> (r: bool)
        ensures
            r == (self@.len() == 0),
    {
        self.allowed_user_ids.len() == 0
    }

    /// Fail-closed: must have non-empty allowlist and matching user id.
    pub fn authorize(&self, user_id: Option<i64>) -> (r: bool)
        ensures
            r == authorized(self@, user_id),
    {
        if self.allowed_user_ids.len() == 0 {
            return false;
        }
        match user_id {
            Some(uid) => {
                let mut i: usize = 0;
                while i < self.allowed_user_ids.len()
                    invariant
                        self@.len() > 0,
                        user_id == Some(uid),
                        0 <= i <= self@.len(),
                        forall|j: int| 0 <= j < i ==> self@[j] != uid,
                    decreases self@.len() - i,
                {
                    if self.allowed_user_ids[i] == uid {
                        assert(self@.contains(uid)) by {
                            assert(self@[i as int] == uid);
                        }
                        return true;
                    }
                    i = i + 1;
                }
                false
            },
            None => false,
        }
    }
}

/// Fail-closed: an allowlist lets a user in exactly when the list names the
/// user's id among the pieces of the text it was built from; a missing
/// user id, and any id when the text names none, are refused.
pub proof fn lemma_allowlist_admits_exactly_listed(csv: Seq<char>, user_id: Option<i64>)
    ensures
        authorized(csv_ids(csv), user_id) <==> (match user_id {
            Some(u) => exists|i: int|
                0 <= i < split_pieces(csv).len() && #[trigger] piece_id(split_pieces(csv)[i])
                    == Some(u as int),
            None => false,
        }),
{
    let ps = split_pieces(csv);
    match user_id {
        Some(u) => {
            lemma_ids_of_contains(ps, u);
        },
        None => {},
    }
}

/// An id is in `ids_of(ps)` exactly when some piece names it.
proof fn lemma_ids_of_contains(ps: Seq<Seq<char>>, u: i64)
    ensures
        ids_of(ps).contains(u) <==> exists|i: int|
            0 <= i < ps.len() && #[trigger] piece_id(ps[i]) == Some(u as int),
        ids_of(ps).contains(u) ==> ids_of(ps).len() > 0,
    decreases ps.len(),
{
    if ps.len() > 0 {
        let q = ps.drop_last();
        lemma_ids_of_contains(q, u);
        if exists|i: int| 0 <= i < q.len() && #[trigger] piece_id(q[i]) == Some(u as int) {
            let i = choose|i: int| 0 <= i < q.len() && #[trigger] piece_id(q[i]) == Some(u as int);
            assert(ps[i] == q[i]);
        }
        if exists|i: int| 0 <= i < ps.len() && #[trigger] piece_id(ps[i]) == Some(u as int) {
            let i = choose|i: int| 0 <= i < ps.len() && #[trigger] piece_id(ps[i]) == Some(u as int);
            if i < q.len() {
                assert(q[i] == ps[i]);
            }
        }
        match piece_id(ps.last()) {
            Some(v) => {
                let r = ids_of(q);
                let w = r.push(v as i64);
                assert(ids_of(ps) == w);
                if w.contains(u) {
                    let k = choose|k: int| 0 <= k < w.len() && #[trigger] w[k] == u;
                    if k < r.len() {
                        assert(r[k] == w[k]);
                        assert(r.contains(u));
                    }
                }
                if r.contains(u) {
                    let k = choose|k: int| 0 <= k < r.len() && #[trigger] r[k] == u;
                    assert(w[k] == u);
                }
                if v as i64 == u {
                    assert(w[r.len() as int] == u);
                }
            },
            None => {},
        }
    }
}

proof fn lemma_split_nonempty(s: Seq<char>)
    ensures
        split_pieces(s).len() >= 1,
    decreases s.len(),
{
    if s.len() > 0 {
        lemma_split_nonempty(s.drop_last());
    }
}

/// Splitting at a separator: the pieces of `a`, a separator and `b` are
/// the pieces of `a` followed by the pieces of `b`.
proof fn lemma_split_join(a: Seq<char>, sep: char, b: Seq<char>)
    requires
        is_separator(sep),
    ensures
        split_pieces(a + seq![sep] + b) == split_pieces(a) + split_pieces(b),
    decreases b.len(),
{
    let x = a + seq![sep] + b;
    if b.len() == 0 {
        assert(x.drop_last() =~= a);
        assert(x.last() == sep);
        assert(split_pieces(b) == seq![Seq::<char>::empty()]);
        assert(split_pieces(a).push(Seq::<char>::empty()) =~= split_pieces(a) + seq![
            Seq::<char>::empty(),
        ]);
    } else {
        lemma_split_join(a, sep, b.drop_last());
        lemma_split_nonempty(b.drop_last());
        assert(x.drop_last() =~= a + seq![sep] + b.drop_last());
        assert(x.last() == b.last());
        let pa = split_pieces(a);
        let pb = split_pieces(b.drop_last());
        if is_separator(b.last()) {
            assert((pa + pb).push(Seq::<char>::empty()) =~= pa + pb.push(Seq::<char>::empty()));
        } else {
            let n = pb.len();
            assert((pa + pb).last() == pb.last());
            assert((pa + pb).update(pa.len() + n - 1, pb.last().push(b.last())) =~= pa + pb.update(
                n - 1,
                pb.last().push(b.last()),
            ));
        }
    }
}

proof fn lemma_ids_concat(p: Seq<Seq<char>>, q: Seq<Seq<char>>)
    ensures
        ids_of(p + q) == ids_of(p) + ids_of(q),
    decreases q.len(),
{
    if q.len() == 0 {
        assert(p + q =~= p);
        assert(ids_of(p) + ids_of(q) =~= ids_of(p));
    } else {
        lemma_ids_concat(p, q.drop_last());
        assert((p + q).drop_last() =~= p + q.drop_last());
        assert((p + q).last() == q.last());
        match piece_id(q.last()) {
            Some(v) => {
                assert((ids_of(p) + ids_of(q.drop_last())).push(v as i64) =~= ids_of(p) + ids_of(
                    q.drop_last(),
                ).push(v as i64));
            },
            None => {},
        }
    }
}

/// Joining two allowlists with a comma or white space lists the ids of
/// both, in order, so the joined list lets in exactly the users that either
/// one lets in.
pub proof fn lemma_allowlist_join(a: Seq<char>, sep: char, b: Seq<char>, u: i64)
    requires
        is_separator(sep),
    ensures
        csv_ids(a + seq![sep] + b) == csv_ids(a) + csv_ids(b),
        authorized(csv_ids(a + seq![sep] + b), Some(u)) == (authorized(csv_ids(a), Some(u))
            || authorized(csv_ids(b), Some(u))),
{
    lemma_split_join(a, sep, b);
    lemma_ids_concat(split_pieces(a), split_pieces(b));
    let x = csv_ids(a);
    let y = csv_ids(b);
    let z = x + y;
    if z.contains(u) {
        let i = choose|i: int| 0 <= i < z.len() && #[trigger] z[i] == u;
        if i < x.len() {
            assert(x[i] == u);
        } else {
            assert(y[i - x.len()] == u);
        }
    }
    if x.contains(u) {
        let i = choose|i: int| 0 <= i < x.len() && #[trigger] x[i] == u;
        assert(z[i] == u);
    }
    if y.contains(u) {
        let i = choose|i: int| 0 <= i < y.len() && #[trigger] y[i] == u;
        assert(z[i + x.len()] == u);
    }
}

proof fn lemma_decimal_digits(n: nat)
    ensures
        decimal(n).len() > 0,
        all_digits(decimal(n)),
        digits_value(decimal(n)) == n,
    decreases n,
{
    if n < 10 {
        reveal_with_fuel(digits_value, 2);
        let d = decimal(n);
        assert(d == seq![digit_char(n)]);
        assert(digit_char(n) as nat == n + 48);
        assert(d.drop_last() =~= Seq::<char>::empty());
        assert(d.last() == digit_char(n));
        assert(digits_value(Seq::<char>::empty()) == 0);
    } else {
        lemma_decimal_digits(n / 10);
        let p = decimal(n / 10);
        let d = p.push(digit_char(n % 10));
        assert(d == decimal(n));
        assert(digit_char(n % 10) as nat == n % 10 + 48);
        assert(d.drop_last() =~= p);
        assert forall|i: int| 0 <= i < d.len() implies is_digit(#[trigger] d[i]) by {
            if i < p.len() {
                assert(d[i] == p[i]);
            }
        }
        assert(d.last() == digit_char(n % 10));
        assert(digits_value(d) == (n / 10) * 10 + n % 10);
    }
}

proof fn lemma_no_separator_one_piece(t: Seq<char>)
    requires
        forall|i: int| 0 <= i < t.len() ==> !is_separator(#[trigger] t[i]),
    ensures
        split_pieces(t) == seq![t],
    decreases t.len(),
{
    if t.len() == 0 {
        assert(t =~= Seq::<char>::empty());
    } else {
        let p = t.drop_last();
        assert forall|i: int| 0 <= i < p.len() implies !is_separator(#[trigger] p[i]) by {
            assert(p[i] == t[i]);
        }
        lemma_no_separator_one_piece(p);
        assert(!is_separator(t.last()));
        assert(p.push(t.last()) =~= t);
        assert(seq![p].last() == p);
        assert(seq![p].update(0, t) =~= seq![t]);
    }
}

/// An allowlist that is one user id written in decimal lets in exactly
/// that user: the text `42` admits user 42 and nobody else (negative ids
/// too, written with `-`).
pub proof fn lemma_single_id_allowlist(u: i64, other: Option<i64>)
    ensures
        csv_ids(signed_decimal(u as int)) == seq![u],
        authorized(csv_ids(signed_decimal(u as int)), other) <==> other == Some(u),
{
    let m: nat = if u < 0 {
        (-u) as nat
    } else {
        u as nat
    };
    lemma_decimal_digits(m);
    let d = decimal(m);
    let t = signed_decimal(u as int);
    assert forall|i: int| 0 <= i < d.len() implies !is_separator(#[trigger] d[i])
        && !is_white_space(d[i]) by {
        assert(is_digit(d[i]));
    }
    assert forall|i: int| 0 <= i < t.len() implies !is_separator(#[trigger] t[i])
        && !is_white_space(t[i]) by {
        if u < 0 {
            if i > 0 {
                assert(t[i] == d[i - 1]);
            }
        } else {
            assert(t[i] == d[i]);
        }
    }
    lemma_no_separator_one_piece(t);
    lemma_trim_no_space(t);
    if u < 0 {
        assert(t[0] == '-');
        assert(t.drop_first() =~= d);
    } else {
        assert(is_digit(t[0]));
    }
    assert(parse_int(t) == Some(u as int));
    assert(piece_id(t) == Some(u as int));
    let ps = seq![t];
    reveal_with_fuel(ids_of, 2);
    assert(ps.drop_last() =~= Seq::<Seq<char>>::empty());
    assert(ps.last() == t);
    assert(ids_of(ps) =~= seq![u]);
    if other is Some && seq![u].contains(other->0) {
        let k = choose|k: int| 0 <= k < 1 && seq![u][k] == other->0;
    }
    if other == Some(u) {
        assert(seq![u][0] == u);
    }
}

} // verus!
