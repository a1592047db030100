//! Whole-file mutation primitives: ensure identifiers, mark a record
//! complete, and append a new record. Each works on full file content and
//! returns the rewritten content; reading and writing the file is the
//! caller's concern.
use vstd::prelude::*;
use vstd::string::*;
use chrono::Datelike;
use crate::date::Date;
use crate::date::date_valid;
use crate::date::render_date;
use crate::date::format_date;
use crate::record::Item;
use crate::record::parse_line;
use crate::record::is_priority_token;
use crate::text::is_space_char;
use crate::text::is_digit_char;
use crate::text::str_eq;
use crate::toks::tokens_of;
use crate::toks::lines_of;
use crate::toks::no_newline;
use crate::toks::join_lines;
use crate::toks::join_lines_exec;
use crate::toks::split_lines;
use crate::toks::tokenize;

verus! {

/// The identifier a line carries, if any.
pub open spec fn line_id(l: Seq<char>) -> Option<Seq<char>> {
    parse_line(l, 0).id
}

/// A line that needs an identifier: non-blank and carrying none.
pub open spec fn needs_id(l: Seq<char>) -> bool {
    tokens_of(l).len() > 0 && line_id(l) is None
}

/// How many lines of a run need an identifier.
pub open spec fn missing_count(ls: Seq<Seq<char>>) -> nat
    decreases ls.len(),
{
    if ls.len() == 0 {
        0
    } else {
        missing_count(ls.drop_last()) + if needs_id(ls.last()) {
            1nat
        } else {
            0nat
        }
    }
}

/// A line with a newly assigned identifier appended.
pub open spec fn line_with_id(l: Seq<char>, id: Seq<char>) -> Seq<char> {
    l + seq![' ', 'i', 'd', ':'] + id
}

/// The lines after the ensure-identifiers pass: lines that need one get the
/// next fresh identifier, in file order; all others are untouched.
pub open spec fn lines_with_ids(ls: Seq<Seq<char>>, ids: Seq<Seq<char>>) -> Seq<Seq<char>>
    decreases ls.len(),
{
    if ls.len() == 0 {
        Seq::empty()
    } else if needs_id(ls.last()) {
        lines_with_ids(ls.drop_last(), ids.drop_last()).push(
            line_with_id(ls.last(), ids.last()),
        )
    } else {
        lines_with_ids(ls.drop_last(), ids).push(ls.last())
    }
}

/// The characters of a hyphenated lower-case identifier token.
pub open spec fn is_uuid_char(c: char) -> bool {
    is_digit_char(c) || c == '-' || c == 'a' || c == 'b' || c == 'c' || c == 'd' || c == 'e'
        || c == 'f'
}

/// A freshly generated identifier value: 36 hyphenated hex characters.
pub open spec fn uuid_wf(s: Seq<char>) -> bool {
    s.len() == 36 && forall|k: int| 0 <= k < s.len() ==> is_uuid_char(#[trigger] s[k])
}

pub open spec fn uuid_seq_wf(ids: Seq<Seq<char>>) -> bool {
    forall|i: int| 0 <= i < ids.len() ==> uuid_wf(#[trigger] ids[i])
}

/// Relies on `uuid::Uuid::new_v4` and the `Display` form of `uuid::Uuid`:
/// a random version-4 UUID printed as 36 lower-case hyphenated hexadecimal
/// characters. Nothing is assumed about which identifier comes back.
#[verifier::external_body]
fn fresh_id() -> (r: String)
    ensures
        uuid_wf(r@),
{
    uuid::Uuid::new_v4().to_string()
}

/// Relies on `chrono::Local::now`, `chrono::DateTime::date_naive` and the
/// `chrono::Datelike` accessors of `chrono::NaiveDate`: the current local
/// date, which `NaiveDate` keeps as a real day of the proleptic Gregorian
/// calendar. Nothing is assumed about which day it is.
#[verifier::external_body]
fn today_ymd() -> (r: (i32, u8, u8))
    ensures
        1 <= r.1 <= 12,
        1 <= r.2 <= 31,
        r.2 as int <= crate::date::days_in_month(r.0 as int, r.1 as int),
{
    let now = chrono::Local::now().date_naive();
    (now.year(), now.month() as u8, now.day() as u8)
}

/// Counts the lines that need an identifier.
fn count_missing(content: &str) -> (r: usize)
    ensures
        r as nat == missing_count(lines_of(content@)),
{
    let lines = split_lines(content);
    let ghost lv = lines.deep_view();
    let mut missing: usize = 0;
    let mut k: usize = 0;
    proof {
        assert(lv.take(0) =~= Seq::<Seq<char>>::empty());
    }
    while k < lines.len()
        invariant
            k <= lines@.len(),
            lv == lines.deep_view(),
            lv == lines_of(content@),
            missing <= k,
            missing as nat == missing_count(lv.take(k as int)),
        decreases lines@.len() - k,
    {
        let line: &str = lines[k];
        let toks = tokenize(line);
        let it = Item::parse(line, 0);
        proof {
            assert(lv.take(k + 1).drop_last() =~= lv.take(k as int));
            assert(lv.take(k + 1).last() == lv[k as int]);
        }
        if toks.len() > 0 && it.id.is_none() {
            missing = missing + 1;
        }
        k = k + 1;
    }
    proof {
        assert(lv.take(lines@.len() as int) =~= lv);
    }
    missing
}

/// Appends ` id:` and the next given identifier to every non-blank line
/// that parses without one; all other lines are untouched byte for byte.
/// Returns the rewritten content, or `None` when no line changed (the file
/// is then left untouched). The pass is verified for every choice of
/// identifiers; `add_missing_ids` draws them and delegates here.
pub fn add_ids(content: &str, ids: &Vec<String>) -> (r: Option<String>)
    requires
        ids.deep_view().len() == missing_count(lines_of(content@)),
    ensures
        r is None <==> missing_count(lines_of(content@)) == 0,
        r is Some ==> r->0@ == join_lines(
            lines_with_ids(lines_of(content@), ids.deep_view()),
        ),
{
    let lines = split_lines(content);
    let nids = ids.len();
    let ghost lv = lines.deep_view();
    let ghost iv = ids.deep_view();
    let mut out: Vec<String> = Vec::new();
    let mut used: usize = 0;
    let mut k: usize = 0;
    proof {
        assert(lv.take(0) =~= Seq::<Seq<char>>::empty());
        assert(iv.take(0) =~= Seq::<Seq<char>>::empty());
        assert(out.deep_view() =~= lines_with_ids(lv.take(0), iv.take(0)));
    }
    while k < lines.len()
        invariant
            k <= lines@.len(),
            lv == lines.deep_view(),
            lv == lines_of(content@),
            iv == ids.deep_view(),
            nids == iv.len(),
            iv.len() == missing_count(lv),
            used as nat == missing_count(lv.take(k as int)),
            out.deep_view() == lines_with_ids(lv.take(k as int), iv.take(used as int)),
        decreases lines@.len() - k,
    {
        let line: &str = lines[k];
        let toks = tokenize(line);
        let it = Item::parse(line, 0);
        let ghost prev = out.deep_view();
        proof {
            assert(lv.take(k + 1).drop_last() =~= lv.take(k as int));
            assert(lv.take(k + 1).last() == lv[k as int]);
        }
        if toks.len() == 0 || it.id.is_some() {
            out.push(line.to_owned());
            proof {
                assert(!needs_id(lv[k as int]));
                assert(out.deep_view() =~= prev.push(lv[k as int]));
            }
        } else {
            proof {
                assert(needs_id(lv[k as int]));
                lemma_missing_strict(lv, k as int);
            }
            let mut nl = line.to_owned();
            nl.append(" id:");
            nl.append(ids[used].as_str());
            proof {
                reveal_strlit(" id:");
                assert(" id:"@ =~= seq![' ', 'i', 'd', ':']);
                assert(nl@ =~= line_with_id(lv[k as int], iv[used as int]));
            }
            out.push(nl);
            used = used + 1;
            proof {
                assert(iv.take(used as int).drop_last() =~= iv.take(used - 1));
                assert(iv.take(used as int).last() == iv[used - 1]);
                assert(out.deep_view() =~= prev.push(
                    line_with_id(lv[k as int], iv.take(used as int).last()),
                ));
            }
        }
        k = k + 1;
    }
    proof {
        assert(lv.take(lines@.len() as int) =~= lv);
        assert(iv.take(used as int) =~= iv);
    }
    if used > 0 {
        Some(join_lines_exec(&out))
    } else {
        None
    }
}

/// Appends ` id:<fresh>` to every non-blank line that parses without an
/// identifier, drawing one fresh identifier per such line. Returns the
/// rewritten content, or `None` when no line changed (the file is then
/// left untouched).
pub fn add_missing_ids(content: &str) -> (r: Option<String>)
    ensures
        r is None <==> missing_count(lines_of(content@)) == 0,
        r is Some ==> exists|ids: Seq<Seq<char>>|
            ids.len() == missing_count(lines_of(content@)) && uuid_seq_wf(ids) && r->0@
                == join_lines(lines_with_ids(lines_of(content@), ids)),
{
    let missing = count_missing(content);
    let mut ids: Vec<String> = Vec::new();
    while ids.len() < missing
        invariant
            ids@.len() <= missing,
            uuid_seq_wf(ids.deep_view()),
        decreases missing - ids@.len(),
    {
        let ghost prev = ids.deep_view();
        ids.push(fresh_id());
        proof {
            assert(ids.deep_view() =~= prev.push(ids.deep_view().last()));
        }
    }
    let r = add_ids(content, &ids);
    proof {
        if r is Some {
            assert(ids.deep_view().len() == missing_count(lines_of(content@)) && uuid_seq_wf(
                ids.deep_view(),
            ) && r->0@ == join_lines(lines_with_ids(lines_of(content@), ids.deep_view())));
        }
    }
    r
}

/// The number of identifier-needing lines only grows along a prefix, and
/// strictly across a line that needs one.
proof fn lemma_missing_mono(ls: Seq<Seq<char>>, a: int, b: int)
    requires
        0 <= a <= b <= ls.len(),
    ensures
        missing_count(ls.take(a)) <= missing_count(ls.take(b)),
    decreases b,
{
    if a < b {
        lemma_missing_mono(ls, a, b - 1);
        assert(ls.take(b).drop_last() =~= ls.take(b - 1));
        assert(ls.take(b).last() == ls[b - 1]);
    }
}

proof fn lemma_missing_strict(ls: Seq<Seq<char>>, i: int)
    requires
        0 <= i < ls.len(),
        needs_id(ls[i]),
    ensures
        missing_count(ls.take(i)) + 1 <= missing_count(ls),
{
    assert(ls.take(i + 1).drop_last() =~= ls.take(i));
    assert(ls.take(i + 1).last() == ls[i]);
    lemma_missing_mono(ls, i + 1, ls.len() as int);
    assert(ls.take(ls.len() as int) =~= ls);
}

/// A run of lines in which no line still needs an identifier.
pub open spec fn all_have_ids(ls: Seq<Seq<char>>) -> bool {
    forall|i: int| 0 <= i < ls.len() ==> !needs_id(#[trigger] ls[i])
}

proof fn lemma_no_needs_no_missing(ls: Seq<Seq<char>>)
    requires
        all_have_ids(ls),
    ensures
        missing_count(ls) == 0,
    decreases ls.len(),
{
    if ls.len() > 0 {
        lemma_no_needs_no_missing(ls.drop_last());
    }
}

/// Appending an identifier token to any line gives a line that carries an
/// identifier.
proof fn lemma_line_with_id_has_id(l: Seq<char>, id: Seq<char>)
    requires
        uuid_wf(id),
    ensures
        !needs_id(line_with_id(l, id)),
        line_id(line_with_id(l, id)) == Some(id),
        no_newline(l) ==> no_newline(line_with_id(l, id)),
{
    let idtok = seq!['i', 'd', ':'] + id;
    let nl = line_with_id(l, id);
    assert(nl =~= l + (seq![' '] + idtok));
    crate::toks::lemma_tokens_of_concat(l, seq![' '] + idtok);
    assert((seq![' '] + idtok).drop_first() =~= idtok);
    assert(crate::toks::wf_token(idtok)) by {
        assert(!is_space_char('i') && !is_space_char('d') && !is_space_char(':'));
        assert(forall|k: int| 0 <= k < id.len() ==> !is_space_char(#[trigger] id[k]));
    }
    crate::toks::lemma_tokens_of_single(idtok);
    let toks = tokens_of(nl);
    assert(toks =~= tokens_of(l).push(idtok));
    let t = tokens_of(l);
    let n = t.len() as int;
    assert(toks.len() == n + 1);
    assert(crate::record::is_id_token(idtok));
    assert(!is_digit_char('i'));
    assert(!crate::date::is_date_token(idtok));
    assert(!is_priority_token(idtok));
    assert(idtok != seq!['x']);
    // the leading-field scan never consumes the identifier token
    let v = parse_line(nl, 0);
    assert(v.id == Some(id)) by {
        let completed = toks.len() > 0 && toks[0] == seq!['x'];
        let i1: int = if completed {
            1
        } else {
            0
        };
        assert(i1 <= n) by {
            if n == 0 {
                assert(toks[0] == idtok);
            }
        }
        let has_completion = completed && i1 < toks.len() && crate::date::is_date_token(toks[i1]);
        let i2: int = if has_completion {
            i1 + 1
        } else {
            i1
        };
        assert(i2 <= n) by {
            if i1 == n {
                assert(toks[i1] == idtok);
            }
        }
        let has_priority = !completed && i2 < toks.len() && is_priority_token(toks[i2]);
        let i3: int = if has_priority {
            i2 + 1
        } else {
            i2
        };
        assert(i3 <= n) by {
            if i2 == n {
                assert(toks[i2] == idtok);
            }
        }
        let has_creation = i3 < toks.len() && crate::date::is_date_token(toks[i3]);
        let i4: int = if has_creation {
            i3 + 1
        } else {
            i3
        };
        assert(i4 <= n) by {
            if i3 == n {
                assert(toks[i3] == idtok);
            }
        }
        let rest = toks.skip(i4);
        assert(rest.len() > 0);
        assert(rest.last() == idtok);
        assert(crate::record::id_of(rest) == Some(idtok.skip(3)));
        assert(idtok.skip(3) =~= id);
    }
    assert(forall|k: int| 0 <= k < nl.len() ==> no_newline(l) ==> #[trigger] nl[k] != '\n') by {
        assert(forall|k: int| 0 <= k < id.len() ==> #[trigger] id[k] != '\n');
    }
}

proof fn lemma_lines_with_ids_covered(ls: Seq<Seq<char>>, ids: Seq<Seq<char>>)
    requires
        ids.len() == missing_count(ls),
        uuid_seq_wf(ids),
        forall|i: int| 0 <= i < ls.len() ==> no_newline(#[trigger] ls[i]),
    ensures
        lines_with_ids(ls, ids).len() == ls.len(),
        all_have_ids(lines_with_ids(ls, ids)),
        forall|i: int|
            0 <= i < ls.len() ==> no_newline(#[trigger] lines_with_ids(ls, ids)[i]),
    decreases ls.len(),
{
    if ls.len() > 0 {
        let r = lines_with_ids(ls, ids);
        if needs_id(ls.last()) {
            lemma_lines_with_ids_covered(ls.drop_last(), ids.drop_last());
            lemma_line_with_id_has_id(ls.last(), ids.last());
            assert(r.last() == line_with_id(ls.last(), ids.last()));
        } else {
            lemma_lines_with_ids_covered(ls.drop_last(), ids);
            assert(r.last() == ls.last());
        }
    }
}

/// Which identifier each line receives: the k-th identifier-needing line
/// gets the k-th given identifier; every other line keeps what it had.
proof fn lemma_lines_with_ids_assignment(ls: Seq<Seq<char>>, ids: Seq<Seq<char>>)
    requires
        ids.len() == missing_count(ls),
        uuid_seq_wf(ids),
    ensures
        lines_with_ids(ls, ids).len() == ls.len(),
        forall|i: int|
            0 <= i < ls.len() ==> #[trigger] line_id(lines_with_ids(ls, ids)[i]) == (
            if needs_id(ls[i]) {
                Some(ids[missing_count(ls.take(i)) as int])
            } else {
                line_id(ls[i])
            }),
    decreases ls.len(),
{
    if ls.len() > 0 {
        let n = ls.len() as int;
        let front = ls.drop_last();
        let r = lines_with_ids(ls, ids);
        assert(ls.take(n - 1) =~= front);
        assert forall|i: int| 0 <= i < n - 1 implies ls.take(i) == front.take(i) by {
            assert(ls.take(i) =~= front.take(i));
        }
        if needs_id(ls.last()) {
            let ids2 = ids.drop_last();
            lemma_lines_with_ids_assignment(front, ids2);
            lemma_line_with_id_has_id(ls.last(), ids.last());
            assert(r == lines_with_ids(front, ids2).push(
                line_with_id(ls.last(), ids.last()),
            ));
            assert(missing_count(ls.take(n - 1)) == ids.len() - 1);
            assert(line_id(r[n - 1]) == Some(ids[ids.len() - 1]));
            assert forall|i: int| 0 <= i < n - 1 implies #[trigger] line_id(r[i]) == (
            if needs_id(ls[i]) {
                Some(ids[missing_count(ls.take(i)) as int])
            } else {
                line_id(ls[i])
            }) by {
                assert(r[i] == lines_with_ids(front, ids2)[i]);
                if needs_id(front[i]) {
                    lemma_missing_strict(front, i);
                    assert(missing_count(front.take(i)) < ids2.len());
                    assert(ids2[missing_count(front.take(i)) as int] == ids[missing_count(
                        front.take(i),
                    ) as int]);
                }
            }
        } else {
            lemma_lines_with_ids_assignment(front, ids);
            assert(r == lines_with_ids(front, ids).push(ls.last()));
            assert forall|i: int| 0 <= i < n - 1 implies #[trigger] line_id(r[i]) == (
            if needs_id(ls[i]) {
                Some(ids[missing_count(ls.take(i)) as int])
            } else {
                line_id(ls[i])
            }) by {
                assert(r[i] == lines_with_ids(front, ids)[i]);
            }
        }
    }
}

/// FRESH IDENTIFIERS STAY UNIQUE: when the drawn identifiers are pairwise
/// distinct and none of them already occurs on any line, every line that
/// receives one ends up with an identifier different from every other
/// line's. (Nothing can be promised of which identifiers the generator
/// draws; this is the law for every draw that is distinct.)
pub proof fn lemma_add_ids_distinct(ls: Seq<Seq<char>>, ids: Seq<Seq<char>>)
    requires
        ids.len() == missing_count(ls),
        uuid_seq_wf(ids),
        forall|i: int, j: int| 0 <= i < j < ids.len() ==> ids[i] != ids[j],
        forall|i: int, j: int|
            0 <= i < ids.len() && 0 <= j < ls.len() ==> line_id(#[trigger] ls[j]) != Some(
                #[trigger] ids[i],
            ),
    ensures
        forall|i: int, j: int|
            0 <= i < j < ls.len() && (needs_id(ls[i]) || needs_id(ls[j])) ==> line_id(
                #[trigger] lines_with_ids(ls, ids)[i],
            ) != line_id(#[trigger] lines_with_ids(ls, ids)[j]),
{
    lemma_lines_with_ids_assignment(ls, ids);
    let r = lines_with_ids(ls, ids);
    assert forall|i: int, j: int|
        0 <= i < j < ls.len() && (needs_id(ls[i]) || needs_id(ls[j])) implies line_id(
        #[trigger] r[i],
    ) != line_id(#[trigger] r[j]) by {
        if needs_id(ls[i]) {
            lemma_missing_strict(ls, i);
            let ki = missing_count(ls.take(i)) as int;
            if needs_id(ls[j]) {
                lemma_missing_strict(ls, j);
                let kj = missing_count(ls.take(j)) as int;
                assert(ls.take(i + 1).drop_last() =~= ls.take(i));
                assert(ls.take(i + 1).last() == ls[i]);
                lemma_missing_mono(ls, i + 1, j);
                assert(ki < kj);
                assert(ids[ki] != ids[kj]);
            } else {
                assert(line_id(ls[j]) != Some(ids[ki]));
            }
        } else {
            lemma_missing_strict(ls, j);
            let kj = missing_count(ls.take(j)) as int;
            assert(line_id(ls[i]) != Some(ids[kj]));
        }
    }
}

/// IDEMPOTENCE of "ensure identifiers": after one pass, a second pass finds
/// nothing to add, so it never changes the file again.
pub proof fn lemma_add_missing_ids_idempotent(content: Seq<char>, ids: Seq<Seq<char>>)
    requires
        ids.len() == missing_count(lines_of(content)),
        uuid_seq_wf(ids),
    ensures
        missing_count(lines_of(join_lines(lines_with_ids(lines_of(content), ids)))) == 0,
{
    let ls = lines_of(content);
    lemma_lines_of_no_newline(content);
    lemma_lines_with_ids_covered(ls, ids);
    let mapped = lines_with_ids(ls, ids);
    crate::toks::lemma_lines_of_join(mapped);
    if mapped.len() > 0 && mapped.last().len() == 0 {
        assert(all_have_ids(mapped.drop_last()));
        lemma_no_needs_no_missing(mapped.drop_last());
    } else {
        lemma_no_needs_no_missing(mapped);
    }
}

/// Length of the leading run of separator characters.
pub open spec fn space_len(s: Seq<char>) -> int
    decreases s.len(),
{
    if s.len() == 0 || !is_space_char(s[0]) {
        0
    } else {
        1 + space_len(s.drop_first())
    }
}

pub proof fn lemma_space_len_bounds(s: Seq<char>)
    ensures
        0 <= space_len(s) <= s.len(),
    decreases s.len(),
{
    if s.len() > 0 && is_space_char(s[0]) {
        lemma_space_len_bounds(s.drop_first());
    }
}

/// Whether the line opens, after its indentation, with a priority token.
pub open spec fn leading_priority(l: Seq<char>) -> bool {
    let a = space_len(l);
    &&& a + 3 <= l.len()
    &&& is_priority_token(l.subrange(a, a + 3))
    &&& (a + 3 == l.len() || is_space_char(l[a + 3]))
}

/// The completed form of a line: an already completed line is kept
/// verbatim; otherwise the completion marker and today's date are put in
/// front, and a leading priority token moves between the two, so the field
/// order becomes marker, priority, completion date, then the rest of the
/// original line unchanged.
pub open spec fn completed_line(l: Seq<char>, today: Date) -> Seq<char> {
    if parse_line(l, 0).completed {
        l
    } else if leading_priority(l) {
        let a = space_len(l);
        seq!['x', ' '] + l.subrange(a, a + 3) + seq![' '] + render_date(today) + l.skip(a + 3)
    } else {
        seq!['x', ' '] + render_date(today) + seq![' '] + l
    }
}

/// Whether a line carries the given identifier.
pub open spec fn line_matches(l: Seq<char>, id: Seq<char>) -> bool {
    line_id(l) == Some(id)
}

/// The lines that do not carry the identifier, in order.
pub open spec fn remove_matching(ls: Seq<Seq<char>>, id: Seq<char>) -> Seq<Seq<char>>
    decreases ls.len(),
{
    if ls.len() == 0 {
        Seq::empty()
    } else {
        remove_matching(ls.drop_last(), id) + if line_matches(ls.last(), id) {
            Seq::<Seq<char>>::empty()
        } else {
            seq![ls.last()]
        }
    }
}

/// The last line that carries the identifier, if any.
pub open spec fn last_matching(ls: Seq<Seq<char>>, id: Seq<char>) -> Option<Seq<char>>
    decreases ls.len(),
{
    if ls.len() == 0 {
        None
    } else if line_matches(ls.last(), id) {
        Some(ls.last())
    } else {
        last_matching(ls.drop_last(), id)
    }
}

/// The done store with one completed record appended: exactly one newline
/// closes the earlier content, exactly one blank line separates it from the
/// appended record, and exactly one newline closes the record.
pub open spec fn done_with(done: Seq<char>, completed: Seq<char>) -> Seq<char> {
    (if done.len() == 0 {
        done
    } else if done.last() == '\n' {
        done + seq!['\n']
    } else {
        done + seq!['\n', '\n']
    }) + completed + seq!['\n']
}

/// MARK-COMPLETE FIELD ORDER: an already completed line moves verbatim; a
/// pending line's completed form reads marker, then the moved leading
/// priority if it had one, then the completion date, then every remaining
/// token of the line unchanged.
pub proof fn lemma_mark_complete_field_order(l: Seq<char>, today: Date)
    requires
        date_valid(today),
    ensures
        parse_line(l, 0).completed ==> completed_line(l, today) == l,
        !parse_line(l, 0).completed && leading_priority(l) ==> tokens_of(completed_line(l, today))
            == seq![seq!['x'], l.subrange(space_len(l), space_len(l) + 3), render_date(today)]
            + tokens_of(l.skip(space_len(l) + 3)),
        !parse_line(l, 0).completed && !leading_priority(l) ==> tokens_of(
            completed_line(l, today),
        ) == seq![seq!['x'], render_date(today)] + tokens_of(l),
{
    crate::date::lemma_render_date_token_shape(today);
    let d = render_date(today);
    let x = seq!['x'];
    assert(crate::toks::wf_token(x)) by {
        assert(!is_space_char('x'));
    }
    if !parse_line(l, 0).completed {
        if leading_priority(l) {
            let a = space_len(l);
            lemma_space_len_bounds(l);
            let p = l.subrange(a, a + 3);
            let rest = l.skip(a + 3);
            assert(crate::toks::wf_token(p)) by {
                assert(!is_space_char('(') && !is_space_char(')'));
                assert((' ' as int) == 32 && ('\t' as int) == 9);
                assert(!is_space_char(p[1]));
            }
            let s = completed_line(l, today);
            let tail1 = seq![' '] + p + seq![' '] + d + rest;
            assert(s =~= x + tail1);
            crate::toks::lemma_tokens_of_concat(x, tail1);
            crate::toks::lemma_tokens_of_single(x);
            let tail2 = p + (seq![' '] + d + rest);
            assert(tail1.drop_first() =~= tail2);
            crate::toks::lemma_tokens_of_concat(p, seq![' '] + d + rest);
            crate::toks::lemma_tokens_of_single(p);
            let tail3 = d + rest;
            assert((seq![' '] + d + rest).drop_first() =~= tail3);
            if rest.len() == 0 {
                assert(tail3 =~= d);
                crate::toks::lemma_tokens_of_single(d);
                assert(tokens_of(rest).len() == 0);
                assert(tokens_of(s) =~= seq![x, p, d] + tokens_of(rest));
            } else {
                assert(is_space_char(rest[0]));
                crate::toks::lemma_tokens_of_concat(d, rest);
                crate::toks::lemma_tokens_of_single(d);
                assert(tokens_of(s) =~= seq![x, p, d] + tokens_of(rest));
            }
        } else {
            let s = completed_line(l, today);
            let tail1 = seq![' '] + d + seq![' '] + l;
            assert(s =~= x + tail1);
            crate::toks::lemma_tokens_of_concat(x, tail1);
            crate::toks::lemma_tokens_of_single(x);
            let tail2 = d + (seq![' '] + l);
            assert(tail1.drop_first() =~= tail2);
            crate::toks::lemma_tokens_of_concat(d, seq![' '] + l);
            crate::toks::lemma_tokens_of_single(d);
            assert((seq![' '] + l).drop_first() =~= l);
            assert(tokens_of(s) =~= seq![x, d] + tokens_of(l));
        }
    }
}

fn space_len_exec(l: &str) -> (r: usize)
    ensures
        r as int == space_len(l@),
{
    let n = l.unicode_len();
    let mut i: usize = 0;
    proof {
        assert(l@.skip(0) =~= l@);
    }
    while i < n
        invariant
            n == l@.len(),
            i <= n,
            space_len(l@) == i + space_len(l@.skip(i as int)),
        decreases n - i,
    {
        if !crate::text::char_is_space(l.get_char(i)) {
            proof {
                lemma_space_len_bounds(l@.skip(i as int));
            }
            return i;
        }
        proof {
            assert(l@.skip(i as int).drop_first() =~= l@.skip(i + 1));
        }
        i = i + 1;
    }
    proof {
        assert(l@.skip(n as int) =~= Seq::<char>::empty());
    }
    i
}

fn leading_priority_exec(l: &str) -> (r: Option<usize>)
    ensures
        r is Some <==> leading_priority(l@),
        r is Some ==> r->0 as int == space_len(l@),
{
    let n = l.unicode_len();
    let a = space_len_exec(l);
    proof {
        lemma_space_len_bounds(l@);
    }
    if n < 3 || a > n - 3 {
        return None;
    }
    let ghost tok = l@.subrange(a as int, a as int + 3);
    if l.get_char(a) != '(' || l.get_char(a + 2) != ')' {
        proof {
            assert(tok[0] == l@[a as int] && tok[2] == l@[a as int + 2]);
        }
        return None;
    }
    let c = l.get_char(a + 1);
    let upper = (c as u32) >= 65 && (c as u32) <= 90;
    proof {
        assert(('A' as int) == 65 && ('Z' as int) == 90);
        assert(tok[0] == l@[a as int] && tok[1] == l@[a as int + 1] && tok[2] == l@[a as int
            + 2]);
    }
    if !upper {
        return None;
    }
    if a + 3 < n && !crate::text::char_is_space(l.get_char(a + 3)) {
        return None;
    }
    Some(a)
}

fn line_starts_completed(line: &str) -> (r: bool)
    ensures
        r == parse_line(line@, 0).completed,
{
    let toks = tokenize(line);
    proof {
        reveal_strlit("x");
        assert("x"@ =~= seq!['x']);
    }
    if toks.len() == 0 {
        false
    } else {
        str_eq(toks[0], "x")
    }
}

/// Builds the completed form of one line for the given completion day.
pub fn complete_line(line: &str, today: &Date) -> (r: String)
    ensures
        r@ == completed_line(line@, *today),
{
    proof {
        reveal_strlit("x ");
        reveal_strlit(" ");
        assert("x "@ =~= seq!['x', ' ']);
        assert(" "@ =~= seq![' ']);
    }
    if line_starts_completed(line) {
        return line.to_owned();
    }
    let n = line.unicode_len();
    match leading_priority_exec(line) {
        Some(a) => {
            let mut r = String::new();
            r.append("x ");
            r.append(line.substring_char(a, a + 3));
            r.append(" ");
            let ds = format_date(today);
            r.append(ds.as_str());
            r.append(line.substring_char(a + 3, n));
            proof {
                lemma_space_len_bounds(line@);
                assert(line@.subrange(a as int + 3, n as int) =~= line@.skip(a as int + 3));
                assert(r@ =~= completed_line(line@, *today));
            }
            r
        },
        None => {
            let mut r = String::new();
            r.append("x ");
            let ds = format_date(today);
            r.append(ds.as_str());
            r.append(" ");
            r.append(line);
            proof {
                assert(r@ =~= completed_line(line@, *today));
            }
            r
        },
    }
}

/// Removes every line carrying the identifier from the primary content and
/// appends the completed form of the last such line to the done store.
/// `None` when no line carries the identifier: a silent no-op.
pub fn mark_complete_content(todo: &str, done: &str, id: &str, today: &Date) -> (r: Option<
    (String, String),
>)
    ensures
        r is Some <==> last_matching(lines_of(todo@), id@) is Some,
        match r {
            Some(p) => p.0@ == join_lines(remove_matching(lines_of(todo@), id@)) && p.1@
                == done_with(
                done@,
                completed_line(last_matching(lines_of(todo@), id@)->0, *today),
            ),
            None => true,
        },
{
    let lines = split_lines(todo);
    let ghost lv = lines.deep_view();
    let mut kept: Vec<String> = Vec::new();
    let mut found: Option<String> = None;
    let mut k: usize = 0;
    proof {
        assert(lv.take(0) =~= Seq::<Seq<char>>::empty());
        assert(kept.deep_view() =~= remove_matching(lv.take(0), id@));
    }
    while k < lines.len()
        invariant
            k <= lines@.len(),
            lv == lines.deep_view(),
            lv == lines_of(todo@),
            kept.deep_view() == remove_matching(lv.take(k as int), id@),
            match found {
                Some(f) => last_matching(lv.take(k as int), id@) == Some(f@),
                None => last_matching(lv.take(k as int), id@) is None,
            },
        decreases lines@.len() - k,
    {
        let line: &str = lines[k];
        let it = Item::parse(line, 0);
        let matches = match &it.id {
            Some(s) => str_eq(s.as_str(), id),
            None => false,
        };
        let ghost prev = kept.deep_view();
        proof {
            assert(lv.take(k + 1).drop_last() =~= lv.take(k as int));
            assert(lv.take(k + 1).last() == lv[k as int]);
        }
        if matches {
            found = Some(line.to_owned());
            proof {
                assert(kept.deep_view() =~= remove_matching(lv.take(k + 1), id@));
            }
        } else {
            kept.push(line.to_owned());
            proof {
                assert(kept.deep_view() =~= prev.push(lv[k as int]));
                assert(kept.deep_view() =~= remove_matching(lv.take(k + 1), id@));
            }
        }
        k = k + 1;
    }
    proof {
        assert(lv.take(lines@.len() as int) =~= lv);
    }
    match found {
        Some(f) => {
            let completed = complete_line(f.as_str(), today);
            let new_todo = join_lines_exec(&kept);
            let mut new_done = done.to_owned();
            let dn = done.unicode_len();
            if dn > 0 {
                proof {
                    reveal_strlit("\n");
                    reveal_strlit("\n\n");
                    assert("\n"@ =~= seq!['\n']);
                    assert("\n\n"@ =~= seq!['\n', '\n']);
                }
                if done.get_char(dn - 1) != '\n' {
                    new_done.append("\n\n");
                } else {
                    new_done.append("\n");
                }
            }
            new_done.append(completed.as_str());
            new_done.append("\n");
            proof {
                reveal_strlit("\n");
                assert("\n"@ =~= seq!['\n']);
                assert(new_done@ =~= done_with(
                    done@,
                    completed_line(last_matching(lines_of(todo@), id@)->0, *today),
                ));
            }
            Some((new_todo, new_done))
        },
        None => None,
    }
}

/// Marks the record with the given identifier complete, dated on the current
/// local day. A silent no-op (`None`) when no line carries the identifier,
/// or when the current year cannot be written with four digits.
pub fn mark_complete(todo: &str, done: &str, id: &str) -> (r: Option<(String, String)>)
    ensures
        last_matching(lines_of(todo@), id@) is None ==> r is None,
        r is Some ==> exists|d: Date|
            date_valid(d) && last_matching(lines_of(todo@), id@) is Some && (match r {
                Some(p) => p.0@ == join_lines(remove_matching(lines_of(todo@), id@)) && p.1@
                    == done_with(
                    done@,
                    completed_line(last_matching(lines_of(todo@), id@)->0, d),
                ),
                None => false,
            }),
{
    let (y, m, dd) = today_ymd();
    if y < 0 || y > 9999 {
        return None;
    }
    let d = Date { year: y as u16, month: m, day: dd };
    proof {
        assert(date_valid(d));
    }
    let r = mark_complete_content(todo, done, id, &d);
    proof {
        if r is Some {
            assert(date_valid(d) && last_matching(lines_of(todo@), id@) is Some && (match r {
                Some(p) => p.0@ == join_lines(remove_matching(lines_of(todo@), id@)) && p.1@
                    == done_with(
                    done@,
                    completed_line(last_matching(lines_of(todo@), id@)->0, d),
                ),
                None => false,
            }));
        }
    }
    r
}

/// The next 1-based line number after `n` existing lines.
pub open spec fn next_line_number(n: nat) -> nat {
    if n < usize::MAX {
        n + 1
    } else {
        n
    }
}

/// The line a new record is written as: optional priority, the description,
/// one group tag, and the fresh identifier.
pub open spec fn build_line(
    description: Seq<char>,
    project: Seq<char>,
    priority: Option<char>,
    id: Seq<char>,
) -> Seq<char> {
    crate::toks::join_spaces(
        (match priority {
            Some(p) => seq![seq!['(', p, ')']],
            None => Seq::<Seq<char>>::empty(),
        }) + (if description.len() > 0 {
            seq![description]
        } else {
            Seq::<Seq<char>>::empty()
        }) + seq![seq!['+'] + project] + seq![seq!['i', 'd', ':'] + id],
    )
}

/// Content with one more line appended, separated by exactly one newline.
pub open spec fn append_content(c: Seq<char>, l: Seq<char>) -> Seq<char> {
    if c.len() == 0 {
        l
    } else if c.last() == '\n' {
        c + l
    } else {
        c + seq!['\n'] + l
    }
}

/// Appends a new record line built from the description, one group tag, an
/// optional priority and a freshly generated identifier; returns the new
/// content and the parsed new record.
pub fn append_todo(content: &str, description: &str, project: &str, priority: Option<char>) -> (r:
    (String, Item))
    requires
        match priority {
            Some(p) => crate::record::is_upper_char(p),
            None => true,
        },
    ensures
        exists|idv: Seq<char>|
            {
                &&& #[trigger] uuid_wf(idv)
                &&& r.0@ == append_content(content@, build_line(description@, project@, priority, idv))
                &&& r.1@ == parse_line(
                    build_line(description@, project@, priority, idv),
                    next_line_number(lines_of(content@).len()),
                )
            },
{
    let id = fresh_id();
    let mut line = String::new();
    let mut first = true;
    let ghost mut parts: Seq<Seq<char>> = Seq::empty();
    proof {
        reveal_strlit("+");
        reveal_strlit("id:");
        assert("+"@ =~= seq!['+']);
        assert("id:"@ =~= seq!['i', 'd', ':']);
    }
    match priority {
        Some(p) => {
            let ps = crate::record::priority_str(p);
            proof {
                crate::toks::lemma_join_spaces_push(parts, ps@);
            }
            crate::record::push_part(&mut line, first, ps);
            first = false;
            proof {
                parts = parts.push(ps@);
            }
        },
        None => {},
    }
    if description.unicode_len() > 0 {
        proof {
            crate::toks::lemma_join_spaces_push(parts, description@);
        }
        crate::record::push_part(&mut line, first, description);
        first = false;
        proof {
            parts = parts.push(description@);
        }
    }
    let mut ptag = String::new();
    ptag.append("+");
    ptag.append(project);
    proof {
        assert(ptag@ =~= seq!['+'] + project@);
        crate::toks::lemma_join_spaces_push(parts, ptag@);
    }
    crate::record::push_part(&mut line, first, ptag.as_str());
    first = false;
    proof {
        parts = parts.push(ptag@);
    }
    let mut itag = String::new();
    itag.append("id:");
    itag.append(id.as_str());
    proof {
        assert(itag@ =~= seq!['i', 'd', ':'] + id@);
        crate::toks::lemma_join_spaces_push(parts, itag@);
    }
    crate::record::push_part(&mut line, first, itag.as_str());
    proof {
        parts = parts.push(itag@);
        assert(parts =~= (match priority {
            Some(p) => seq![seq!['(', p, ')']],
            None => Seq::<Seq<char>>::empty(),
        }) + (if description@.len() > 0 {
            seq![description@]
        } else {
            Seq::<Seq<char>>::empty()
        }) + seq![seq!['+'] + project@] + seq![seq!['i', 'd', ':'] + id@]);
        assert(line@ == build_line(description@, project@, priority, id@));
    }
    let lines = split_lines(content);
    let nlines = lines.len();
    let num = if nlines < usize::MAX {
        nlines + 1
    } else {
        nlines
    };
    let item = Item::parse(line.as_str(), num);
    let cn = content.unicode_len();
    let mut out = content.to_owned();
    if cn > 0 && content.get_char(cn - 1) != '\n' {
        out.append("\n");
        proof {
            reveal_strlit("\n");
            assert(out@ =~= content@ + seq!['\n']);
        }
    }
    out.append(line.as_str());
    proof {
        assert(out@ =~= append_content(content@, line@));
    }
    (out, item)
}

/// The lines a text splits into carry no newline themselves.
pub proof fn lemma_lines_of_no_newline(s: Seq<char>)
    ensures
        forall|i: int| 0 <= i < lines_of(s).len() ==> no_newline(#[trigger] lines_of(s)[i]),
    decreases s.len(),
{
    if s.len() > 0 {
        let k = crate::toks::line_len(s);
        crate::toks::lemma_line_len_bounds(s);
        lemma_line_len_run(s);
        assert(no_newline(s.take(k))) by {
            assert(forall|i: int| 0 <= i < k ==> #[trigger] s.take(k)[i] == s[i]);
        }
        let tail = if k < s.len() {
            s.skip(k + 1)
        } else {
            Seq::<char>::empty()
        };
        lemma_lines_of_no_newline(tail);
        assert(lines_of(s) == seq![s.take(k)] + lines_of(tail));
    }
}

/// No character of the leading line is a newline.
proof fn lemma_line_len_run(s: Seq<char>)
    ensures
        forall|k: int| 0 <= k < crate::toks::line_len(s) ==> s[k] != '\n',
    decreases s.len(),
{
    if s.len() > 0 && s[0] != '\n' {
        lemma_line_len_run(s.drop_first());
        crate::toks::lemma_line_len_bounds(s);
        crate::toks::lemma_line_len_bounds(s.drop_first());
        assert forall|k: int| 0 <= k < crate::toks::line_len(s) implies s[k] != '\n' by {
            if k > 0 {
                assert(0 <= k - 1 < crate::toks::line_len(s.drop_first()));
                assert(s.drop_first()[k - 1] == s[k]);
            }
        }
    }
}

} // verus!
