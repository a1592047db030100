//! The record engine: one task line parsed into fields, and serialized back.
//!
//! A line is read strictly left to right: an optional completion marker,
//! then (only right after the marker) an optional completion date, then —
//! only for records without the marker — an optional priority `(X)`, then an
//! optional creation date; every remaining token is a group tag (`+`), a
//! context tag (`@`), an identifier (`id:`), or a word of the description.
use vstd::prelude::*;
use vstd::string::*;
use crate::date::Date;
use crate::date::date_valid;
use crate::date::is_date_token;
use crate::date::date_of_token;
use crate::date::parse_date;
use crate::text::str_eq;
use crate::toks::tokens_of;
use crate::toks::join_spaces;
use crate::toks::tokenize;

verus! {

/// One task record.
#[derive(Debug)]
pub struct Item {
    pub completed: bool,
    pub priority: Option<char>,
    pub creation_date: Option<Date>,
    pub completion_date: Option<Date>,
    pub description: String,
    pub projects: Vec<String>,
    pub contexts: Vec<String>,
    pub id: Option<String>,
    pub line_number: usize,
}

/// The mathematical shape of a record.
pub struct ItemView {
    pub completed: bool,
    pub priority: Option<char>,
    pub creation_date: Option<Date>,
    pub completion_date: Option<Date>,
    pub description: Seq<char>,
    pub projects: Seq<Seq<char>>,
    pub contexts: Seq<Seq<char>>,
    pub id: Option<Seq<char>>,
    pub line_number: nat,
}

impl View for Item {
    type V = ItemView;

    open spec fn view(&self) -> ItemView {
        ItemView {
            completed: self.completed,
            priority: self.priority,
            creation_date: self.creation_date,
            completion_date: self.completion_date,
            description: self.description@,
            projects: self.projects.deep_view(),
            contexts: self.contexts.deep_view(),
            id: match self.id {
                Some(s) => Some(s@),
                None => None,
            },
            line_number: self.line_number as nat,
        }
    }
}

impl DeepView for Item {
    type V = ItemView;

    open spec fn deep_view(&self) -> ItemView {
        self.view()
    }
}

impl Clone for Item {
    /// Clones the record, field for field.
    fn clone(&self) -> (r: Self)
        ensures
            r@ == self@,
    {
        let r = Item {
            completed: self.completed,
            priority: self.priority,
            creation_date: self.creation_date,
            completion_date: self.completion_date,
            description: self.description.clone(),
            projects: clone_string_vec(&self.projects),
            contexts: clone_string_vec(&self.contexts),
            id: match &self.id {
                Some(s) => Some(s.clone()),
                None => None,
            },
            line_number: self.line_number,
        };
        proof {
            assert(r@.projects =~= self@.projects);
            assert(r@.contexts =~= self@.contexts);
        }
        r
    }
}

/// Clones a vector of strings, preserving each element's characters.
pub fn clone_string_vec(v: &Vec<String>) -> (r: Vec<String>)
    ensures
        r.deep_view() == v.deep_view(),
{
    let mut r: Vec<String> = Vec::new();
    let mut i: usize = 0;
    while i < v.len()
        invariant
            i <= v@.len(),
            r.deep_view() == v.deep_view().take(i as int),
        decreases v@.len() - i,
    {
        let ghost prev = r.deep_view();
        r.push(v[i].clone());
        proof {
            assert(r.deep_view() =~= prev.push(v.deep_view()[i as int]));
            assert(r.deep_view() =~= v.deep_view().take(i + 1));
        }
        i = i + 1;
    }
    proof {
        assert(v.deep_view().take(v@.len() as int) =~= v.deep_view());
    }
    r
}

pub open spec fn is_upper_char(c: char) -> bool {
    ('A' as int) <= (c as int) <= ('Z' as int)
}

/// A `(X)` priority token with an upper-case letter.
pub open spec fn is_priority_token(t: Seq<char>) -> bool {
    t.len() == 3 && t[0] == '(' && t[2] == ')' && is_upper_char(t[1])
}

/// A group-tag token: `+name`.
pub open spec fn is_project_token(t: Seq<char>) -> bool {
    t.len() >= 1 && t[0] == '+'
}

/// A context-tag token: `@name`.
pub open spec fn is_context_token(t: Seq<char>) -> bool {
    t.len() >= 1 && t[0] == '@'
}

/// An identifier token: `id:value`.
pub open spec fn is_id_token(t: Seq<char>) -> bool {
    t.len() >= 3 && t[0] == 'i' && t[1] == 'd' && t[2] == ':'
}

/// A token that joins the description.
pub open spec fn is_desc_token(t: Seq<char>) -> bool {
    !is_project_token(t) && !is_context_token(t) && !is_id_token(t)
}

/// The group tags of a token run, sigils stripped, in order.
pub open spec fn projects_of(toks: Seq<Seq<char>>) -> Seq<Seq<char>>
    decreases toks.len(),
{
    if toks.len() == 0 {
        Seq::empty()
    } else {
        projects_of(toks.drop_last()) + if is_project_token(toks.last()) {
            seq![toks.last().skip(1)]
        } else {
            Seq::empty()
        }
    }
}

/// The context tags of a token run, sigils stripped, in order.
pub open spec fn contexts_of(toks: Seq<Seq<char>>) -> Seq<Seq<char>>
    decreases toks.len(),
{
    if toks.len() == 0 {
        Seq::empty()
    } else {
        contexts_of(toks.drop_last()) + if is_context_token(toks.last())
            && !is_project_token(toks.last()) {
            seq![toks.last().skip(1)]
        } else {
            Seq::empty()
        }
    }
}

/// The identifier set by a token run; the last `id:` token wins.
pub open spec fn id_of(toks: Seq<Seq<char>>) -> Option<Seq<char>>
    decreases toks.len(),
{
    if toks.len() == 0 {
        None
    } else if is_id_token(toks.last()) {
        Some(toks.last().skip(3))
    } else {
        id_of(toks.drop_last())
    }
}

/// The description words of a token run, in order.
pub open spec fn desc_tokens_of(toks: Seq<Seq<char>>) -> Seq<Seq<char>>
    decreases toks.len(),
{
    if toks.len() == 0 {
        Seq::empty()
    } else {
        desc_tokens_of(toks.drop_last()) + if is_desc_token(toks.last()) {
            seq![toks.last()]
        } else {
            Seq::empty()
        }
    }
}

/// What parsing a token run yields, following the fixed field order.
pub open spec fn parse_tokens(toks: Seq<Seq<char>>, line_number: nat) -> ItemView {
    let completed = toks.len() > 0 && toks[0] == seq!['x'];
    let i1: int = if completed {
        1
    } else {
        0
    };
    let has_completion = completed && i1 < toks.len() && is_date_token(toks[i1]);
    let completion_date = if has_completion {
        Some(date_of_token(toks[i1]))
    } else {
        None
    };
    let i2: int = if has_completion {
        i1 + 1
    } else {
        i1
    };
    let has_priority = !completed && i2 < toks.len() && is_priority_token(toks[i2]);
    let priority = if has_priority {
        Some(toks[i2][1])
    } else {
        None
    };
    let i3: int = if has_priority {
        i2 + 1
    } else {
        i2
    };
    let has_creation = i3 < toks.len() && is_date_token(toks[i3]);
    let creation_date = if has_creation {
        Some(date_of_token(toks[i3]))
    } else {
        None
    };
    let i4: int = if has_creation {
        i3 + 1
    } else {
        i3
    };
    let rest = toks.skip(i4);
    ItemView {
        completed,
        priority,
        creation_date,
        completion_date,
        description: join_spaces(desc_tokens_of(rest)),
        projects: projects_of(rest),
        contexts: contexts_of(rest),
        id: id_of(rest),
        line_number,
    }
}

/// What parsing a whole line yields.
pub open spec fn parse_line(l: Seq<char>, line_number: nat) -> ItemView {
    parse_tokens(tokens_of(l), line_number)
}

/// The completion-marker token run of a record's text form.
pub open spec fn marker_seg(v: ItemView) -> Seq<Seq<char>> {
    if v.completed {
        seq![seq!['x']]
    } else {
        Seq::empty()
    }
}

pub open spec fn completion_seg(v: ItemView) -> Seq<Seq<char>> {
    match v.completion_date {
        Some(d) => seq![crate::date::render_date(d)],
        None => Seq::empty(),
    }
}

pub open spec fn priority_seg(v: ItemView) -> Seq<Seq<char>> {
    match v.priority {
        Some(p) => seq![seq!['(', p, ')']],
        None => Seq::empty(),
    }
}

pub open spec fn creation_seg(v: ItemView) -> Seq<Seq<char>> {
    match v.creation_date {
        Some(d) => seq![crate::date::render_date(d)],
        None => Seq::empty(),
    }
}

/// Group tags with their sigil restored.
pub open spec fn plus_tags(ts: Seq<Seq<char>>) -> Seq<Seq<char>> {
    ts.map_values(|t: Seq<char>| seq!['+'] + t)
}

/// Context tags with their sigil restored.
pub open spec fn at_tags(ts: Seq<Seq<char>>) -> Seq<Seq<char>> {
    ts.map_values(|t: Seq<char>| seq!['@'] + t)
}

pub open spec fn id_seg(v: ItemView) -> Seq<Seq<char>> {
    match v.id {
        Some(s) => seq![seq!['i', 'd', ':'] + s],
        None => Seq::empty(),
    }
}

/// The tokens of a record's text form, in canonical order.
pub open spec fn serialize_tokens(v: ItemView) -> Seq<Seq<char>> {
    marker_seg(v) + completion_seg(v) + priority_seg(v) + creation_seg(v) + tokens_of(
        v.description,
    ) + plus_tags(v.projects) + at_tags(v.contexts) + id_seg(v)
}

/// The space-joined parts of a record's text form; the description is one
/// part, kept verbatim.
pub open spec fn serialize_parts(v: ItemView) -> Seq<Seq<char>> {
    marker_seg(v) + completion_seg(v) + priority_seg(v) + creation_seg(v) + (if v.description.len()
        > 0 {
        seq![v.description]
    } else {
        Seq::<Seq<char>>::empty()
    }) + plus_tags(v.projects) + at_tags(v.contexts) + id_seg(v)
}

/// The full text form of a record.
pub open spec fn render_line(v: ItemView) -> Seq<char> {
    join_spaces(serialize_parts(v))
}

/// Appends a part, separating it from an earlier part by one space.
pub(crate) fn push_part(out: &mut String, first: bool, part: &str)
    ensures
        final(out)@ == if first {
            old(out)@ + part@
        } else {
            old(out)@ + seq![' '] + part@
        },
{
    proof {
        reveal_strlit(" ");
    }
    if !first {
        out.append(" ");
    }
    out.append(part);
}

/// The three-character text form of a priority.
pub(crate) fn priority_str(c: char) -> (r: &'static str)
    requires
        is_upper_char(c),
    ensures
        r@ =~= seq!['(', c, ')'],
{
    proof {
        reveal_strlit("(A)");
        reveal_strlit("(B)");
        reveal_strlit("(C)");
        reveal_strlit("(D)");
        reveal_strlit("(E)");
        reveal_strlit("(F)");
        reveal_strlit("(G)");
        reveal_strlit("(H)");
        reveal_strlit("(I)");
        reveal_strlit("(J)");
        reveal_strlit("(K)");
        reveal_strlit("(L)");
        reveal_strlit("(M)");
        reveal_strlit("(N)");
        reveal_strlit("(O)");
        reveal_strlit("(P)");
        reveal_strlit("(Q)");
        reveal_strlit("(R)");
        reveal_strlit("(S)");
        reveal_strlit("(T)");
        reveal_strlit("(U)");
        reveal_strlit("(V)");
        reveal_strlit("(W)");
        reveal_strlit("(X)");
        reveal_strlit("(Y)");
        reveal_strlit("(Z)");
    }
    match c {
        'A' => "(A)",
        'B' => "(B)",
        'C' => "(C)",
        'D' => "(D)",
        'E' => "(E)",
        'F' => "(F)",
        'G' => "(G)",
        'H' => "(H)",
        'I' => "(I)",
        'J' => "(J)",
        'K' => "(K)",
        'L' => "(L)",
        'M' => "(M)",
        'N' => "(N)",
        'O' => "(O)",
        'P' => "(P)",
        'Q' => "(Q)",
        'R' => "(R)",
        'S' => "(S)",
        'T' => "(T)",
        'U' => "(U)",
        'V' => "(V)",
        'W' => "(W)",
        'X' => "(X)",
        'Y' => "(Y)",
        _ => "(Z)",
    }
}

fn token_is_project(t: &str) -> (r: bool)
    ensures
        r == is_project_token(t@),
{
    t.unicode_len() >= 1 && t.get_char(0) == '+'
}

fn token_is_context(t: &str) -> (r: bool)
    ensures
        r == is_context_token(t@),
{
    t.unicode_len() >= 1 && t.get_char(0) == '@'
}

fn token_is_id(t: &str) -> (r: bool)
    ensures
        r == is_id_token(t@),
{
    t.unicode_len() >= 3 && t.get_char(0) == 'i' && t.get_char(1) == 'd' && t.get_char(2) == ':'
}

fn token_priority(t: &str) -> (r: Option<char>)
    ensures
        r is Some <==> is_priority_token(t@),
        r is Some ==> r->0 == t@[1],
{
    if t.unicode_len() != 3 {
        return None;
    }
    if t.get_char(0) != '(' || t.get_char(2) != ')' {
        return None;
    }
    let c = t.get_char(1);
    if (c as u32) >= 65 && (c as u32) <= 90 {
        proof {
            assert(('A' as int) == 65 && ('Z' as int) == 90);
        }
        Some(c)
    } else {
        proof {
            assert(('A' as int) == 65 && ('Z' as int) == 90);
        }
        None
    }
}

/// The token text after a one-character sigil.
fn strip_one(t: &str) -> (r: String)
    requires
        t@.len() >= 1,
    ensures
        r@ == t@.skip(1),
{
    let n = t.unicode_len();
    let s = t.substring_char(1, n);
    proof {
        assert(t@.subrange(1, t@.len() as int) =~= t@.skip(1));
    }
    s.to_owned()
}

/// The token text after the three-character identifier prefix.
fn strip_id(t: &str) -> (r: String)
    requires
        t@.len() >= 3,
    ensures
        r@ == t@.skip(3),
{
    let n = t.unicode_len();
    let s = t.substring_char(3, n);
    proof {
        assert(t@.subrange(3, t@.len() as int) =~= t@.skip(3));
    }
    s.to_owned()
}

impl Item {
    /// Parses one line into a record, recording its 1-based line number.
    pub fn parse(line: &str, line_number: usize) -> (r: Item)
        ensures
            r@ == parse_line(line@, line_number as nat),
    {
        let toks = tokenize(line);
        let ghost tv = toks.deep_view();
        let n = toks.len();
        let mut idx: usize = 0;
        proof {
            reveal_strlit("x");
            assert("x"@ =~= seq!['x']);
        }
        let mut completed = false;
        if n > 0 && str_eq(toks[0], "x") {
            completed = true;
            idx = 1;
        }
        let ghost g_completed = tv.len() > 0 && tv[0] == seq!['x'];
        proof {
            assert(completed == g_completed);
        }
        let mut completion_date: Option<Date> = None;
        if completed && idx < n {
            match parse_date(toks[idx]) {
                Some(d) => {
                    completion_date = Some(d);
                    idx = idx + 1;
                },
                None => {},
            }
        }
        let mut priority: Option<char> = None;
        if !completed && idx < n {
            match token_priority(toks[idx]) {
                Some(c) => {
                    priority = Some(c);
                    idx = idx + 1;
                },
                None => {},
            }
        }
        let mut creation_date: Option<Date> = None;
        if idx < n {
            match parse_date(toks[idx]) {
                Some(d) => {
                    creation_date = Some(d);
                    idx = idx + 1;
                },
                None => {},
            }
        }
        let ghost i4 = idx as int;
        let ghost rest = tv.skip(i4);
        let mut description = String::new();
        let ghost mut desc_toks: Seq<Seq<char>> = Seq::empty();
        let mut projects: Vec<String> = Vec::new();
        let mut contexts: Vec<String> = Vec::new();
        let mut id: Option<String> = None;
        let mut k: usize = idx;
        proof {
            assert(rest.take(0) =~= Seq::<Seq<char>>::empty());
        }
        while k < n
            invariant
                idx <= k <= n,
                n == toks@.len(),
                tv == toks.deep_view(),
                forall|j: int| 0 <= j < tv.len() ==> crate::toks::wf_token(#[trigger] tv[j]),
                rest == tv.skip(idx as int),
                i4 == idx as int,
                projects.deep_view() == projects_of(rest.take(k - idx)),
                contexts.deep_view() == contexts_of(rest.take(k - idx)),
                match id {
                    Some(s) => id_of(rest.take(k - idx)) == Some(s@),
                    None => id_of(rest.take(k - idx)) is None,
                },
                desc_toks == desc_tokens_of(rest.take(k - idx)),
                description@ == join_spaces(desc_toks),
                desc_toks.len() > 0 ==> desc_toks[0].len() > 0,
            decreases n - k,
        {
            let t: &str = toks[k];
            let ghost processed = rest.take(k - idx);
            proof {
                assert(rest[k - idx] == tv[k as int]);
                assert(processed.push(t@) =~= rest.take(k - idx + 1));
                assert(processed.push(t@).drop_last() =~= processed);
            }
            if token_is_project(t) {
                let ghost prev = projects.deep_view();
                projects.push(strip_one(t));
                proof {
                    assert(projects.deep_view() =~= prev.push(t@.skip(1)));
                    assert(projects.deep_view() =~= projects_of(rest.take(k - idx + 1)));
                }
            } else if token_is_context(t) {
                let ghost prev = contexts.deep_view();
                contexts.push(strip_one(t));
                proof {
                    assert(contexts.deep_view() =~= prev.push(t@.skip(1)));
                    assert(contexts.deep_view() =~= contexts_of(rest.take(k - idx + 1)));
                }
            } else if token_is_id(t) {
                id = Some(strip_id(t));
            } else {
                proof {
                    reveal_strlit(" ");
                    crate::toks::lemma_join_spaces_push(desc_toks, t@);
                }
                if description.as_str().unicode_len() > 0 {
                    description.append(" ");
                    description.append(t);
                    proof {
                        assert((join_spaces(desc_toks) + " "@) + t@ =~= join_spaces(desc_toks)
                            + seq![' '] + t@);
                    }
                } else {
                    proof {
                        assert(desc_toks.len() == 0) by {
                            if desc_toks.len() > 0 {
                                crate::toks::lemma_join_nonempty(desc_toks);
                            }
                        }
                    }
                    description.append(t);
                    proof {
                        assert(Seq::<char>::empty() + t@ =~= t@);
                    }
                }
                proof {
                    desc_toks = desc_toks.push(t@);
                    assert(desc_toks =~= desc_tokens_of(rest.take(k - idx + 1)));
                }
            }
            k = k + 1;
        }
        proof {
            assert(rest.take(n - idx) =~= rest);
        }
        let r = Item {
            completed,
            priority,
            creation_date,
            completion_date,
            description,
            projects,
            contexts,
            id,
            line_number,
        };
        proof {
            assert(r@ == parse_tokens(tv, line_number as nat));
        }
        r
    }

    /// Reconstructs the record's line, fields in canonical order.
    #[verifier::rlimit(60)]
    #[verifier::spinoff_prover]
    pub fn serialize(&self) -> (r: String)
        requires
            match self.priority {
                Some(p) => is_upper_char(p),
                None => true,
            },
        ensures
            r@ == render_line(self@),
    {
        let ghost v = self@;
        let mut out = String::new();
        let mut first: bool = true;
        let ghost mut parts: Seq<Seq<char>> = Seq::empty();
        proof {
            reveal_strlit("x");
            reveal_strlit("id:");
            reveal_strlit("+");
            reveal_strlit("@");
            assert("x"@ =~= seq!['x']);
            assert("id:"@ =~= seq!['i', 'd', ':']);
            assert("+"@ =~= seq!['+']);
            assert("@"@ =~= seq!['@']);
        }
        if self.completed {
            proof {
                crate::toks::lemma_join_spaces_push(parts, "x"@);
            }
            push_part(&mut out, first, "x");
            first = false;
            proof {
                parts = parts.push(seq!['x']);
            }
        }
        proof {
            assert(parts =~= marker_seg(v));
        }
        match &self.completion_date {
            Some(d) => {
                let ds = crate::date::format_date(d);
                proof {
                    crate::toks::lemma_join_spaces_push(parts, ds@);
                }
                push_part(&mut out, first, ds.as_str());
                first = false;
                proof {
                    parts = parts.push(ds@);
                }
            },
            None => {},
        }
        proof {
            assert(parts =~= marker_seg(v) + completion_seg(v));
        }
        match &self.priority {
            Some(p) => {
                let ps = priority_str(*p);
                proof {
                    crate::toks::lemma_join_spaces_push(parts, ps@);
                }
                push_part(&mut out, first, ps);
                first = false;
                proof {
                    parts = parts.push(ps@);
                }
            },
            None => {},
        }
        proof {
            assert(parts =~= marker_seg(v) + completion_seg(v) + priority_seg(v));
        }
        match &self.creation_date {
            Some(d) => {
                let ds = crate::date::format_date(d);
                proof {
                    crate::toks::lemma_join_spaces_push(parts, ds@);
                }
                push_part(&mut out, first, ds.as_str());
                first = false;
                proof {
                    parts = parts.push(ds@);
                }
            },
            None => {},
        }
        let ghost head = marker_seg(v) + completion_seg(v) + priority_seg(v) + creation_seg(v);
        proof {
            assert(parts =~= head);
        }
        if self.description.as_str().unicode_len() > 0 {
            proof {
                crate::toks::lemma_join_spaces_push(parts, v.description);
            }
            push_part(&mut out, first, self.description.as_str());
            first = false;
            proof {
                parts = parts.push(v.description);
            }
        }
        let ghost head2 = head + (if v.description.len() > 0 {
            seq![v.description]
        } else {
            Seq::<Seq<char>>::empty()
        });
        proof {
            assert(parts =~= head2);
        }
        let mut j: usize = 0;
        while j < self.projects.len()
            invariant
                j <= self.projects@.len(),
                parts == head2 + plus_tags(self.projects.deep_view().take(j as int)),
                out@ == join_spaces(parts),
                first <==> parts.len() == 0,
                v == self@,
                head2 == marker_seg(v) + completion_seg(v) + priority_seg(v) + creation_seg(v) + (
                if v.description.len() > 0 {
                    seq![v.description]
                } else {
                    Seq::<Seq<char>>::empty()
                }),
            decreases self.projects@.len() - j,
        {
            let mut tag = String::new();
            tag.append("+");
            tag.append(self.projects[j].as_str());
            proof {
                reveal_strlit("+");
                assert(tag@ =~= seq!['+'] + self.projects.deep_view()[j as int]);
                crate::toks::lemma_join_spaces_push(parts, tag@);
            }
            push_part(&mut out, first, tag.as_str());
            first = false;
            proof {
                parts = parts.push(tag@);
                assert(parts =~= head2 + plus_tags(self.projects.deep_view().take(j + 1)));
            }
            j = j + 1;
        }
        proof {
            assert(self.projects.deep_view().take(self.projects@.len() as int)
                =~= self.projects.deep_view());
        }
        let ghost head3 = head2 + plus_tags(v.projects);
        let mut j2: usize = 0;
        while j2 < self.contexts.len()
            invariant
                j2 <= self.contexts@.len(),
                parts == head3 + at_tags(self.contexts.deep_view().take(j2 as int)),
                out@ == join_spaces(parts),
                first <==> parts.len() == 0,
                v == self@,
                head3 == marker_seg(v) + completion_seg(v) + priority_seg(v) + creation_seg(v) + (
                if v.description.len() > 0 {
                    seq![v.description]
                } else {
                    Seq::<Seq<char>>::empty()
                }) + plus_tags(v.projects),
            decreases self.contexts@.len() - j2,
        {
            let mut tag = String::new();
            tag.append("@");
            tag.append(self.contexts[j2].as_str());
            proof {
                reveal_strlit("@");
                assert(tag@ =~= seq!['@'] + self.contexts.deep_view()[j2 as int]);
                crate::toks::lemma_join_spaces_push(parts, tag@);
            }
            push_part(&mut out, first, tag.as_str());
            first = false;
            proof {
                parts = parts.push(tag@);
                assert(parts =~= head3 + at_tags(self.contexts.deep_view().take(j2 + 1)));
            }
            j2 = j2 + 1;
        }
        proof {
            assert(self.contexts.deep_view().take(self.contexts@.len() as int)
                =~= self.contexts.deep_view());
        }
        match &self.id {
            Some(s) => {
                let mut tag = String::new();
                tag.append("id:");
                tag.append(s.as_str());
                proof {
                    reveal_strlit("id:");
                    assert(tag@ =~= seq!['i', 'd', ':'] + s@);
                    crate::toks::lemma_join_spaces_push(parts, tag@);
                }
                push_part(&mut out, first, tag.as_str());
                first = false;
                proof {
                    parts = parts.push(tag@);
                }
            },
            None => {},
        }
        proof {
            assert(parts =~= serialize_parts(v));
        }
        out
    }
}

} // verus!
