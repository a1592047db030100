//! The round-trip law of the record engine: parsing the serialized form of a
//! record in canonical field order gives back the record, field for field.
use vstd::prelude::*;
use crate::date::date_valid;
use crate::date::is_date_token;
use crate::date::render_date;
use crate::date::lemma_render_date_inverse;
use crate::date::lemma_render_date_token_shape;
use crate::text::is_space_char;
use crate::text::is_digit_char;
use crate::toks::tokens_of;
use crate::toks::join_spaces;
use crate::toks::flat_tokens;
use crate::toks::wf_token;
use crate::toks::lemma_tokens_of_single;
use crate::toks::lemma_tokens_of_join_parts;
use crate::record::ItemView;
use crate::record::is_upper_char;
use crate::record::is_priority_token;
use crate::record::is_project_token;
use crate::record::is_context_token;
use crate::record::is_id_token;
use crate::record::is_desc_token;
use crate::record::projects_of;
use crate::record::contexts_of;
use crate::record::id_of;
use crate::record::desc_tokens_of;
use crate::record::parse_tokens;
use crate::record::parse_line;
use crate::record::serialize_tokens;
use crate::record::serialize_parts;
use crate::record::render_line;
use crate::record::marker_seg;
use crate::record::completion_seg;
use crate::record::priority_seg;
use crate::record::creation_seg;
use crate::record::plus_tags;
use crate::record::at_tags;
use crate::record::id_seg;

verus! {

/// A tag value carries no separator characters.
pub open spec fn wf_tag(t: Seq<char>) -> bool {
    forall|k: int| 0 <= k < t.len() ==> !is_space_char(t[k])
}

/// A description in canonical form: single-spaced words, none of which
/// reads as a tag or an identifier.
pub open spec fn desc_wf(d: Seq<char>) -> bool {
    &&& d == join_spaces(tokens_of(d))
    &&& forall|i: int| 0 <= i < tokens_of(d).len() ==> is_desc_token(#[trigger] tokens_of(d)[i])
}

/// A record whose fields could all have come from one line read in
/// canonical order: exactly the records whose serialized form parses back
/// to them.
pub open spec fn wf_record(v: ItemView) -> bool {
    &&& v.completed ==> v.priority is None
    &&& v.completion_date is Some ==> v.completed
    &&& v.completed && v.completion_date is None ==> v.creation_date is None
    &&& match v.priority {
        Some(p) => is_upper_char(p),
        None => true,
    }
    &&& match v.creation_date {
        Some(d) => date_valid(d),
        None => true,
    }
    &&& match v.completion_date {
        Some(d) => date_valid(d),
        None => true,
    }
    &&& desc_wf(v.description)
    &&& (v.creation_date is None && tokens_of(v.description).len() > 0 ==> !is_date_token(
        tokens_of(v.description)[0],
    ))
    &&& (!v.completed && v.priority is None && v.creation_date is None && tokens_of(
        v.description,
    ).len() > 0 ==> !is_priority_token(tokens_of(v.description)[0]) && tokens_of(v.description)[0]
        != seq!['x'])
    &&& forall|i: int| 0 <= i < v.projects.len() ==> wf_tag(#[trigger] v.projects[i])
    &&& forall|i: int| 0 <= i < v.contexts.len() ==> wf_tag(#[trigger] v.contexts[i])
    &&& match v.id {
        Some(s) => wf_tag(s),
        None => true,
    }
}

/// The tokens after the fixed leading fields.
pub open spec fn rest_tokens(v: ItemView) -> Seq<Seq<char>> {
    tokens_of(v.description) + plus_tags(v.projects) + at_tags(v.contexts) + id_seg(v)
}

proof fn lemma_projects_concat(a: Seq<Seq<char>>, b: Seq<Seq<char>>)
    ensures
        projects_of(a + b) == projects_of(a) + projects_of(b),
    decreases b.len(),
{
    if b.len() == 0 {
        assert(a + b =~= a);
        assert(projects_of(a) + projects_of(b) =~= projects_of(a));
    } else {
        assert((a + b).drop_last() =~= a + b.drop_last());
        assert((a + b).last() == b.last());
        lemma_projects_concat(a, b.drop_last());
        assert(projects_of(a + b) =~= projects_of(a) + projects_of(b));
    }
}

proof fn lemma_contexts_concat(a: Seq<Seq<char>>, b: Seq<Seq<char>>)
    ensures
        contexts_of(a + b) == contexts_of(a) + contexts_of(b),
    decreases b.len(),
{
    if b.len() == 0 {
        assert(a + b =~= a);
        assert(contexts_of(a) + contexts_of(b) =~= contexts_of(a));
    } else {
        assert((a + b).drop_last() =~= a + b.drop_last());
        assert((a + b).last() == b.last());
        lemma_contexts_concat(a, b.drop_last());
        assert(contexts_of(a + b) =~= contexts_of(a) + contexts_of(b));
    }
}

proof fn lemma_desc_concat(a: Seq<Seq<char>>, b: Seq<Seq<char>>)
    ensures
        desc_tokens_of(a + b) == desc_tokens_of(a) + desc_tokens_of(b),
    decreases b.len(),
{
    if b.len() == 0 {
        assert(a + b =~= a);
        assert(desc_tokens_of(a) + desc_tokens_of(b) =~= desc_tokens_of(a));
    } else {
        assert((a + b).drop_last() =~= a + b.drop_last());
        assert((a + b).last() == b.last());
        lemma_desc_concat(a, b.drop_last());
        assert(desc_tokens_of(a + b) =~= desc_tokens_of(a) + desc_tokens_of(b));
    }
}

proof fn lemma_id_concat(a: Seq<Seq<char>>, b: Seq<Seq<char>>)
    ensures
        id_of(a + b) == if id_of(b) is Some {
            id_of(b)
        } else {
            id_of(a)
        },
    decreases b.len(),
{
    if b.len() == 0 {
        assert(a + b =~= a);
    } else {
        assert((a + b).drop_last() =~= a + b.drop_last());
        assert((a + b).last() == b.last());
        if !is_id_token(b.last()) {
            lemma_id_concat(a, b.drop_last());
        }
    }
}

proof fn lemma_projects_empty(s: Seq<Seq<char>>)
    requires
        forall|i: int| 0 <= i < s.len() ==> !is_project_token(#[trigger] s[i]),
    ensures
        projects_of(s) == Seq::<Seq<char>>::empty(),
    decreases s.len(),
{
    if s.len() > 0 {
        lemma_projects_empty(s.drop_last());
        assert(projects_of(s) =~= Seq::<Seq<char>>::empty());
    }
}

proof fn lemma_contexts_empty(s: Seq<Seq<char>>)
    requires
        forall|i: int| 0 <= i < s.len() ==> !is_context_token(#[trigger] s[i]),
    ensures
        contexts_of(s) == Seq::<Seq<char>>::empty(),
    decreases s.len(),
{
    if s.len() > 0 {
        lemma_contexts_empty(s.drop_last());
        assert(contexts_of(s) =~= Seq::<Seq<char>>::empty());
    }
}

proof fn lemma_id_empty(s: Seq<Seq<char>>)
    requires
        forall|i: int| 0 <= i < s.len() ==> !is_id_token(#[trigger] s[i]),
    ensures
        id_of(s) is None,
    decreases s.len(),
{
    if s.len() > 0 {
        lemma_id_empty(s.drop_last());
    }
}

proof fn lemma_desc_empty(s: Seq<Seq<char>>)
    requires
        forall|i: int| 0 <= i < s.len() ==> !is_desc_token(#[trigger] s[i]),
    ensures
        desc_tokens_of(s) == Seq::<Seq<char>>::empty(),
    decreases s.len(),
{
    if s.len() > 0 {
        lemma_desc_empty(s.drop_last());
        assert(desc_tokens_of(s) =~= Seq::<Seq<char>>::empty());
    }
}

proof fn lemma_desc_all(s: Seq<Seq<char>>)
    requires
        forall|i: int| 0 <= i < s.len() ==> is_desc_token(#[trigger] s[i]),
    ensures
        desc_tokens_of(s) == s,
    decreases s.len(),
{
    if s.len() > 0 {
        lemma_desc_all(s.drop_last());
        assert(desc_tokens_of(s) =~= s);
    }
}

proof fn lemma_projects_of_plus(ts: Seq<Seq<char>>)
    ensures
        projects_of(plus_tags(ts)) == ts,
    decreases ts.len(),
{
    if ts.len() == 0 {
        assert(projects_of(plus_tags(ts)) =~= ts);
    } else {
        assert(plus_tags(ts).drop_last() =~= plus_tags(ts.drop_last()));
        assert(plus_tags(ts).last() == seq!['+'] + ts.last());
        assert(is_project_token(seq!['+'] + ts.last()));
        assert((seq!['+'] + ts.last()).skip(1) =~= ts.last());
        lemma_projects_of_plus(ts.drop_last());
        assert(projects_of(plus_tags(ts)) =~= ts);
    }
}

proof fn lemma_contexts_of_at(ts: Seq<Seq<char>>)
    ensures
        contexts_of(at_tags(ts)) == ts,
    decreases ts.len(),
{
    if ts.len() == 0 {
        assert(contexts_of(at_tags(ts)) =~= ts);
    } else {
        assert(at_tags(ts).drop_last() =~= at_tags(ts.drop_last()));
        assert(at_tags(ts).last() == seq!['@'] + ts.last());
        assert(is_context_token(seq!['@'] + ts.last()));
        assert(!is_project_token(seq!['@'] + ts.last()));
        assert((seq!['@'] + ts.last()).skip(1) =~= ts.last());
        lemma_contexts_of_at(ts.drop_last());
        assert(contexts_of(at_tags(ts)) =~= ts);
    }
}

/// Shape facts about the four tail segments.
proof fn lemma_rest_projections(v: ItemView)
    requires
        wf_record(v),
    ensures
        projects_of(rest_tokens(v)) == v.projects,
        contexts_of(rest_tokens(v)) == v.contexts,
        id_of(rest_tokens(v)) == v.id,
        desc_tokens_of(rest_tokens(v)) == tokens_of(v.description),
{
    let dt = tokens_of(v.description);
    let pt = plus_tags(v.projects);
    let ct = at_tags(v.contexts);
    let it = id_seg(v);
    let rest = rest_tokens(v);
    assert(rest =~= ((dt + pt) + ct) + it);
    assert(forall|i: int| 0 <= i < pt.len() ==> #[trigger] pt[i] == seq!['+'] + v.projects[i]);
    assert(forall|i: int| 0 <= i < ct.len() ==> #[trigger] ct[i] == seq!['@'] + v.contexts[i]);
    assert(forall|i: int|
        0 <= i < dt.len() ==> !is_project_token(#[trigger] dt[i]) && !is_context_token(dt[i])
            && !is_id_token(dt[i]));
    assert(forall|i: int|
        0 <= i < pt.len() ==> is_project_token(#[trigger] pt[i]) && !is_context_token(pt[i])
            && !is_id_token(pt[i]) && !is_desc_token(pt[i]));
    assert(forall|i: int|
        0 <= i < ct.len() ==> !is_project_token(#[trigger] ct[i]) && is_context_token(ct[i])
            && !is_id_token(ct[i]) && !is_desc_token(ct[i]));
    assert(forall|i: int|
        0 <= i < it.len() ==> !is_project_token(#[trigger] it[i]) && !is_context_token(it[i])
            && is_id_token(it[i]) && !is_desc_token(it[i]));
    // projects
    lemma_projects_concat((dt + pt) + ct, it);
    lemma_projects_concat(dt + pt, ct);
    lemma_projects_concat(dt, pt);
    lemma_projects_empty(dt);
    lemma_projects_of_plus(v.projects);
    lemma_projects_empty(ct);
    lemma_projects_empty(it);
    assert(projects_of(rest) =~= v.projects);
    // contexts
    lemma_contexts_concat((dt + pt) + ct, it);
    lemma_contexts_concat(dt + pt, ct);
    lemma_contexts_concat(dt, pt);
    lemma_contexts_empty(dt);
    lemma_contexts_empty(pt);
    lemma_contexts_of_at(v.contexts);
    lemma_contexts_empty(it);
    assert(contexts_of(rest) =~= v.contexts);
    // identifier
    lemma_id_concat((dt + pt) + ct, it);
    lemma_id_concat(dt + pt, ct);
    lemma_id_concat(dt, pt);
    lemma_id_empty(dt);
    lemma_id_empty(pt);
    lemma_id_empty(ct);
    match v.id {
        Some(s) => {
            assert(it.len() == 1 && it[0] == seq!['i', 'd', ':'] + s);
            assert(is_id_token(it[0]));
            assert(id_of(it) == Some(it[0].skip(3)));
            assert(it[0].skip(3) =~= s);
        },
        None => {
            assert(it.len() == 0);
            lemma_id_empty(it);
        },
    }
    // description words
    lemma_desc_concat((dt + pt) + ct, it);
    lemma_desc_concat(dt + pt, ct);
    lemma_desc_concat(dt, pt);
    lemma_desc_all(dt);
    lemma_desc_empty(pt);
    lemma_desc_empty(ct);
    lemma_desc_empty(it);
    assert(desc_tokens_of(rest) =~= dt);
}

/// Every token of the serialized form is well formed, and the tokens of the
/// rendered line are exactly the serialized tokens.
pub proof fn lemma_tokens_of_render(v: ItemView)
    requires
        wf_record(v),
    ensures
        tokens_of(render_line(v)) == serialize_tokens(v),
{
    lemma_tokens_of_join_parts(serialize_parts(v));
    let m = marker_seg(v);
    let c = completion_seg(v);
    let p = priority_seg(v);
    let cr = creation_seg(v);
    let dseg: Seq<Seq<char>> = if v.description.len() > 0 {
        seq![v.description]
    } else {
        Seq::<Seq<char>>::empty()
    };
    let pt = plus_tags(v.projects);
    let ct = at_tags(v.contexts);
    let it = id_seg(v);
    let parts = serialize_parts(v);
    assert(parts =~= ((((((m + c) + p) + cr) + dseg) + pt) + ct) + it);
    lemma_flat_concat((((((m + c) + p) + cr) + dseg) + pt) + ct, it);
    lemma_flat_concat(((((m + c) + p) + cr) + dseg) + pt, ct);
    lemma_flat_concat((((m + c) + p) + cr) + dseg, pt);
    lemma_flat_concat(((m + c) + p) + cr, dseg);
    lemma_flat_concat((m + c) + p, cr);
    lemma_flat_concat(m + c, p);
    lemma_flat_concat(m, c);
    // each fixed segment is a run of single well-formed tokens
    if v.completed {
        assert(wf_token(seq!['x'])) by {
            assert(!is_space_char('x'));
        }
        lemma_flat_single(m);
    } else {
        assert(m.len() == 0);
    }
    match v.completion_date {
        Some(d) => {
            lemma_render_date_token_shape(d);
            lemma_flat_single(c);
        },
        None => {},
    }
    match v.priority {
        Some(pr) => {
            assert(wf_token(seq!['(', pr, ')'])) by {
                assert(!is_space_char('('));
                assert(!is_space_char(')'));
                assert((' ' as int) == 32 && ('\t' as int) == 9);
                assert(!is_space_char(pr));
            }
            lemma_flat_single(p);
        },
        None => {},
    }
    match v.creation_date {
        Some(d) => {
            lemma_render_date_token_shape(d);
            lemma_flat_single(cr);
        },
        None => {},
    }
    // the description segment contributes exactly the description's tokens
    if v.description.len() > 0 {
        assert(dseg.drop_first() =~= Seq::<Seq<char>>::empty());
        assert(flat_tokens(dseg) =~= tokens_of(v.description));
    } else {
        assert(tokens_of(v.description).len() == 0) by {
            if tokens_of(v.description).len() > 0 {
                crate::toks::lemma_join_nonempty(tokens_of(v.description));
            }
        }
        assert(flat_tokens(dseg) =~= tokens_of(v.description));
    }
    // tag and identifier tokens are single well-formed tokens
    assert(forall|i: int| 0 <= i < pt.len() ==> #[trigger] pt[i] == seq!['+'] + v.projects[i]);
    assert(forall|i: int| 0 <= i < pt.len() ==> wf_token(#[trigger] pt[i])) by {
        assert(!is_space_char('+'));
    }
    lemma_flat_single(pt);
    assert(forall|i: int| 0 <= i < ct.len() ==> #[trigger] ct[i] == seq!['@'] + v.contexts[i]);
    assert(forall|i: int| 0 <= i < ct.len() ==> wf_token(#[trigger] ct[i])) by {
        assert(!is_space_char('@'));
    }
    lemma_flat_single(ct);
    match v.id {
        Some(s) => {
            assert(it[0] == seq!['i', 'd', ':'] + s);
            assert(wf_token(it[0])) by {
                assert(!is_space_char('i') && !is_space_char('d') && !is_space_char(':'));
            }
            lemma_flat_single(it);
        },
        None => {},
    }
    assert(flat_tokens(parts) =~= serialize_tokens(v));
}

/// Flattening distributes over concatenation of part runs.
proof fn lemma_flat_concat(a: Seq<Seq<char>>, b: Seq<Seq<char>>)
    ensures
        flat_tokens(a + b) == flat_tokens(a) + flat_tokens(b),
    decreases a.len(),
{
    if a.len() == 0 {
        assert(a + b =~= b);
        assert(flat_tokens(a) + flat_tokens(b) =~= flat_tokens(b));
    } else {
        assert((a + b).drop_first() =~= a.drop_first() + b);
        assert((a + b)[0] == a[0]);
        lemma_flat_concat(a.drop_first(), b);
        assert(flat_tokens(a + b) =~= flat_tokens(a) + flat_tokens(b));
    }
}

/// A run of single well-formed tokens flattens to itself.
proof fn lemma_flat_single(s: Seq<Seq<char>>)
    requires
        forall|i: int| 0 <= i < s.len() ==> wf_token(#[trigger] s[i]),
    ensures
        flat_tokens(s) == s,
    decreases s.len(),
{
    if s.len() > 0 {
        lemma_tokens_of_single(s[0]);
        lemma_flat_single(s.drop_first());
        assert(flat_tokens(s) =~= s);
    }
}

/// The first-token shape facts the leading-field scan relies on.
#[verifier::rlimit(50)]
proof fn lemma_rest_first_token(v: ItemView)
    requires
        wf_record(v),
    ensures
        serialize_tokens(v) =~= ((marker_seg(v) + completion_seg(v)) + priority_seg(v)) + (
        creation_seg(v) + rest_tokens(v)),
        rest_tokens(v).len() > 0 && v.creation_date is None ==> !is_date_token(rest_tokens(v)[0]),
        rest_tokens(v).len() > 0 && !v.completed && v.priority is None && v.creation_date is None
            ==> (!is_priority_token(rest_tokens(v)[0]) && rest_tokens(v)[0] != seq!['x']),
{
    let st = serialize_tokens(v);
    let rest = rest_tokens(v);
    let dt = tokens_of(v.description);
    assert(st =~= ((marker_seg(v) + completion_seg(v)) + priority_seg(v)) + (creation_seg(v)
        + rest));
    assert(rest.len() > 0 && v.creation_date is None ==> !is_date_token(rest[0])) by {
        if rest.len() > 0 && dt.len() == 0 {
            assert(!is_digit_char(rest[0][0]));
        }
    }
    assert(rest.len() > 0 && !v.completed && v.priority is None && v.creation_date is None ==> (
    !is_priority_token(rest[0]) && rest[0] != seq!['x'])) by {
        if rest.len() > 0 && dt.len() == 0 {
            assert(rest[0][0] == '+' || rest[0][0] == '@' || rest[0][0] == 'i');
            assert(rest[0][0] != '(' && rest[0][0] != 'x');
        }
    }
}

/// Parsing the serialized tokens of a well-formed completed record restores
/// every field.
#[verifier::rlimit(100)]
#[verifier::spinoff_prover]
proof fn lemma_serialize_parse_completed(v: ItemView, n: nat)
    requires
        wf_record(v),
        v.completed,
    ensures
        parse_tokens(serialize_tokens(v), n) == (ItemView { line_number: n, ..v }),
{
    let st = serialize_tokens(v);
    let rest = rest_tokens(v);
    lemma_rest_projections(v);
    lemma_rest_first_token(v);
    {
        assert(st[0] == seq!['x']);
        match v.completion_date {
            Some(d) => {
                lemma_render_date_inverse(d);
                assert(st[1] == render_date(d));
                match v.creation_date {
                    Some(d2) => {
                        lemma_render_date_inverse(d2);
                        assert(st[2] == render_date(d2));
                        assert(st.skip(3) =~= rest);
                    },
                    None => {
                        if st.len() > 2 {
                            assert(st[2] == rest[0]);
                        }
                        assert(st.skip(2) =~= rest);
                    },
                }
            },
            None => {
                // no completion date implies no creation date either
                assert(v.creation_date is None);
                if st.len() > 1 {
                    assert(st[1] == rest[0]);
                    assert(!is_date_token(st[1]));
                }
                assert(st.skip(1) =~= rest);
            },
        }
        assert(parse_tokens(st, n) == (ItemView { line_number: n, ..v }));
    }
}

/// Parsing the serialized tokens of a well-formed pending record restores
/// every field.
#[verifier::rlimit(100)]
#[verifier::spinoff_prover]
proof fn lemma_serialize_parse_pending(v: ItemView, n: nat)
    requires
        wf_record(v),
        !v.completed,
    ensures
        parse_tokens(serialize_tokens(v), n) == (ItemView { line_number: n, ..v }),
{
    let st = serialize_tokens(v);
    let rest = rest_tokens(v);
    lemma_rest_projections(v);
    lemma_rest_first_token(v);
    {
        assert(v.completion_date is None);
        match v.priority {
            Some(pr) => {
                assert(st[0] == seq!['(', pr, ')']);
                assert(st[0] != seq!['x']);
                assert(is_priority_token(st[0]));
                match v.creation_date {
                    Some(d2) => {
                        lemma_render_date_inverse(d2);
                        assert(st[1] == render_date(d2));
                        assert(st.skip(2) =~= rest);
                    },
                    None => {
                        if st.len() > 1 {
                            assert(st[1] == rest[0]);
                            assert(!is_date_token(st[1]));
                        }
                        assert(st.skip(1) =~= rest);
                    },
                }
            },
            None => {
                match v.creation_date {
                    Some(d2) => {
                        lemma_render_date_inverse(d2);
                        assert(st[0] == render_date(d2));
                        assert(st[0] != seq!['x']);
                        assert(!is_priority_token(st[0]));
                        assert(st.skip(1) =~= rest);
                    },
                    None => {
                        assert(st =~= rest);
                        if st.len() > 0 {
                            assert(st[0] == rest[0]);
                            assert(st[0] != seq!['x']);
                            assert(!is_priority_token(st[0]));
                            assert(!is_date_token(st[0]));
                        }
                        assert(st.skip(0) =~= rest);
                    },
                }
            },
        }
        assert(parse_tokens(st, n) == (ItemView { line_number: n, ..v }));
    }
}

/// Parsing the serialized tokens of a well-formed record restores every
/// field; the line number is the parser's own input.
pub proof fn lemma_serialize_parse(v: ItemView, n: nat)
    requires
        wf_record(v),
    ensures
        parse_tokens(serialize_tokens(v), n) == (ItemView { line_number: n, ..v }),
{
    if v.completed {
        lemma_serialize_parse_completed(v, n);
    } else {
        lemma_serialize_parse_pending(v, n);
    }
}

/// ROUND TRIP, line level: rendering a well-formed record and parsing the
/// result restores the record, with the parser's line number.
pub proof fn lemma_parse_render_round_trip(v: ItemView, n: nat)
    requires
        wf_record(v),
    ensures
        parse_line(render_line(v), n) == (ItemView { line_number: n, ..v }),
{
    lemma_tokens_of_render(v);
    lemma_serialize_parse(v, n);
}

/// A line whose tokens stand in canonical field order.
pub open spec fn canonical_line(l: Seq<char>) -> bool {
    exists|v: ItemView| wf_record(v) && tokens_of(l) == serialize_tokens(v)
}

/// ROUND TRIP, as the engine's clients see it: for any record line with
/// fields in canonical order, parse followed by serialize reproduces an
/// equivalent parse, field for field.
pub proof fn lemma_parse_serialize_parse(l: Seq<char>, n: nat, m: nat)
    requires
        canonical_line(l),
    ensures
        wf_record(parse_line(l, n)),
        parse_line(render_line(parse_line(l, n)), m) == (ItemView {
            line_number: m,
            ..parse_line(l, n)
        }),
{
    let v = choose|v: ItemView| wf_record(v) && tokens_of(l) == serialize_tokens(v);
    lemma_serialize_parse(v, n);
    let r = parse_line(l, n);
    assert(r == (ItemView { line_number: n, ..v }));
    assert(wf_record(r));
    lemma_parse_render_round_trip(r, m);
}

} // verus!
