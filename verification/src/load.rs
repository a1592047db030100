//! Loading records from file content: parse each non-blank line, then order
//! by priority class (`A` first, none last) and, within a class, by original
//! line number.
use vstd::prelude::*;
use crate::record::Item;
use crate::record::ItemView;
use crate::record::parse_line;
use crate::toks::tokens_of;
use crate::toks::lines_of;
use crate::toks::tokenize;
use crate::toks::split_lines;

verus! {

/// The priority class of a record: `A` is 0, `Z` is 25, none (or anything
/// that is not an upper-case letter) is last.
pub open spec fn priority_class(v: ItemView) -> int {
    match v.priority {
        Some(p) => if crate::record::is_upper_char(p) {
            (p as int) - ('A' as int)
        } else {
            26
        },
        None => 26,
    }
}

/// The load order: by priority class, then by original line number.
pub open spec fn key_le(a: ItemView, b: ItemView) -> bool {
    priority_class(a) < priority_class(b) || (priority_class(a) == priority_class(b)
        && a.line_number <= b.line_number)
}

/// A run of records in load order.
pub open spec fn sorted_records(s: Seq<ItemView>) -> bool {
    forall|i: int, j: int| 0 <= i < j < s.len() ==> key_le(s[i], s[j])
}

/// Places a record after every record that does not come after it.
pub open spec fn insert_sorted(s: Seq<ItemView>, x: ItemView) -> Seq<ItemView>
    decreases s.len(),
{
    if s.len() == 0 || key_le(s.last(), x) {
        s.push(x)
    } else {
        insert_sorted(s.drop_last(), x).push(s.last())
    }
}

/// Insertion sort of records, stable in the original order.
pub open spec fn sort_records(s: Seq<ItemView>) -> Seq<ItemView>
    decreases s.len(),
{
    if s.len() == 0 {
        Seq::empty()
    } else {
        insert_sorted(sort_records(s.drop_last()), s.last())
    }
}

/// The records parsed from a run of lines: every non-blank line, with its
/// 1-based line number, in file order.
pub open spec fn parsed_records(ls: Seq<Seq<char>>) -> Seq<ItemView>
    decreases ls.len(),
{
    if ls.len() == 0 {
        Seq::empty()
    } else {
        parsed_records(ls.drop_last()) + if tokens_of(ls.last()).len() > 0 {
            seq![parse_line(ls.last(), ls.len())]
        } else {
            Seq::empty()
        }
    }
}

/// What loading file content yields.
pub open spec fn load_view(content: Seq<char>) -> Seq<ItemView> {
    sort_records(parsed_records(lines_of(content)))
}

fn priority_class_exec(a: &Item) -> (r: i64)
    ensures
        r == priority_class(a@),
{
    match a.priority {
        Some(c) => match c {
            'A' => 0,
            'B' => 1,
            'C' => 2,
            'D' => 3,
            'E' => 4,
            'F' => 5,
            'G' => 6,
            'H' => 7,
            'I' => 8,
            'J' => 9,
            'K' => 10,
            'L' => 11,
            'M' => 12,
            'N' => 13,
            'O' => 14,
            'P' => 15,
            'Q' => 16,
            'R' => 17,
            'S' => 18,
            'T' => 19,
            'U' => 20,
            'V' => 21,
            'W' => 22,
            'X' => 23,
            'Y' => 24,
            'Z' => 25,
            _ => 26,
        },
        None => 26,
    }
}

/// Compares two records in load order.
pub fn key_le_exec(a: &Item, b: &Item) -> (r: bool)
    ensures
        r == key_le(a@, b@),
{
    let ca = priority_class_exec(a);
    let cb = priority_class_exec(b);
    ca < cb || (ca == cb && a.line_number <= b.line_number)
}

proof fn lemma_insert_sorted_at(s: Seq<ItemView>, x: ItemView, p: int)
    requires
        0 <= p <= s.len(),
        forall|j: int| p <= j < s.len() ==> !key_le(#[trigger] s[j], x),
        p > 0 ==> key_le(s[p - 1], x),
    ensures
        insert_sorted(s, x) == s.take(p) + seq![x] + s.skip(p),
    decreases s.len(),
{
    if p == s.len() {
        assert(insert_sorted(s, x) == s.push(x));
        assert(s.push(x) =~= s.take(p) + seq![x] + s.skip(p));
    } else {
        assert(!key_le(s.last(), x));
        lemma_insert_sorted_at(s.drop_last(), x, p);
        assert((s.drop_last().take(p) + seq![x] + s.drop_last().skip(p)).push(s.last()) =~= s.take(
            p,
        ) + seq![x] + s.skip(p));
    }
}

/// Every element of the insertion result is the new record or an original
/// one.
proof fn lemma_insert_sorted_elems(s: Seq<ItemView>, x: ItemView)
    ensures
        insert_sorted(s, x).len() == s.len() + 1,
        forall|k: int|
            0 <= k < insert_sorted(s, x).len() ==> (#[trigger] insert_sorted(s, x)[k] == x
                || s.contains(insert_sorted(s, x)[k])),
    decreases s.len(),
{
    if s.len() == 0 || key_le(s.last(), x) {
    } else {
        lemma_insert_sorted_elems(s.drop_last(), x);
        assert(forall|k: int|
            0 <= k < insert_sorted(s, x).len() ==> (#[trigger] insert_sorted(s, x)[k] == x
                || s.contains(insert_sorted(s, x)[k]))) by {
            assert(forall|e: ItemView| s.drop_last().contains(e) ==> s.contains(e));
            assert(s.contains(s.last()));
        }
    }
}

/// Inserting into a run in load order keeps it in load order.
proof fn lemma_insert_sorted_sorted(s: Seq<ItemView>, x: ItemView)
    requires
        sorted_records(s),
    ensures
        sorted_records(insert_sorted(s, x)),
    decreases s.len(),
{
    if s.len() == 0 {
    } else if key_le(s.last(), x) {
        assert(forall|i: int| 0 <= i < s.len() ==> key_le(#[trigger] s[i], x)) by {
            assert(forall|i: int| 0 <= i < s.len() - 1 ==> key_le(#[trigger] s[i], s.last()));
        }
    } else {
        assert(sorted_records(s.drop_last()));
        lemma_insert_sorted_sorted(s.drop_last(), x);
        lemma_insert_sorted_elems(s.drop_last(), x);
        let t = insert_sorted(s.drop_last(), x);
        assert(forall|k: int| 0 <= k < t.len() ==> key_le(#[trigger] t[k], s.last())) by {
            assert(key_le(x, s.last()));
            assert(forall|e: ItemView| s.drop_last().contains(e) ==> key_le(e, s.last()));
        }
        assert(sorted_records(t.push(s.last())));
    }
}

/// The load order result of any record run is in load order.
pub proof fn lemma_sort_records_sorted(s: Seq<ItemView>)
    ensures
        sorted_records(sort_records(s)),
    decreases s.len(),
{
    if s.len() > 0 {
        lemma_sort_records_sorted(s.drop_last());
        lemma_insert_sorted_sorted(sort_records(s.drop_last()), s.last());
    }
}

/// ORDERING: whatever the file content, loading yields records ordered by
/// priority class and then by original line number.
pub proof fn lemma_load_ordered(content: Seq<char>)
    ensures
        sorted_records(load_view(content)),
{
    lemma_sort_records_sorted(parsed_records(lines_of(content)));
}

/// Inserts a record into a run kept in load order.
fn insert_in_order(out: &mut Vec<Item>, item: Item)
    ensures
        final(out).deep_view() == insert_sorted(old(out).deep_view(), item@),
{
    let mut p: usize = out.len();
    while p > 0
        invariant
            p <= out@.len(),
            forall|j: int|
                p <= j < out@.len() ==> !key_le(#[trigger] out.deep_view()[j], item@),
        ensures
            p <= out@.len(),
            forall|j: int|
                p <= j < out@.len() ==> !key_le(#[trigger] out.deep_view()[j], item@),
            p > 0 ==> key_le(out.deep_view()[p - 1], item@),
        decreases p,
    {
        if key_le_exec(&out[p - 1], &item) {
            break ;
        }
        p = p - 1;
    }
    let ghost prev = out.deep_view();
    let ghost gp = p as int;
    out.insert(p, item);
    proof {
        lemma_insert_sorted_at(prev, item@, gp);
        assert(out.deep_view() =~= prev.take(gp) + seq![item@] + prev.skip(gp));
    }
}

/// Parses every non-blank line of the content and returns the records in
/// load order.
pub fn load_todos(content: &str) -> (r: Vec<Item>)
    ensures
        r.deep_view() == load_view(content@),
{
    let lines = split_lines(content);
    let ghost lv = lines.deep_view();
    let mut items: Vec<Item> = Vec::new();
    let mut i: usize = 0;
    proof {
        assert(lv.take(0) =~= Seq::<Seq<char>>::empty());
    }
    while i < lines.len()
        invariant
            i <= lines@.len(),
            lv == lines.deep_view(),
            lv == lines_of(content@),
            items.deep_view() == parsed_records(lv.take(i as int)),
        decreases lines@.len() - i,
    {
        let line: &str = lines[i];
        let toks = tokenize(line);
        proof {
            assert(lv.take(i + 1).drop_last() =~= lv.take(i as int));
            assert(lv.take(i + 1).last() == lv[i as int]);
        }
        if toks.len() > 0 {
            let ghost prev = items.deep_view();
            items.push(Item::parse(line, i + 1));
            proof {
                assert(items.deep_view() =~= prev.push(parse_line(lv[i as int], (i + 1) as nat)));
                assert(items.deep_view() =~= parsed_records(lv.take(i + 1)));
            }
        } else {
            proof {
                assert(items.deep_view() =~= parsed_records(lv.take(i + 1)));
            }
        }
        i = i + 1;
    }
    proof {
        assert(lv.take(lines@.len() as int) =~= lv);
    }
    let mut out: Vec<Item> = Vec::new();
    let mut k: usize = 0;
    proof {
        assert(items.deep_view().take(0) =~= Seq::<ItemView>::empty());
    }
    while k < items.len()
        invariant
            k <= items@.len(),
            items.deep_view() == parsed_records(lines_of(content@)),
            out.deep_view() == sort_records(items.deep_view().take(k as int)),
        decreases items@.len() - k,
    {
        let it = items[k].clone();
        proof {
            assert(items.deep_view().take(k + 1).drop_last() =~= items.deep_view().take(k as int));
            assert(items.deep_view().take(k + 1).last() == items.deep_view()[k as int]);
        }
        insert_in_order(&mut out, it);
        k = k + 1;
    }
    proof {
        assert(items.deep_view().take(items@.len() as int) =~= items.deep_view());
    }
    out
}

} // verus!
