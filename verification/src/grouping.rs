//! The grouping index: records partitioned by group tag into columns, one
//! column per tag name plus a synthetic column for records without tags,
//! columns ordered lexicographically by name.
use vstd::prelude::*;
use vstd::string::*;
use crate::record::Item;
use crate::record::ItemView;
use crate::record::clone_string_vec;
use crate::text::lex_lt;
use crate::text::str_lt;
use crate::text::str_eq;
use crate::text::lemma_lex_lt_trichotomy;
use crate::text::lemma_lex_lt_transitive;
use crate::text::lemma_lex_lt_irreflexive;

verus! {

/// The synthetic column name for records without group tags.
pub open spec fn no_project_name() -> Seq<char> {
    "No Project"@
}

/// The executable synthetic column name.
pub fn no_project_string() -> (r: String)
    ensures
        r@ == no_project_name(),
{
    "No Project".to_owned()
}

/// Whether a record belongs to the column of the given name.
pub open spec fn belongs(v: ItemView, name: Seq<char>) -> bool {
    if v.projects.len() == 0 {
        name == no_project_name()
    } else {
        v.projects.contains(name)
    }
}

/// Whether some record of the run belongs to the column of the given name.
pub open spec fn name_occurs(todos: Seq<ItemView>, name: Seq<char>) -> bool {
    exists|j: int| 0 <= j < todos.len() && belongs(todos[j], name)
}

/// The records of the run that belong to the column, in run order.
pub open spec fn items_for(name: Seq<char>, todos: Seq<ItemView>) -> Seq<ItemView>
    decreases todos.len(),
{
    if todos.len() == 0 {
        Seq::empty()
    } else {
        items_for(name, todos.drop_last()) + if belongs(todos.last(), name) {
            seq![todos.last()]
        } else {
            Seq::empty()
        }
    }
}

/// A column whose name occurs in the run holds at least one record.
pub proof fn lemma_items_for_nonempty(name: Seq<char>, todos: Seq<ItemView>)
    requires
        name_occurs(todos, name),
    ensures
        items_for(name, todos).len() > 0,
    decreases todos.len(),
{
    let j = choose|j: int| 0 <= j < todos.len() && belongs(todos[j], name);
    if j < todos.len() - 1 {
        assert(belongs(todos.drop_last()[j], name));
        lemma_items_for_nonempty(name, todos.drop_last());
    }
}

/// One column: a group name and its records.
pub struct Group {
    pub name: String,
    pub todos: Vec<Item>,
}

/// The mathematical shape of a column.
pub struct GroupView {
    pub name: Seq<char>,
    pub todos: Seq<ItemView>,
}

impl View for Group {
    type V = GroupView;

    open spec fn view(&self) -> GroupView {
        GroupView { name: self.name@, todos: self.todos.deep_view() }
    }
}

impl DeepView for Group {
    type V = GroupView;

    open spec fn deep_view(&self) -> GroupView {
        self.view()
    }
}

/// Strictly ascending, hence duplicate-free, name order.
pub open spec fn names_sorted(ns: Seq<Seq<char>>) -> bool {
    forall|i: int, j: int| 0 <= i < j < ns.len() ==> lex_lt(ns[i], ns[j])
}

/// Whether a name run contains the given name.
pub open spec fn names_contain(ns: Seq<Seq<char>>, n: Seq<char>) -> bool {
    exists|i: int| 0 <= i < ns.len() && ns[i] == n
}

/// Tests whether a name stands in the vector.
pub fn names_contain_exec(ns: &Vec<String>, n: &str) -> (r: bool)
    ensures
        r == names_contain(ns.deep_view(), n@),
{
    let mut i: usize = 0;
    while i < ns.len()
        invariant
            i <= ns@.len(),
            forall|k: int| 0 <= k < i ==> ns.deep_view()[k] != n@,
        decreases ns@.len() - i,
    {
        if str_eq(ns[i].as_str(), n) {
            proof {
                assert(ns.deep_view()[i as int] == n@);
            }
            return true;
        }
        i = i + 1;
    }
    false
}

/// Inserts a name into a strictly sorted name run, keeping it sorted; a
/// name already present is left alone.
pub fn insert_name(ns: &mut Vec<String>, n: &str)
    requires
        names_sorted(old(ns).deep_view()),
    ensures
        names_sorted(final(ns).deep_view()),
        forall|x: Seq<char>|
            #[trigger] names_contain(final(ns).deep_view(), x) <==> (names_contain(
                old(ns).deep_view(),
                x,
            ) || x == n@),
{
    let ghost pre = ns.deep_view();
    let mut p: usize = 0;
    while p < ns.len()
        invariant
            p <= ns@.len(),
            pre == ns.deep_view(),
            forall|k: int| 0 <= k < p ==> lex_lt(#[trigger] pre[k], n@),
        ensures
            p <= ns@.len(),
            pre == ns.deep_view(),
            forall|k: int| 0 <= k < p ==> lex_lt(#[trigger] pre[k], n@),
            p < ns@.len() ==> !lex_lt(pre[p as int], n@),
        decreases ns@.len() - p,
    {
        if !str_lt(ns[p].as_str(), n) {
            break ;
        }
        p = p + 1;
    }
    if p < ns.len() {
        if str_eq(ns[p].as_str(), n) {
            proof {
                assert(names_contain(pre, n@));
                assert(forall|x: Seq<char>|
                    #[trigger] names_contain(ns.deep_view(), x) <==> (names_contain(pre, x) || x
                        == n@));
            }
            return ;
        }
    }
    proof {
        if p < pre.len() {
            lemma_lex_lt_trichotomy(pre[p as int], n@);
            assert(lex_lt(n@, pre[p as int]));
        }
    }
    let ghost gp = p as int;
    ns.insert(p, n.to_owned());
    proof {
        let post = ns.deep_view();
        assert(post =~= pre.take(gp) + seq![n@] + pre.skip(gp));
        assert(post.len() == pre.len() + 1);
        assert(forall|k: int| 0 <= k < gp ==> post[k] == pre[k]);
        assert(post[gp] == n@);
        assert(forall|k: int| gp < k < post.len() ==> post[k] == pre[k - 1]);
        assert(names_sorted(post)) by {
            assert forall|i: int, j: int| 0 <= i < j < post.len() implies lex_lt(
                post[i],
                post[j],
            ) by {
                if j > gp && i == gp {
                    if j - 1 > gp {
                        lemma_lex_lt_transitive(n@, pre[gp], pre[j - 1]);
                    }
                }
            }
        }
        assert(forall|x: Seq<char>|
            #[trigger] names_contain(post, x) <==> (names_contain(pre, x) || x == n@)) by {
            assert forall|x: Seq<char>| #[trigger] names_contain(post, x) implies (names_contain(
                pre,
                x,
            ) || x == n@) by {
                let i = choose|i: int| 0 <= i < post.len() && post[i] == x;
                if i < gp {
                    assert(pre[i] == x);
                } else if i > gp {
                    assert(pre[i - 1] == x);
                }
            }
            assert forall|x: Seq<char>| (names_contain(pre, x) || x == n@) implies names_contain(
                post,
                x,
            ) by {
                if x == n@ {
                    assert(post[gp] == x);
                } else {
                    let i = choose|i: int| 0 <= i < pre.len() && pre[i] == x;
                    if i < gp {
                        assert(post[i] == x);
                    } else {
                        assert(post[i + 1] == x);
                    }
                }
            }
        }
    }
}

/// The grouping index: columns in ascending name order.
pub struct Groups {
    pub groups: Vec<Group>,
}

impl View for Groups {
    type V = Seq<GroupView>;

    open spec fn view(&self) -> Seq<GroupView> {
        self.groups.deep_view()
    }
}

/// Whether the index has a column of the given name.
pub open spec fn has_group(gs: Seq<GroupView>, name: Seq<char>) -> bool {
    exists|i: int| 0 <= i < gs.len() && gs[i].name == name
}

impl Groups {
    /// The index is sorted strictly by name, so each name appears once.
    pub open spec fn wf(&self) -> bool {
        forall|i: int, j: int| 0 <= i < j < self@.len() ==> lex_lt(self@[i].name, self@[j].name)
    }

    /// The index is exactly the grouping of the given record run.
    pub open spec fn groups_of(&self, todos: Seq<ItemView>) -> bool {
        &&& forall|i: int|
            0 <= i < self@.len() ==> #[trigger] self@[i].todos == items_for(self@[i].name, todos)
        &&& forall|i: int| 0 <= i < self@.len() ==> name_occurs(todos, #[trigger] self@[i].name)
        &&& forall|n: Seq<char>| #[trigger] name_occurs(todos, n) ==> has_group(self@, n)
    }

    pub fn len(&self) -> (r: usize)
        ensures
            r == self@.len(),
    {
        self.groups.len()
    }

    /// The column names, in order.
    pub fn names(&self) -> (r: Vec<String>)
        ensures
            r.deep_view().len() == self@.len(),
            forall|i: int| 0 <= i < self@.len() ==> r.deep_view()[i] == self@[i].name,
    {
        let mut r: Vec<String> = Vec::new();
        let mut i: usize = 0;
        while i < self.groups.len()
            invariant
                i <= self.groups@.len(),
                r.deep_view().len() == i,
                forall|k: int| 0 <= k < i ==> r.deep_view()[k] == self@[k].name,
            decreases self.groups@.len() - i,
        {
            let ghost prev = r.deep_view();
            r.push(self.groups[i].name.clone());
            proof {
                assert(r.deep_view() =~= prev.push(self@[i as int].name));
            }
            i = i + 1;
        }
        r
    }

    /// The records of the column with the given name, if that column exists.
    pub fn get(&self, name: &str) -> (r: Option<&Vec<Item>>)
        ensures
            r is Some <==> has_group(self@, name@),
            match r {
                Some(ts) => exists|i: int|
                    0 <= i < self@.len() && self@[i].name == name@ && ts.deep_view()
                        == #[trigger] self@[i].todos,
                None => true,
            },
    {
        let mut i: usize = 0;
        while i < self.groups.len()
            invariant
                i <= self.groups@.len(),
                forall|k: int| 0 <= k < i ==> self@[k].name != name@,
            decreases self.groups@.len() - i,
        {
            if str_eq(self.groups[i].name.as_str(), name) {
                proof {
                    assert(self@[i as int].name == name@);
                    assert(self@[i as int].todos == self.groups@[i as int].todos.deep_view());
                }
                return Some(&self.groups[i].todos);
            }
            i = i + 1;
        }
        proof {
            if has_group(self@, name@) {
                let k = choose|k: int| 0 <= k < self@.len() && self@[k].name == name@;
                assert(false);
            }
        }
        None
    }
}

/// Builds the name list of one record: its group tags without duplicates,
/// or the synthetic name when it has none.
fn names_of_item(t: &Item) -> (r: Vec<String>)
    ensures
        forall|n: Seq<char>| #[trigger] names_contain(r.deep_view(), n) <==> belongs(t@, n),
{
    let mut r: Vec<String> = Vec::new();
    if t.projects.len() == 0 {
        r.push(no_project_string());
        proof {
            assert(r.deep_view() =~= seq![no_project_name()]);
            assert forall|n: Seq<char>| #[trigger] names_contain(r.deep_view(), n) implies belongs(
                t@,
                n,
            ) by {
                let i = choose|i: int| 0 <= i < r.deep_view().len() && r.deep_view()[i] == n;
            }
            assert forall|n: Seq<char>| belongs(t@, n) implies names_contain(
                r.deep_view(),
                n,
            ) by {
                assert(r.deep_view()[0] == n);
            }
        }
        return r;
    }
    let mut i: usize = 0;
    while i < t.projects.len()
        invariant
            i <= t.projects@.len(),
            t.projects@.len() > 0,
            forall|n: Seq<char>|
                #[trigger] names_contain(r.deep_view(), n) <==> t@.projects.take(
                    i as int,
                ).contains(n),
        decreases t.projects@.len() - i,
    {
        let present = names_contain_exec(&r, t.projects[i].as_str());
        let ghost prev = r.deep_view();
        if !present {
            r.push(t.projects[i].clone());
            proof {
                assert(r.deep_view() =~= prev.push(t@.projects[i as int]));
            }
        }
        proof {
            assert forall|n: Seq<char>| #[trigger] names_contain(r.deep_view(), n) implies t@
                .projects.take(i + 1).contains(n) by {
                if names_contain(prev, n) {
                    let k = choose|k: int|
                        0 <= k < t@.projects.take(i as int).len() && t@.projects.take(i as int)[k]
                            == n;
                    assert(t@.projects.take(i + 1)[k] == n);
                } else {
                    assert(t@.projects.take(i + 1)[i as int] == n);
                }
            }
            assert forall|n: Seq<char>| t@.projects.take(i + 1).contains(n) implies names_contain(
                r.deep_view(),
                n,
            ) by {
                let k = choose|k: int|
                    0 <= k < t@.projects.take(i + 1).len() && #[trigger] t@.projects.take(i + 1)[k]
                        == n;
                if k < i as int {
                    assert(t@.projects.take(i as int)[k] == n);
                    assert(names_contain(prev, n));
                    let m = choose|m: int| 0 <= m < prev.len() && prev[m] == n;
                    assert(r.deep_view()[m] == n);
                } else {
                    if present {
                        assert(names_contain(prev, n));
                        let m = choose|m: int| 0 <= m < prev.len() && prev[m] == n;
                        assert(r.deep_view()[m] == n);
                    } else {
                        assert(r.deep_view().last() == n);
                    }
                }
            }
        }
        i = i + 1;
    }
    proof {
        assert(t@.projects.take(t.projects@.len() as int) =~= t@.projects);
    }
    r
}

/// Partitions records into columns: one column per group tag, records
/// without tags under the synthetic name, each column in record order, and
/// columns in ascending name order.
pub fn group_todos_by_project_owned(todos: &Vec<Item>) -> (r: Groups)
    ensures
        r.wf(),
        r.groups_of(todos.deep_view()),
{
    let tv_len = todos.len();
    let ghost tv = todos.deep_view();
    let mut names: Vec<String> = Vec::new();
    let mut k: usize = 0;
    while k < tv_len
        invariant
            k <= tv.len(),
            tv_len == tv.len(),
            tv == todos.deep_view(),
            names_sorted(names.deep_view()),
            forall|n: Seq<char>|
                #[trigger] names_contain(names.deep_view(), n) <==> name_occurs(
                    tv.take(k as int),
                    n,
                ),
        decreases tv_len - k,
    {
        let item_names = names_of_item(&todos[k]);
        let mut m: usize = 0;
        while m < item_names.len()
            invariant
                m <= item_names@.len(),
                tv == todos.deep_view(),
                k < tv.len(),
                forall|n: Seq<char>|
                    #[trigger] names_contain(item_names.deep_view(), n) <==> belongs(
                        tv[k as int],
                        n,
                    ),
                names_sorted(names.deep_view()),
                forall|n: Seq<char>|
                    #[trigger] names_contain(names.deep_view(), n) <==> (name_occurs(
                        tv.take(k as int),
                        n,
                    ) || (exists|q: int|
                        0 <= q < m && item_names.deep_view()[q] == n)),
            decreases item_names@.len() - m,
        {
            insert_name(&mut names, item_names[m].as_str());
            proof {
                assert(names_contain(item_names.deep_view(), item_names.deep_view()[m as int]));
            }
            m = m + 1;
        }
        proof {
            assert forall|n: Seq<char>| #[trigger] names_contain(names.deep_view(), n) implies
                name_occurs(tv.take(k + 1), n) by {
                if name_occurs(tv.take(k as int), n) {
                    let j = choose|j: int|
                        0 <= j < tv.take(k as int).len() && belongs(tv.take(k as int)[j], n);
                    assert(belongs(tv.take(k + 1)[j], n));
                } else {
                    assert(names_contain(item_names.deep_view(), n));
                    assert(belongs(tv[k as int], n));
                    assert(belongs(tv.take(k + 1)[k as int], n));
                }
            }
            assert forall|n: Seq<char>| name_occurs(tv.take(k + 1), n) implies names_contain(
                names.deep_view(),
                n,
            ) by {
                let j = choose|j: int|
                    0 <= j < tv.take(k + 1).len() && #[trigger] belongs(tv.take(k + 1)[j], n);
                if j < k as int {
                    assert(belongs(tv.take(k as int)[j], n));
                } else {
                    assert(belongs(tv[k as int], n));
                    assert(names_contain(item_names.deep_view(), n));
                    let q = choose|q: int|
                        0 <= q < item_names.deep_view().len() && item_names.deep_view()[q] == n;
                    assert(exists|q2: int|
                        0 <= q2 < item_names@.len() && item_names.deep_view()[q2] == n);
                }
            }
        }
        k = k + 1;
    }
    proof {
        assert(tv.take(tv.len() as int) =~= tv);
    }
    // second stage: one column per name, filtering the records in order
    let mut groups: Vec<Group> = Vec::new();
    let mut g: usize = 0;
    while g < names.len()
        invariant
            g <= names@.len(),
            tv == todos.deep_view(),
            tv_len == tv.len(),
            names_sorted(names.deep_view()),
            forall|n: Seq<char>|
                #[trigger] names_contain(names.deep_view(), n) <==> name_occurs(tv, n),
            groups.deep_view().len() == g,
            forall|i: int|
                0 <= i < g ==> #[trigger] groups.deep_view()[i].name == names.deep_view()[i],
            forall|i: int|
                0 <= i < g ==> #[trigger] groups.deep_view()[i].todos == items_for(
                    names.deep_view()[i],
                    tv,
                ),
        decreases names@.len() - g,
    {
        let name = names[g].clone();
        let mut col: Vec<Item> = Vec::new();
        let mut j: usize = 0;
        proof {
            assert(tv.take(0) =~= Seq::<ItemView>::empty());
        }
        while j < tv_len
            invariant
                j <= tv.len(),
                tv_len == tv.len(),
                tv == todos.deep_view(),
                name@ == names.deep_view()[g as int],
                g < names@.len(),
                col.deep_view() == items_for(name@, tv.take(j as int)),
            decreases tv.len() - j,
        {
            let t = &todos[j];
            let in_col = if t.projects.len() == 0 {
                str_eq(name.as_str(), "No Project")
            } else {
                names_contain_exec(&t.projects, name.as_str())
            };
            let ghost prev = col.deep_view();
            proof {
                assert(tv.take(j + 1).drop_last() =~= tv.take(j as int));
                assert(tv.take(j + 1).last() == tv[j as int]);
                if t.projects@.len() > 0 {
                    if names_contain(t.projects.deep_view(), name@) {
                        let q = choose|q: int|
                            0 <= q < t.projects.deep_view().len() && t.projects.deep_view()[q]
                                == name@;
                        assert(tv[j as int].projects[q] == name@);
                        assert(tv[j as int].projects.contains(name@));
                    } else {
                        if tv[j as int].projects.contains(name@) {
                            let q = choose|q: int|
                                0 <= q < tv[j as int].projects.len() && tv[j as int].projects[q]
                                    == name@;
                            assert(names_contain(t.projects.deep_view(), name@));
                        }
                    }
                }
                assert(in_col == belongs(tv[j as int], name@));
            }
            if in_col {
                col.push(t.clone());
                proof {
                    assert(col.deep_view() =~= prev.push(tv[j as int]));
                    assert(col.deep_view() =~= items_for(name@, tv.take(j + 1)));
                }
            } else {
                proof {
                    assert(col.deep_view() =~= items_for(name@, tv.take(j + 1)));
                }
            }
            j = j + 1;
        }
        proof {
            assert(tv.take(tv.len() as int) =~= tv);
        }
        let ghost gprev = groups.deep_view();
        groups.push(Group { name, todos: col });
        proof {
            assert(groups.deep_view() =~= gprev.push(
                GroupView {
                    name: names.deep_view()[g as int],
                    todos: items_for(names.deep_view()[g as int], tv),
                },
            ));
        }
        g = g + 1;
    }
    let r = Groups { groups };
    proof {
        assert(r.wf());
        assert forall|n: Seq<char>| #[trigger] name_occurs(tv, n) implies has_group(r@, n) by {
            assert(names_contain(names.deep_view(), n));
            let i = choose|i: int| 0 <= i < names.deep_view().len() && names.deep_view()[i] == n;
            assert(r@[i].name == n);
        }
        assert forall|i: int| 0 <= i < r@.len() implies name_occurs(tv, #[trigger] r@[i].name) by {
            assert(names_contain(names.deep_view(), names.deep_view()[i]));
        }
    }
    r
}

} // verus!
