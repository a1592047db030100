//! The decisions of the record-store tool server: listing records filtered
//! by group tag, registering a new plan as a record, and resolving a
//! record's detail file. The transport around them is not part of the
//! library.
use vstd::prelude::*;
use vstd::string::*;
use crate::record::Item;
use crate::record::ItemView;
use crate::record::is_upper_char;
use crate::mutate::append_todo;
use crate::mutate::append_content;
use crate::mutate::build_line;
use crate::mutate::next_line_number;
use crate::mutate::uuid_wf;
use crate::record::parse_line;
use crate::toks::lines_of;

verus! {

/// Parameters of the list-records tool.
pub struct ListTodosParams {
    pub project: Option<String>,
}

/// Parameters of the register-plan tool.
pub struct RegisterPlanParams {
    pub description: String,
    pub plan: String,
    pub project: String,
    pub priority: Option<String>,
}

/// Parameters of the update-plan tool.
pub struct UpdatePlanParams {
    pub id: String,
    pub plan: String,
}

/// The records kept by a project filter: all of them without a filter,
/// else those carrying the group tag.
pub open spec fn filtered_by_project(todos: Seq<ItemView>, p: Option<Seq<char>>) -> Seq<ItemView>
    decreases todos.len(),
{
    if todos.len() == 0 {
        Seq::empty()
    } else {
        filtered_by_project(todos.drop_last(), p) + (match p {
            Some(name) => if todos.last().projects.contains(name) {
                seq![todos.last()]
            } else {
                Seq::<ItemView>::empty()
            },
            None => seq![todos.last()],
        })
    }
}

/// Lists records, optionally keeping only those under one group tag.
pub fn list_todos(todos: &Vec<Item>, params: &ListTodosParams) -> (r: Vec<Item>)
    ensures
        r.deep_view() == filtered_by_project(
            todos.deep_view(),
            match params.project {
                Some(ref p) => Some(p@),
                None => None,
            },
        ),
{
    let ghost tv = todos.deep_view();
    let ghost gp: Option<Seq<char>> = match params.project {
        Some(ref p) => Some(p@),
        None => None,
    };
    let mut r: Vec<Item> = Vec::new();
    let mut i: usize = 0;
    proof {
        assert(tv.take(0) =~= Seq::<ItemView>::empty());
        assert(r.deep_view() =~= filtered_by_project(tv.take(0), gp));
    }
    while i < todos.len()
        invariant
            i <= todos@.len(),
            tv == todos.deep_view(),
            gp == (match params.project {
                Some(ref p) => Some(p@),
                None => None,
            }),
            r.deep_view() == filtered_by_project(tv.take(i as int), gp),
        decreases todos@.len() - i,
    {
        let keep = match &params.project {
            Some(p) => crate::grouping::names_contain_exec(&todos[i].projects, p.as_str()),
            None => true,
        };
        let ghost prev = r.deep_view();
        proof {
            assert(tv.take(i + 1).drop_last() =~= tv.take(i as int));
            assert(tv.take(i + 1).last() == tv[i as int]);
            match gp {
                Some(name) => {
                    if crate::grouping::names_contain(todos@[i as int].projects.deep_view(), name) {
                        let q = choose|q: int|
                            0 <= q < todos@[i as int].projects.deep_view().len() && todos@[
                            i as int].projects.deep_view()[q] == name;
                        assert(tv[i as int].projects[q] == name);
                    } else {
                        if tv[i as int].projects.contains(name) {
                            let q = choose|q: int|
                                0 <= q < tv[i as int].projects.len() && tv[i as int].projects[q]
                                    == name;
                            assert(crate::grouping::names_contain(
                                todos@[i as int].projects.deep_view(),
                                name,
                            ));
                        }
                    }
                    assert(keep == tv[i as int].projects.contains(name));
                },
                None => {},
            }
        }
        if keep {
            r.push(todos[i].clone());
            proof {
                assert(r.deep_view() =~= prev.push(tv[i as int]));
                assert(r.deep_view() =~= filtered_by_project(tv.take(i + 1), gp));
            }
        } else {
            proof {
                assert(r.deep_view() =~= filtered_by_project(tv.take(i + 1), gp));
            }
        }
        i = i + 1;
    }
    proof {
        assert(tv.take(todos@.len() as int) =~= tv);
    }
    r
}

/// The priority a register-plan request carries: the first character of the
/// parameter, accepted only as an upper-case letter.
pub open spec fn priority_of_param(p: Option<Seq<char>>) -> Option<char> {
    match p {
        Some(s) => if s.len() > 0 && is_upper_char(s[0]) {
            Some(s[0])
        } else {
            None
        },
        None => None,
    }
}

fn priority_param(p: &Option<String>) -> (r: Option<char>)
    ensures
        r == priority_of_param(
            match p {
                Some(s) => Some(s@),
                None => None,
            },
        ),
{
    match p {
        Some(s) => {
            if s.as_str().unicode_len() > 0 {
                let c = s.as_str().get_char(0);
                let u = c as u32;
                proof {
                    assert(('A' as int) == 65 && ('Z' as int) == 90);
                }
                if u >= 65 && u <= 90 {
                    Some(c)
                } else {
                    None
                }
            } else {
                None
            }
        },
        None => None,
    }
}

/// Registers a new plan: appends a record line built from the request to
/// the primary content and returns the new content with the new record.
/// The plan text itself goes to the record's detail file, at the path
/// `plan_path` gives.
pub fn register_plan(content: &str, params: &RegisterPlanParams) -> (r: (String, Item))
    ensures
        exists|idv: Seq<char>|
            {
                let prio = priority_of_param(
                    match params.priority {
                        Some(ref s) => Some(s@),
                        None => None,
                    },
                );
                &&& #[trigger] uuid_wf(idv)
                &&& r.0@ == append_content(
                    content@,
                    build_line(params.description@, params.project@, prio, idv),
                )
                &&& r.1@ == parse_line(
                    build_line(params.description@, params.project@, prio, idv),
                    next_line_number(lines_of(content@).len()),
                )
            },
{
    let prio = priority_param(&params.priority);
    append_todo(content, params.description.as_str(), params.project.as_str(), prio)
}

/// The detail-file path of a record: `{base}/todos/{identifier}.md`.
pub open spec fn plan_path_text(base: Seq<char>, id: Seq<char>) -> Seq<char> {
    base + "/todos/"@ + id + ".md"@
}

/// Builds the detail-file path of a record.
pub fn plan_path(base: &str, id: &str) -> (r: String)
    ensures
        r@ == plan_path_text(base@, id@),
{
    let mut r = base.to_owned();
    r.append("/todos/");
    r.append(id);
    r.append(".md");
    r
}

} // verus!
