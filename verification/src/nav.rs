//! The navigation state machine: the two-axis selection over the grouped
//! columns (plus the optional monitor column), and what each move asks the
//! surrounding loop to do. The machine itself never touches a file, a
//! socket or a terminal: it returns the action to perform.
use vstd::prelude::*;
use crate::record::Item;
use crate::grouping::Groups;
use crate::grouping::group_todos_by_project_owned;
use crate::grouping::lemma_items_for_nonempty;
use crate::preview::Preview;
use crate::load::load_todos;
use crate::load::load_view;

verus! {

/// What the caller is asked to do after a state transition.
pub enum UiAction {
    /// Nothing to do.
    Nothing,
    /// Point the external editor at the record with this identifier.
    Focus(String),
    /// Open a preview session for the monitor column, then activate the
    /// preview with the channel that came back.
    EnterMonitor,
    /// Push the selected session's terminal content over the active preview
    /// channel now, bypassing the throttle.
    PushPreview,
    /// Mark the selected record complete.
    Complete,
    /// Re-run the identifier pass and reload the record file.
    Reload,
    /// Switch the terminal multiplexer to the selected session's pane.
    SwitchPane,
}

/// The selection grid over grouped records, with the optional monitor
/// column after the last project column.
pub struct AppState {
    pub todos: Vec<Item>,
    pub grouped_todos: Groups,
    pub project_names: Vec<String>,
    pub current_column: usize,
    pub selected_in_column: usize,
    pub claude_sessions_enabled: bool,
    pub claude_selected_index: usize,
    pub preview: Preview,
}

impl AppState {
    /// The number of project columns.
    pub open spec fn cols(self) -> int {
        self.grouped_todos@.len() as int
    }

    /// Whether the selection is on the monitor column.
    pub open spec fn on_monitor(self) -> bool {
        self.claude_sessions_enabled && self.current_column as int == self.cols()
    }

    /// Whether the selection is on a project column.
    pub open spec fn on_project(self) -> bool {
        (self.current_column as int) < self.cols()
    }

    /// The records of the active project column.
    pub open spec fn current_items(self) -> Seq<crate::record::ItemView>
        recommends
            self.on_project(),
    {
        self.grouped_todos@[self.current_column as int].todos
    }

    /// The identifier under the selection, if any.
    pub open spec fn current_id_s(self) -> Option<Seq<char>> {
        if self.on_project() && (self.selected_in_column as int) < self.current_items().len() {
            self.current_items()[self.selected_in_column as int].id
        } else {
            None
        }
    }

    /// Well-formedness of the grid: the index is the grouping of the
    /// records, the name list mirrors it, and both selection axes are in
    /// range whenever a column is active.
    pub open spec fn wf(self) -> bool {
        &&& self.grouped_todos.wf()
        &&& self.grouped_todos.groups_of(self.todos.deep_view())
        &&& self.project_names.deep_view().len() == self.cols()
        &&& forall|i: int|
            0 <= i < self.cols() ==> self.project_names.deep_view()[i]
                == #[trigger] self.grouped_todos@[i].name
        &&& if self.claude_sessions_enabled {
            self.current_column as int <= self.cols()
        } else {
            (self.current_column as int) < self.cols() || (self.cols() == 0
                && self.current_column == 0)
        }
        &&& self.on_project() ==> (self.selected_in_column as int) < self.current_items().len()
    }
}

/// The action that keeps the editor focused on the record under the
/// selection: its identifier when it has one, nothing otherwise.
pub open spec fn focus_action(s: AppState, r: UiAction) -> bool {
    match s.current_id_s() {
        Some(id) => match r {
            UiAction::Focus(f) => f@ == id,
            _ => false,
        },
        None => r is Nothing,
    }
}

/// What never changes under a navigation key.
pub open spec fn nav_frame(o: AppState, f: AppState) -> bool {
    &&& f.todos.deep_view() == o.todos.deep_view()
    &&& f.grouped_todos@ == o.grouped_todos@
    &&& f.project_names.deep_view() == o.project_names.deep_view()
    &&& f.claude_sessions_enabled == o.claude_sessions_enabled
}

/// The prev-row transition.
pub open spec fn nav_post_k(o: AppState, f: AppState, n: usize, r: UiAction) -> bool {
    &&& f.current_column == o.current_column
    &&& if o.on_monitor() {
        &&& f.selected_in_column == o.selected_in_column
        &&& f.preview == o.preview
        &&& if o.claude_selected_index > 0 {
            &&& f.claude_selected_index == o.claude_selected_index - 1
            &&& if o.preview is Active {
                r is PushPreview
            } else {
                r is Nothing
            }
        } else {
            f.claude_selected_index == o.claude_selected_index && r is Nothing
        }
    } else {
        &&& f.claude_selected_index == o.claude_selected_index
        &&& f.preview == o.preview
        &&& if o.on_project() && o.selected_in_column > 0 {
            f.selected_in_column == o.selected_in_column - 1 && focus_action(f, r)
        } else {
            f.selected_in_column == o.selected_in_column && r is Nothing
        }
    }
}

/// The next-row transition.
pub open spec fn nav_post_j(o: AppState, f: AppState, n: usize, r: UiAction) -> bool {
    &&& f.current_column == o.current_column
    &&& if o.on_monitor() {
        &&& f.selected_in_column == o.selected_in_column
        &&& f.preview == o.preview
        &&& if o.claude_selected_index + 1 < n {
            &&& f.claude_selected_index == o.claude_selected_index + 1
            &&& if o.preview is Active {
                r is PushPreview
            } else {
                r is Nothing
            }
        } else {
            f.claude_selected_index == o.claude_selected_index && r is Nothing
        }
    } else {
        &&& f.claude_selected_index == o.claude_selected_index
        &&& f.preview == o.preview
        &&& if o.on_project() && o.selected_in_column + 1 < o.current_items().len() {
            f.selected_in_column == o.selected_in_column + 1 && focus_action(f, r)
        } else {
            f.selected_in_column == o.selected_in_column && r is Nothing
        }
    }
}

/// The prev-column transition: leaving the monitor column tears the preview
/// down; landing on a project column resets the row and focuses the record.
pub open spec fn nav_post_h(o: AppState, f: AppState, r: UiAction) -> bool {
    &&& f.claude_selected_index == o.claude_selected_index
    &&& if o.current_column > 0 {
        &&& f.current_column == o.current_column - 1
        &&& f.selected_in_column == 0
        &&& f.preview == if o.on_monitor() {
            Preview::Inactive
        } else {
            o.preview
        }
        &&& focus_action(f, r)
    } else {
        &&& f.current_column == o.current_column
        &&& f.selected_in_column == o.selected_in_column
        &&& f.preview == o.preview
        &&& r is Nothing
    }
}

/// The next-column transition: landing on the monitor column resets its
/// selection and opens a preview session; landing on a project column
/// resets the row and focuses the record.
pub open spec fn nav_post_l(o: AppState, f: AppState, r: UiAction) -> bool {
    let can_move = if o.claude_sessions_enabled {
        (o.current_column as int) < o.cols()
    } else {
        o.current_column as int + 1 < o.cols()
    };
    if can_move {
        &&& f.current_column == o.current_column + 1
        &&& f.preview == o.preview
        &&& if f.current_column as int == o.cols() && o.claude_sessions_enabled {
            &&& f.claude_selected_index == 0
            &&& f.selected_in_column == o.selected_in_column
            &&& r is EnterMonitor
        } else {
            &&& f.claude_selected_index == o.claude_selected_index
            &&& f.selected_in_column == 0
            &&& focus_action(f, r)
        }
    } else {
        &&& f.current_column == o.current_column
        &&& f.selected_in_column == o.selected_in_column
        &&& f.claude_selected_index == o.claude_selected_index
        &&& f.preview == o.preview
        &&& r is Nothing
    }
}

/// The full navigation contract, by key.
pub open spec fn nav_post(o: AppState, f: AppState, key: char, n: usize, r: UiAction) -> bool {
    &&& nav_frame(o, f)
    &&& if key == 'k' {
        nav_post_k(o, f, n, r)
    } else if key == 'j' {
        nav_post_j(o, f, n, r)
    } else if key == 'h' {
        nav_post_h(o, f, r)
    } else if key == 'l' {
        nav_post_l(o, f, r)
    } else {
        f == o && r is Nothing
    }
}

/// After reconciliation: the index is rebuilt from the records, both axes
/// are clamped into range, and the record under the (possibly moved)
/// selection is focused.
pub open spec fn reconciled(
    o: AppState,
    f: AppState,
    r: UiAction,
    todos: Seq<crate::record::ItemView>,
) -> bool {
    &&& f.wf()
    &&& f.todos.deep_view() == todos
    &&& f.grouped_todos.groups_of(todos)
    &&& f.claude_sessions_enabled == o.claude_sessions_enabled
    &&& f.claude_selected_index == o.claude_selected_index
    &&& f.preview == o.preview
    &&& f.current_column as int == if o.claude_sessions_enabled {
        if o.current_column as int <= f.cols() {
            o.current_column as int
        } else {
            f.cols()
        }
    } else {
        if (o.current_column as int) < f.cols() {
            o.current_column as int
        } else if f.cols() > 0 {
            f.cols() - 1
        } else {
            0
        }
    }
    &&& f.selected_in_column as int == if f.on_project() {
        if (o.selected_in_column as int) < f.current_items().len() {
            o.selected_in_column as int
        } else {
            f.current_items().len() - 1
        }
    } else {
        o.selected_in_column as int
    }
    &&& if f.on_project() {
        focus_action(f, r)
    } else {
        r is Nothing
    }
}

impl AppState {
    /// A fresh grid over the given records: first column, first row, no
    /// monitor column, no preview.
    pub fn new(todos: Vec<Item>) -> (r: Self)
        ensures
            r.wf(),
            r.todos.deep_view() == todos.deep_view(),
            r.grouped_todos.groups_of(todos.deep_view()),
            r.current_column == 0,
            r.selected_in_column == 0,
            !r.claude_sessions_enabled,
            r.claude_selected_index == 0,
            r.preview is Inactive,
    {
        let grouped_todos = group_todos_by_project_owned(&todos);
        let project_names = grouped_todos.names();
        let r = AppState {
            todos,
            grouped_todos,
            project_names,
            current_column: 0,
            selected_in_column: 0,
            claude_sessions_enabled: false,
            claude_selected_index: 0,
            preview: Preview::Inactive,
        };
        proof {
            if r.on_project() {
                lemma_items_for_nonempty(r.grouped_todos@[0].name, r.todos.deep_view());
            }
        }
        r
    }

    /// The identifier of the record under the selection.
    pub fn get_current_todo_id(&self) -> (r: Option<String>)
        ensures
            match r {
                Some(s) => self.current_id_s() == Some(s@),
                None => self.current_id_s() is None,
            },
    {
        if self.current_column < self.grouped_todos.groups.len() {
            let g = &self.grouped_todos.groups[self.current_column];
            if self.selected_in_column < g.todos.len() {
                proof {
                    assert(self.current_items()[self.selected_in_column as int] == g.todos@[
                        self.selected_in_column as int]@);
                }
                match &g.todos[self.selected_in_column].id {
                    Some(s) => Some(s.clone()),
                    None => None,
                }
            } else {
                None
            }
        } else {
            None
        }
    }

    /// The focus action for the record under the selection.
    pub fn send_initial_vim_command(&self) -> (r: UiAction)
        ensures
            focus_action(*self, r),
    {
        match self.get_current_todo_id() {
            Some(id) => UiAction::Focus(id),
            None => UiAction::Nothing,
        }
    }

    /// Whether the selection is on the monitor column.
    pub fn is_on_claude_column(&self) -> (r: bool)
        ensures
            r == self.on_monitor(),
    {
        self.claude_sessions_enabled && self.current_column == self.grouped_todos.groups.len()
    }

    /// The number of columns, the monitor column included.
    pub fn total_columns(&self) -> (r: usize)
        requires
            self.grouped_todos@.len() < usize::MAX,
        ensures
            r as int == self.cols() + if self.claude_sessions_enabled {
                1int
            } else {
                0int
            },
    {
        if self.claude_sessions_enabled {
            self.grouped_todos.groups.len() + 1
        } else {
            self.grouped_todos.groups.len()
        }
    }

    /// Rebuilds the index from the records and clamps both selection axes;
    /// never out of range, even when every record is gone.
    pub fn update_derived_state(&mut self) -> (r: UiAction)
        ensures
            reconciled(*old(self), *final(self), r, old(self).todos.deep_view()),
    {
        self.grouped_todos = group_todos_by_project_owned(&self.todos);
        self.project_names = self.grouped_todos.names();
        let cols = self.grouped_todos.groups.len();
        if self.claude_sessions_enabled {
            if self.current_column > cols {
                self.current_column = cols;
            }
        } else {
            if self.current_column >= cols {
                self.current_column = if cols > 0 {
                    cols - 1
                } else {
                    0
                };
            }
        }
        if self.current_column < cols {
            proof {
                let cc = self.current_column as int;
                lemma_items_for_nonempty(self.grouped_todos@[cc].name, self.todos.deep_view());
                assert(self.grouped_todos@[cc].todos == crate::grouping::items_for(
                    self.grouped_todos@[cc].name,
                    self.todos.deep_view(),
                ));
            }
            let len = self.grouped_todos.groups[self.current_column].todos.len();
            if self.selected_in_column >= len {
                self.selected_in_column = len - 1;
            }
            self.send_initial_vim_command()
        } else {
            UiAction::Nothing
        }
    }

    /// Replaces the records with those loaded from the given file content
    /// and reconciles the selection.
    pub fn reload_todos(&mut self, content: &str) -> (r: UiAction)
        ensures
            reconciled(*old(self), *final(self), r, load_view(content@)),
    {
        self.todos = load_todos(content);
        self.update_derived_state()
    }

    /// Switches the monitor column on or off and reconciles the selection.
    pub fn set_claude_sessions_enabled(&mut self, enabled: bool) -> (r: UiAction)
        ensures
            final(self).claude_sessions_enabled == enabled,
            reconciled(
                AppState { claude_sessions_enabled: enabled, ..*old(self) },
                *final(self),
                r,
                old(self).todos.deep_view(),
            ),
    {
        self.claude_sessions_enabled = enabled;
        self.update_derived_state()
    }

    /// One directional key: `k`/`j` move the row (or the monitor selection),
    /// `h`/`l` move the column; every move is clamped at the edges.
    pub fn handle_navigation_key(&mut self, key_char: char, sessions_len: usize) -> (r: UiAction)
        requires
            old(self).wf(),
        ensures
            final(self).wf(),
            nav_post(*old(self), *final(self), key_char, sessions_len, r),
    {
        if key_char == 'k' {
            if self.is_on_claude_column() {
                if self.claude_selected_index > 0 {
                    self.claude_selected_index = self.claude_selected_index - 1;
                    match self.preview {
                        Preview::Active { .. } => UiAction::PushPreview,
                        Preview::Inactive => UiAction::Nothing,
                    }
                } else {
                    UiAction::Nothing
                }
            } else {
                if self.current_column < self.grouped_todos.groups.len()
                    && self.selected_in_column > 0 {
                    self.selected_in_column = self.selected_in_column - 1;
                    self.send_initial_vim_command()
                } else {
                    UiAction::Nothing
                }
            }
        } else if key_char == 'j' {
            if self.is_on_claude_column() {
                if sessions_len > 0 && self.claude_selected_index < sessions_len - 1 {
                    self.claude_selected_index = self.claude_selected_index + 1;
                    match self.preview {
                        Preview::Active { .. } => UiAction::PushPreview,
                        Preview::Inactive => UiAction::Nothing,
                    }
                } else {
                    UiAction::Nothing
                }
            } else {
                if self.current_column < self.grouped_todos.groups.len() {
                    let len = self.grouped_todos.groups[self.current_column].todos.len();
                    if self.selected_in_column + 1 < len {
                        self.selected_in_column = self.selected_in_column + 1;
                        self.send_initial_vim_command()
                    } else {
                        UiAction::Nothing
                    }
                } else {
                    UiAction::Nothing
                }
            }
        } else if key_char == 'h' {
            if self.current_column > 0 {
                let was_monitor = self.is_on_claude_column();
                self.current_column = self.current_column - 1;
                self.selected_in_column = 0;
                if was_monitor {
                    self.preview.deactivate();
                }
                proof {
                    assert(self.on_project());
                    lemma_items_for_nonempty(
                        self.grouped_todos@[self.current_column as int].name,
                        self.todos.deep_view(),
                    );
                }
                self.send_initial_vim_command()
            } else {
                UiAction::Nothing
            }
        } else if key_char == 'l' {
            let cols = self.grouped_todos.groups.len();
            if self.claude_sessions_enabled {
                if self.current_column < cols {
                    self.current_column = self.current_column + 1;
                    if self.current_column == cols {
                        self.claude_selected_index = 0;
                        UiAction::EnterMonitor
                    } else {
                        self.selected_in_column = 0;
                        proof {
                            lemma_items_for_nonempty(
                                self.grouped_todos@[self.current_column as int].name,
                                self.todos.deep_view(),
                            );
                        }
                        self.send_initial_vim_command()
                    }
                } else {
                    UiAction::Nothing
                }
            } else {
                if cols > 0 && self.current_column < cols - 1 {
                    self.current_column = self.current_column + 1;
                    self.selected_in_column = 0;
                    proof {
                        lemma_items_for_nonempty(
                            self.grouped_todos@[self.current_column as int].name,
                            self.todos.deep_view(),
                        );
                    }
                    self.send_initial_vim_command()
                } else {
                    UiAction::Nothing
                }
            }
        } else {
            UiAction::Nothing
        }
    }

    /// Marks the record under the selection complete: returns the rewritten
    /// primary content, the rewritten done content, and the follow-up focus
    /// action, after reloading the grid from the rewritten content. A
    /// silent no-op (`None`) when nothing is selected or no line carries
    /// the selected identifier.
    pub fn handle_complete_todo(&mut self, todo_content: &str, done_content: &str) -> (r: Option<
        (String, String, UiAction),
    >)
        ensures
            r is None ==> *final(self) == *old(self),
            old(self).current_id_s() is None ==> r is None,
            match r {
                Some(t) => {
                    let id = old(self).current_id_s()->0;
                    &&& old(self).current_id_s() is Some
                    &&& crate::mutate::last_matching(
                        crate::toks::lines_of(todo_content@),
                        id,
                    ) is Some
                    &&& t.0@ == crate::toks::join_lines(
                        crate::mutate::remove_matching(crate::toks::lines_of(todo_content@), id),
                    )
                    &&& exists|d: crate::date::Date|
                        crate::date::date_valid(d) && t.1@ == crate::mutate::done_with(
                            done_content@,
                            crate::mutate::completed_line(
                                #[trigger] crate::mutate::last_matching(
                                    crate::toks::lines_of(todo_content@),
                                    id,
                                )->0,
                                d,
                            ),
                        )
                    &&& reconciled(*old(self), *final(self), t.2, load_view(t.0@))
                },
                None => true,
            },
    {
        let id = match self.get_current_todo_id() {
            Some(id) => id,
            None => {
                return None;
            },
        };
        match crate::mutate::mark_complete(todo_content, done_content, id.as_str()) {
            Some((new_todo, new_done)) => {
                let action = self.reload_todos(new_todo.as_str());
                Some((new_todo, new_done, action))
            },
            None => None,
        }
    }

    /// The manual reload: ensure identifiers first, then reload. Returns
    /// the content to write back, if the identifier pass changed anything,
    /// and the follow-up focus action.
    pub fn handle_reload(&mut self, content: &str) -> (r: (Option<String>, UiAction))
        ensures
            match r.0 {
                Some(c2) => exists|ids: Seq<Seq<char>>|
                    ids.len() == crate::mutate::missing_count(crate::toks::lines_of(content@))
                        && crate::mutate::uuid_seq_wf(ids) && c2@ == crate::toks::join_lines(
                        crate::mutate::lines_with_ids(crate::toks::lines_of(content@), ids),
                    ) && reconciled(*old(self), *final(self), r.1, load_view(c2@)),
                None => crate::mutate::missing_count(crate::toks::lines_of(content@)) == 0
                    && reconciled(*old(self), *final(self), r.1, load_view(content@)),
            },
    {
        match crate::mutate::add_missing_ids(content) {
            Some(c2) => {
                let action = self.reload_todos(c2.as_str());
                (Some(c2), action)
            },
            None => {
                let action = self.reload_todos(content);
                (None, action)
            },
        }
    }
}

} // verus!
