//! What the interactive task list shows and edits: the tasks, the selection
//! and the form for a new task.

use vstd::prelude::*;
use crate::rule::parses;
use crate::rule::Rule;
use crate::storage::Event;
use crate::storage::EventView;
use crate::storage::Storage;
use crate::storage::views;
use crate::time::Timestamp;

verus! {

/// The components of the screen.
#[derive(Clone, Copy, Debug, PartialEq, Eq, Structural)]
pub enum Id {
    Container,
    TaskList,
    AddTaskDialog,
    DeleteConfirmDialog,
}

impl Id {
    /// The component's number: 1 for the container, then the task list, the
    /// dialog that adds and the dialog that deletes.
    pub fn number(self) -> (n: u8)
        ensures
            n == match self {
                Id::Container => 1u8,
                Id::TaskList => 2u8,
                Id::AddTaskDialog => 3u8,
                Id::DeleteConfirmDialog => 4u8,
            },
    {
        match self {
            Id::Container => 1,
            Id::TaskList => 2,
            Id::AddTaskDialog => 3,
            Id::DeleteConfirmDialog => 4,
        }
    }
}

/// What the screen is doing.
#[derive(Clone, Copy, Debug, PartialEq, Eq, Structural)]
pub enum AppMode {
    Normal,
    AddingTask,
    ConfirmDelete(usize),
}

/// What the screen asks of the application.
#[derive(Debug)]
pub enum AppSignal {
    RefreshTasks,
    SaveState,
    ToggleTask(usize),
    DeleteTask(usize),
    AddTask(Event),
    CloseDialog,
    ShowMessage(String),
}

/// The form for a new task. `current_field` is 0 for the slug, 1 for the
/// recurrence and 2 for the command.
#[derive(Debug)]
pub struct NewTaskInput {
    pub slug: String,
    pub cron: String,
    pub command: String,
    pub current_field: usize,
}

/// The form, as plain values.
pub struct NewTaskInputView {
    pub slug: Seq<char>,
    pub cron: Seq<char>,
    pub command: Seq<char>,
    pub current_field: usize,
}

impl View for NewTaskInput {
    type V = NewTaskInputView;

    open spec fn view(&self) -> NewTaskInputView {
        NewTaskInputView {
            slug: self.slug@,
            cron: self.cron@,
            command: self.command@,
            current_field: self.current_field,
        }
    }
}

/// `text` without its last character, or `text` itself where it is empty.
pub open spec fn erased(text: Seq<char>) -> Seq<char> {
    if text.len() > 0 {
        text.drop_last()
    } else {
        text
    }
}

impl Default for NewTaskInput {
    fn default() -> (r: NewTaskInput)
        ensures
            r@ == (NewTaskInputView {
                slug: Seq::empty(),
                cron: Seq::empty(),
                command: Seq::empty(),
                current_field: 0,
            }),
    {
        NewTaskInput {
            slug: String::new(),
            cron: String::new(),
            command: String::new(),
            current_field: 0,
        }
    }
}

impl NewTaskInput {
    /// Types `c` into the current field. Outside the three fields nothing
    /// happens.
    pub fn handle_char(&mut self, c: char)
        ensures
            final(self)@ == match old(self).current_field {
                0 => NewTaskInputView { slug: old(self).slug@.push(c), ..old(self)@ },
                1 => NewTaskInputView { cron: old(self).cron@.push(c), ..old(self)@ },
                2 => NewTaskInputView { command: old(self).command@.push(c), ..old(self)@ },
                _ => old(self)@,
            },
    {
        match self.current_field {
            0 => self.slug.push(c),
            1 => self.cron.push(c),
            2 => self.command.push(c),
            _ => {},
        }
    }

    /// Erases the last character of the current field, if it has one. Outside
    /// the three fields nothing happens.
    pub fn handle_backspace(&mut self)
        ensures
            final(self)@ == match old(self).current_field {
                0 => NewTaskInputView { slug: erased(old(self).slug@), ..old(self)@ },
                1 => NewTaskInputView { cron: erased(old(self).cron@), ..old(self)@ },
                2 => NewTaskInputView { command: erased(old(self).command@), ..old(self)@ },
                _ => old(self)@,
            },
    {
        match self.current_field {
            0 => {
                self.slug.pop();
            },
            1 => {
                self.cron.pop();
            },
            2 => {
                self.command.pop();
            },
            _ => {},
        }
    }

    /// The task that the form describes, registered at `now`: there is one
    /// when no field is empty and the recurrence parses.
    pub fn create_task(&self, now: Timestamp) -> (r: Option<Event>)
        ensures
            r.is_some() == (self.slug@.len() > 0 && self.cron@.len() > 0 && self.command@.len() > 0
                && parses(self.cron@)),
            r matches Some(event) ==> event@ == (EventView {
                slug: self.slug@,
                cron: self.cron@,
                command: self.command@,
                pid: None,
                created_at: now@,
                last_run: None,
                active: true,
            }),
    {
        if self.slug.as_str().is_empty() || self.cron.as_str().is_empty()
            || self.command.as_str().is_empty() {
            return None;
        }
        if Rule::parse(self.cron.as_str()).is_err() {
            return None;
        }
        Some(
            Event {
                slug: self.slug.clone(),
                cron: self.cron.clone(),
                command: self.command.clone(),
                pid: None,
                created_at: now,
                last_run: None,
                active: true,
            },
        )
    }
}

/// The state of the task list.
#[derive(Debug)]
pub struct AppState {
    pub tasks: Vec<Event>,
    pub selected_index: usize,
    pub mode: AppMode,
    pub message: Option<String>,
    pub new_task: NewTaskInput,
    pub show_add_dialog: bool,
    pub show_delete_dialog: bool,
}

impl Default for AppState {
    fn default() -> (r: AppState)
        ensures
            r.tasks@.len() == 0,
            r.selected_index == 0,
            r.mode == AppMode::Normal,
            r.message.is_none(),
            r.new_task@ == (NewTaskInputView {
                slug: Seq::empty(),
                cron: Seq::empty(),
                command: Seq::empty(),
                current_field: 0,
            }),
            !r.show_add_dialog,
            !r.show_delete_dialog,
    {
        AppState {
            tasks: Vec::new(),
            selected_index: 0,
            mode: AppMode::Normal,
            message: None,
            new_task: NewTaskInput::default(),
            show_add_dialog: false,
            show_delete_dialog: false,
        }
    }
}

/// Whether `after` differs from `before` in the tasks and the selection at
/// most.
pub open spec fn screen_kept(before: AppState, after: AppState) -> bool {
    &&& after.mode == before.mode
    &&& after.message == before.message
    &&& after.new_task == before.new_task
    &&& after.show_add_dialog == before.show_add_dialog
    &&& after.show_delete_dialog == before.show_delete_dialog
}

impl AppState {
    /// The state that shows the tasks of `storage`, with the first selected.
    pub fn load_from_storage(storage: Storage) -> (r: AppState)
        ensures
            r.tasks == storage.events,
            r.selected_index == 0,
            r.mode == AppMode::Normal,
            r.message.is_none(),
            r.new_task@ == (NewTaskInputView {
                slug: Seq::empty(),
                cron: Seq::empty(),
                command: Seq::empty(),
                current_field: 0,
            }),
            !r.show_add_dialog,
            !r.show_delete_dialog,
    {
        AppState {
            tasks: storage.events,
            selected_index: 0,
            mode: AppMode::Normal,
            message: None,
            new_task: NewTaskInput::default(),
            show_add_dialog: false,
            show_delete_dialog: false,
        }
    }

    /// The registry that holds the tasks shown.
    pub fn save_to_storage(&self) -> (r: Storage)
        ensures
            r@ == views(self.tasks@),
    {
        let mut events: Vec<Event> = Vec::new();
        let mut i: usize = 0;
        while i < self.tasks.len()
            invariant
                i <= self.tasks.len(),
                views(events@) == views(self.tasks@).take(i as int),
            decreases self.tasks.len() - i,
        {
            let copy = self.tasks[i].clone();
            proof {
                crate::storage::lemma_views_push(events@, copy);
                assert(views(self.tasks@).take(i + 1) =~= views(self.tasks@).take(i as int).push(
                    views(self.tasks@)[i as int],
                ));
            }
            events.push(copy);
            i += 1;
        }
        proof {
            assert(views(self.tasks@).take(i as int) =~= views(self.tasks@));
        }
        Storage { events }
    }

    /// The selected task, if the selection is on one.
    pub fn get_selected_task(&self) -> (r: Option<&Event>)
        ensures
            r.is_some() == (self.selected_index < self.tasks@.len()),
            r matches Some(event) ==> *event == self.tasks@[self.selected_index as int],
    {
        if self.selected_index < self.tasks.len() {
            Some(&self.tasks[self.selected_index])
        } else {
            None
        }
    }

    /// The selected task, to change it, if the selection is on one.
    pub fn get_selected_task_mut(&mut self) -> (r: Option<&mut Event>)
        ensures
            r.is_some() == (old(self).selected_index < old(self).tasks@.len()),
            final(self).selected_index == old(self).selected_index,
            screen_kept(*old(self), *final(self)),
            match r {
                Some(event) => *event == old(self).tasks@[old(self).selected_index as int]
                    && final(self).tasks@ == old(self).tasks@.update(
                    old(self).selected_index as int,
                    *final(event),
                ),
                None => final(self).tasks == old(self).tasks,
            },
    {
        if self.selected_index < self.tasks.len() {
            Some(&mut self.tasks[self.selected_index])
        } else {
            None
        }
    }

    /// Moves the selection one up, unless it is on the first task.
    pub fn move_selection_up(&mut self)
        ensures
            final(self).selected_index == if old(self).selected_index > 0 {
                old(self).selected_index - 1
            } else {
                0
            },
            final(self).tasks == old(self).tasks,
            screen_kept(*old(self), *final(self)),
    {
        if self.selected_index > 0 {
            self.selected_index -= 1;
        }
    }

    /// Moves the selection one down, unless it is on the last task.
    pub fn move_selection_down(&mut self)
        ensures
            final(self).selected_index == if old(self).selected_index + 1 < old(self).tasks@.len() {
                old(self).selected_index + 1
            } else {
                old(self).selected_index as int
            },
            final(self).tasks == old(self).tasks,
            screen_kept(*old(self), *final(self)),
    {
        if self.tasks.len() > 0 && self.selected_index < self.tasks.len() - 1 {
            self.selected_index += 1;
        }
    }

    /// Turns the selected task on or off, if the selection is on one.
    pub fn toggle_selected_task_active(&mut self)
        ensures
            final(self).selected_index == old(self).selected_index,
            screen_kept(*old(self), *final(self)),
            old(self).selected_index >= old(self).tasks@.len() ==> final(self).tasks == old(
                self,
            ).tasks,
            old(self).selected_index < old(self).tasks@.len() ==> views(final(self).tasks@)
                == views(old(self).tasks@).update(
                old(self).selected_index as int,
                EventView {
                    active: !old(self).tasks@[old(self).selected_index as int].active,
                    ..old(self).tasks@[old(self).selected_index as int]@
                },
            ),
    {
        if self.selected_index < self.tasks.len() {
            let active = self.tasks[self.selected_index].active;
            self.tasks[self.selected_index].active = !active;
            proof {
                assert(views(self.tasks@) =~= views(old(self).tasks@).update(
                    old(self).selected_index as int,
                    EventView {
                        active: !old(self).tasks@[old(self).selected_index as int].active,
                        ..old(self).tasks@[old(self).selected_index as int]@
                    },
                ));
            }
        }
    }

    /// Removes the selected task, if the selection is on one, and keeps the
    /// selection on a task while there is one.
    pub fn remove_selected_task(&mut self)
        ensures
            screen_kept(*old(self), *final(self)),
            old(self).selected_index >= old(self).tasks@.len() ==> final(self).tasks == old(
                self,
            ).tasks && final(self).selected_index == old(self).selected_index,
            old(self).selected_index < old(self).tasks@.len() ==> {
                &&& final(self).tasks@ == old(self).tasks@.remove(old(self).selected_index as int)
                &&& final(self).selected_index == if old(self).selected_index > 0 && old(
                    self,
                ).selected_index + 1 == old(self).tasks@.len() {
                    old(self).selected_index - 1
                } else {
                    old(self).selected_index as int
                }
            },
    {
        if self.selected_index < self.tasks.len() {
            self.tasks.remove(self.selected_index);
            if self.selected_index > 0 && self.selected_index >= self.tasks.len() {
                self.selected_index = if self.tasks.len() > 0 {
                    self.tasks.len() - 1
                } else {
                    0
                };
            }
        }
    }
}

} // verus!
