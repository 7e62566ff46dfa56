//! The selection session state machine.
//!
//! One session owns the live query, the ranked result list, the selected
//! row and the scroll offset.  Every keyboard event is a pure transition on
//! that state; the render loop around it (terminal setup, drawing, the
//! matching worker and its queues) performs I/O only and feeds events and
//! finished result lists back in.  The state invariant keeps the selected
//! row inside the loaded window at all times.

use vstd::prelude::*;

use crate::matcher::MatchResult;
use crate::strutil::{pop_char, push_char};

verus! {

/// A keyboard event, as the session interprets it.
#[derive(Clone, Copy, Debug, PartialEq, Eq, Structural)]
pub enum KeyInput {
    /// Escape: cancel.
    Escape,
    /// The interrupt chord: cancel.
    Interrupt,
    /// Move the selection up one row.
    Previous,
    /// Move the selection down one row.
    Next,
    /// Remove the last query character.
    Backspace,
    /// Append a character to the query.
    Printable(char),
    /// Commit the selected candidate.
    Enter,
    /// Anything else: ignored.
    Other,
}

/// What one step of the session resolves to.
#[derive(Clone, Debug, PartialEq, Eq)]
pub enum StepOutcome {
    /// Keep running; the worker need not hear about it.
    Continue,
    /// The query changed: enqueue it for the matching worker.
    QueryChanged,
    /// The session is over, with the committed candidate if any.
    Finished(Option<String>),
}

/// The mutable state of one selection session.
pub struct SessionState {
    /// The query as typed so far.
    pub input: String,
    /// The selected row, counted within the visible window.
    pub selected_index: usize,
    /// The index of the first visible result.
    pub start_pos: usize,
    /// The ranked results most recently delivered by the worker.
    pub results: Vec<MatchResult>,
    /// How many candidates the session ranks over (for the counter row).
    pub total_items: usize,
    /// How many result rows fit in the panel.
    pub max_items: usize,
    /// The look-ahead row past which moving down scrolls instead.
    pub scroll_next_pos: usize,
    /// The look-ahead row before which moving up scrolls instead.
    pub scroll_previous_pos: usize,
}

/// The largest start offset that still fills the window where possible.
pub open spec fn bottom_start(s: SessionState) -> int {
    if s.results@.len() >= s.max_items {
        s.results@.len() - s.max_items
    } else {
        0
    }
}

impl SessionState {
    /// How many result rows are loaded into the window right now.
    pub open spec fn spec_visible(&self) -> int {
        if self.results@.len() - self.start_pos < self.max_items {
            self.results@.len() - self.start_pos
        } else {
            self.max_items as int
        }
    }

    /// The session invariant: the window holds at least one row less than
    /// the panel scrolls at, the scroll offset never runs past the last
    /// full window, and the selected row always lies inside the loaded
    /// window (row zero when the window is empty).
    pub open spec fn wf(&self) -> bool {
        &&& self.max_items >= 1
        &&& self.scroll_next_pos + 2 <= self.max_items
        &&& self.start_pos <= bottom_start(*self)
        &&& if self.spec_visible() == 0 {
            self.selected_index == 0
        } else {
            (self.selected_index as int) < self.spec_visible()
        }
    }

    /// A fresh session for a terminal of `rows` rows over `total_items`
    /// candidates: an empty query, no results yet, and the layout the
    /// panel uses — `rows - 4` result rows, downward scrolling starting
    /// seven rows before the bottom, upward scrolling below row five.
    pub fn new(rows: u16, total_items: usize) -> (s: SessionState)
        requires
            rows >= 11,
        ensures
            s.wf(),
            s.input@ == Seq::<char>::empty(),
            s.selected_index == 0,
            s.start_pos == 0,
            s.results@.len() == 0,
            s.total_items == total_items,
            s.max_items == rows - 4,
            s.scroll_next_pos == rows - 11,
            s.scroll_previous_pos == 5,
    {
        SessionState {
            input: String::new(),
            selected_index: 0,
            start_pos: 0,
            results: Vec::new(),
            total_items,
            max_items: (rows - 4) as usize,
            scroll_next_pos: (rows - 11) as usize,
            scroll_previous_pos: 5,
        }
    }

    /// Adopts a freshly delivered result list, resetting the selection and
    /// the scroll offset: the new ranking has nothing to do with the rows
    /// the old selection pointed at.
    pub fn set_results(&mut self, results: Vec<MatchResult>)
        requires
            old(self).wf(),
        ensures
            final(self).wf(),
            final(self).results == results,
            final(self).selected_index == 0,
            final(self).start_pos == 0,
            final(self).input == old(self).input,
            final(self).total_items == old(self).total_items,
            final(self).max_items == old(self).max_items,
            final(self).scroll_next_pos == old(self).scroll_next_pos,
            final(self).scroll_previous_pos == old(self).scroll_previous_pos,
    {
        self.results = results;
        self.selected_index = 0;
        self.start_pos = 0;
    }

    /// How many result rows are loaded into the window right now.
    pub fn visible_count(&self) -> (n: usize)
        requires
            self.wf(),
        ensures
            n as int == self.spec_visible(),
    {
        let remaining = self.results.len() - self.start_pos;
        if remaining < self.max_items {
            remaining
        } else {
            self.max_items
        }
    }

    /// Moves the selection down one row: wraps to the top past the last
    /// loaded row, moves freely when the bottom of the result list is
    /// already visible, and otherwise scrolls once the selection passes
    /// the look-ahead row.
    fn move_next(&mut self)
        requires
            old(self).wf(),
        ensures
            final(self).wf(),
            *final(self) == next_transition(*old(self)),
    {
        let visible = self.visible_count();
        if visible == 0 {
            return ;
        }
        if self.selected_index == visible - 1 {
            self.selected_index = 0;
            self.start_pos = 0;
            return ;
        }
        let bottom = if self.results.len() >= self.max_items {
            self.results.len() - self.max_items
        } else {
            0
        };
        if bottom == self.start_pos {
            self.selected_index += 1;
            return ;
        }
        if self.selected_index <= self.scroll_next_pos {
            self.selected_index += 1;
        } else {
            self.start_pos += 1;
        }
    }

    /// Moves the selection up one row: wraps to the last loaded row from
    /// the top, moves freely when the top of the result list is visible,
    /// and otherwise scrolls once the selection passes the upper
    /// look-ahead row.
    fn move_previous(&mut self)
        requires
            old(self).wf(),
        ensures
            final(self).wf(),
            *final(self) == previous_transition(*old(self)),
    {
        let visible = self.visible_count();
        if visible == 0 {
            return ;
        }
        if self.selected_index == 0 {
            let loaded = if self.max_items < self.results.len() {
                self.max_items
            } else {
                self.results.len()
            };
            self.selected_index = loaded - 1;
            self.start_pos = if self.results.len() >= self.max_items {
                self.results.len() - self.max_items
            } else {
                0
            };
            return ;
        }
        if self.start_pos == 0 {
            self.selected_index -= 1;
            return ;
        }
        if self.selected_index > self.scroll_previous_pos {
            self.selected_index -= 1;
        } else {
            self.start_pos -= 1;
        }
    }

    /// One step of the state machine: applies the event from the table —
    /// cancellation, commit, navigation with wrap-around and look-ahead
    /// scrolling, or a query edit that resets selection and scroll — and
    /// says whether the session goes on, must re-rank, or is finished.
    pub fn on_key(&mut self, key: KeyInput) -> (out: StepOutcome)
        requires
            old(self).wf(),
        ensures
            final(self).wf(),
            final(self).results == old(self).results,
            final(self).total_items == old(self).total_items,
            final(self).max_items == old(self).max_items,
            final(self).scroll_next_pos == old(self).scroll_next_pos,
            final(self).scroll_previous_pos == old(self).scroll_previous_pos,
            match key {
                KeyInput::Escape => *final(self) == *old(self) && out == StepOutcome::Finished(
                    None::<String>,
                ),
                KeyInput::Interrupt => *final(self) == *old(self) && out == StepOutcome::Finished(
                    None::<String>,
                ),
                KeyInput::Next => *final(self) == next_transition(*old(self)) && out
                    == StepOutcome::Continue,
                KeyInput::Previous => *final(self) == previous_transition(*old(self)) && out
                    == StepOutcome::Continue,
                KeyInput::Printable(c) => final(self).input@ == old(self).input@.push(c)
                    && final(self).selected_index == 0 && final(self).start_pos == 0 && out
                    == StepOutcome::QueryChanged,
                KeyInput::Backspace => final(self).input@ == (if old(self).input@.len() == 0 {
                    old(self).input@
                } else {
                    old(self).input@.drop_last()
                }) && final(self).selected_index == 0 && final(self).start_pos == 0 && out
                    == StepOutcome::QueryChanged,
                KeyInput::Enter => *final(self) == *old(self) && (match out {
                    StepOutcome::Finished(sel) => match sel {
                        None => old(self).spec_visible() == 0,
                        Some(s) => old(self).spec_visible() > 0
                            && s@ == old(self).results@[old(self).start_pos + old(self).selected_index]@.item,
                    },
                    _ => false,
                }),
                KeyInput::Other => *final(self) == *old(self) && out == StepOutcome::Continue,
            },
    {
        match key {
            KeyInput::Escape => StepOutcome::Finished(None),
            KeyInput::Interrupt => StepOutcome::Finished(None),
            KeyInput::Next => {
                self.move_next();
                StepOutcome::Continue
            },
            KeyInput::Previous => {
                self.move_previous();
                StepOutcome::Continue
            },
            KeyInput::Printable(c) => {
                push_char(&mut self.input, c);
                self.selected_index = 0;
                self.start_pos = 0;
                StepOutcome::QueryChanged
            },
            KeyInput::Backspace => {
                let _ = pop_char(&mut self.input);
                self.selected_index = 0;
                self.start_pos = 0;
                StepOutcome::QueryChanged
            },
            KeyInput::Enter => {
                let visible = self.visible_count();
                if visible == 0 {
                    StepOutcome::Finished(None)
                } else {
                    let n = self.results.len();
                    proof {
                        assert(self.start_pos + self.selected_index < n);
                    }
                    let s = self.results[self.start_pos + self.selected_index].item.clone();
                    StepOutcome::Finished(Some(s))
                }
            },
            KeyInput::Other => StepOutcome::Continue,
        }
    }
}

/// The downward move as a function on states: wrap past the last loaded
/// row, free movement when the bottom is visible, and look-ahead scrolling
/// otherwise.
pub open spec fn next_transition(s: SessionState) -> SessionState {
    if s.spec_visible() == 0 {
        s
    } else if s.selected_index == s.spec_visible() - 1 {
        SessionState { selected_index: 0, start_pos: 0, ..s }
    } else if s.start_pos == bottom_start(s) {
        SessionState { selected_index: (s.selected_index + 1) as usize, ..s }
    } else if s.selected_index <= s.scroll_next_pos {
        SessionState { selected_index: (s.selected_index + 1) as usize, ..s }
    } else {
        SessionState { start_pos: (s.start_pos + 1) as usize, ..s }
    }
}

/// The upward move as a function on states: wrap from the top to the last
/// loaded row, free movement when the top is visible, and look-ahead
/// scrolling otherwise.
pub open spec fn previous_transition(s: SessionState) -> SessionState {
    if s.spec_visible() == 0 {
        s
    } else if s.selected_index == 0 {
        SessionState {
            selected_index: ((if s.max_items < s.results@.len() {
                s.max_items as int
            } else {
                s.results@.len() as int
            }) - 1) as usize,
            start_pos: bottom_start(s) as usize,
            ..s
        }
    } else if s.start_pos == 0 {
        SessionState { selected_index: (s.selected_index - 1) as usize, ..s }
    } else if s.selected_index > s.scroll_previous_pos {
        SessionState { selected_index: (s.selected_index - 1) as usize, ..s }
    } else {
        SessionState { start_pos: (s.start_pos - 1) as usize, ..s }
    }
}

/// The selected row never leaves the loaded window, whatever key arrives:
/// the session invariant is preserved by every transition, and under it the
/// selected row index stays within `[0, min(max_items, loaded))`.
pub proof fn lemma_selection_in_window(s: SessionState)
    requires
        s.wf(),
    ensures
        next_transition(s).wf(),
        previous_transition(s).wf(),
        s.selected_index <= s.spec_visible(),
        (s.selected_index as int) < s.max_items || s.selected_index == 0,
{
}

} // verus!
