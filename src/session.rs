//! What the browser does on each key press.
use vstd::prelude::*;

verus! {

/// A key press, as far as the browser tells keys apart.
#[derive(PartialEq, Eq, Structural, Clone, Copy, Debug)]
pub enum KeyInput {
    Esc,
    Char(char),
    Other,
}

/// What the event loop does after a key press.
#[derive(PartialEq, Eq, Structural, Clone, Copy, Debug)]
pub enum Action {
    /// Leave the browser.
    Quit,
    /// Draw the listing again.
    Redraw,
    /// List the directory again, then draw.
    Reload,
}

/// The interactive state: the selected row and whether hidden entries are listed.
#[derive(PartialEq, Eq, Structural, Clone, Copy, Debug)]
pub struct Session {
    pub selected_index: usize,
    pub show_hidden: bool,
}

impl Session {
    /// The first row selected.
    pub fn new(show_hidden: bool) -> (r: Session)
        ensures
            r == (Session { selected_index: 0, show_hidden }),
    {
        Session { selected_index: 0, show_hidden }
    }

    /// Reacts to a key: Esc or 'q' quits; 'j' selects the next row and 'k' the previous
    /// one (staying on the first); 'h' shows or hides hidden entries, which lists the
    /// directory again; any other key changes nothing.
    pub fn handle_key(&mut self, key: KeyInput) -> (r: Action)
        ensures
            r == match key {
                KeyInput::Esc | KeyInput::Char('q') => Action::Quit,
                KeyInput::Char('h') => Action::Reload,
                _ => Action::Redraw,
            },
            final(self).show_hidden == if key == KeyInput::Char('h') {
                !old(self).show_hidden
            } else {
                old(self).show_hidden
            },
            final(self).selected_index == match key {
                KeyInput::Char('j') => if old(self).selected_index < usize::MAX {
                    (old(self).selected_index + 1) as usize
                } else {
                    old(self).selected_index
                },
                KeyInput::Char('k') => if old(self).selected_index > 0 {
                    (old(self).selected_index - 1) as usize
                } else {
                    0
                },
                _ => old(self).selected_index,
            },
    {
        match key {
            KeyInput::Esc => Action::Quit,
            KeyInput::Char('q') => Action::Quit,
            KeyInput::Char('j') => {
                if self.selected_index < usize::MAX {
                    self.selected_index = self.selected_index + 1;
                }
                Action::Redraw
            },
            KeyInput::Char('k') => {
                if self.selected_index > 0 {
                    self.selected_index = self.selected_index - 1;
                }
                Action::Redraw
            },
            KeyInput::Char('h') => {
                self.show_hidden = !self.show_hidden;
                Action::Reload
            },
            _ => Action::Redraw,
        }
    }
}

} // verus!
