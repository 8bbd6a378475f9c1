//! The terminal dashboard's state and how keys move it between screens.
use vstd::prelude::*;
use crate::status::{SystemsStatus, SystemsGoNogo};

verus! {

/// The screens the dashboard can show.
#[derive(Debug, Clone, Copy, PartialEq, Eq, Structural)]
pub enum Screen {
    Dashboard,
    Todo,
    Notes,
    Project,
    Quit,
}

/// A key the dashboard reacts to: a character, or any other key.
#[derive(Debug, Clone, Copy, PartialEq, Eq, Structural)]
pub enum Key {
    Char(char),
    Other,
}

/// The screen a key on the dashboard leads to: `q` quits, `1`, `2` and `3`
/// open the todo, notes and project screens; other keys change nothing.
pub open spec fn dashboard_next(key: Key) -> Screen {
    match key {
        Key::Char('q') => Screen::Quit,
        Key::Char('1') => Screen::Todo,
        Key::Char('2') => Screen::Notes,
        Key::Char('3') => Screen::Project,
        _ => Screen::Dashboard,
    }
}

/// The dashboard's state.
pub struct App {
    pub current_screen: Screen,
    pub systems_status: SystemsStatus,
    pub go_nogo_status: SystemsGoNogo,
}

impl App {
    /// A dashboard showing its main screen.
    pub fn new(systems_status: SystemsStatus, go_nogo_status: SystemsGoNogo) -> (r: Self)
        ensures
            r.current_screen == Screen::Dashboard,
            r.systems_status == systems_status,
            r.go_nogo_status == go_nogo_status,
    {
        App { current_screen: Screen::Dashboard, systems_status, go_nogo_status }
    }

    /// Reacts to a key: on the main screen it may open another screen or
    /// quit; the other screens take no keys yet.
    pub fn handle_input(&mut self, key: Key)
        ensures
            old(self).current_screen == Screen::Dashboard ==> final(self).current_screen == dashboard_next(key),
            old(self).current_screen != Screen::Dashboard ==> final(self).current_screen == old(self).current_screen,
            final(self).systems_status == old(self).systems_status,
            final(self).go_nogo_status == old(self).go_nogo_status,
    {
        match self.current_screen {
            Screen::Dashboard => self.handle_dashboard_input(key),
            _ => {},
        }
    }

    fn handle_dashboard_input(&mut self, key: Key)
        ensures
            final(self).current_screen == dashboard_next(key),
            final(self).systems_status == old(self).systems_status,
            final(self).go_nogo_status == old(self).go_nogo_status,
    {
        match key {
            Key::Char('q') => self.current_screen = Screen::Quit,
            Key::Char('1') => self.current_screen = Screen::Todo,
            Key::Char('2') => self.current_screen = Screen::Notes,
            Key::Char('3') => self.current_screen = Screen::Project,
            _ => self.current_screen = Screen::Dashboard,
        }
    }
}

} // verus!
