//! What the menu bar item or notification-area icon says, and what a click on
//! it means.

use vstd::prelude::*;

verus! {

/// What was picked from the tray menu.
#[derive(Debug, Clone, Copy, PartialEq, Eq, Structural)]
pub enum TrayCommand {
    /// Bring the window to the front.
    ShowWindow,
    /// Start a session, or stop the running one.
    StartStop,
    Quit,
}

/// What the tray displays.
#[derive(Debug, Clone, PartialEq, Eq)]
pub struct TrayState {
    /// Short status word: "Running", "Idle", "Failed".
    pub status: String,
    /// The detail line. Empty when there is nothing to say.
    pub detail: String,
    /// Whether a session is active, which decides the Start/Stop wording.
    pub running: bool,
}

/// What a [`TrayState`] says.
pub struct TrayView {
    pub status: Seq<char>,
    pub detail: Seq<char>,
    pub running: bool,
}

impl View for TrayState {
    type V = TrayView;

    open spec fn view(&self) -> TrayView {
        TrayView { status: self.status@, detail: self.detail@, running: self.running }
    }
}

impl TrayView {
    /// The menu's first line.
    pub open spec fn line(self) -> Seq<char> {
        if self.detail.len() == 0 {
            self.status
        } else {
            self.status + " · "@ + self.detail
        }
    }

    /// What the action entry says: what a click on it will do.
    pub open spec fn action(self) -> Seq<char> {
        if self.running {
            "Stop"@
        } else {
            "Start"@
        }
    }
}

impl TrayState {
    /// The menu's first, disabled line.
    pub fn summary(&self) -> (line: String)
        ensures
            line@ == self@.line(),
    {
        let mut line = self.status.clone();
        if !self.detail.as_str().is_empty() {
            line.append(" · ");
            line.append(self.detail.as_str());
        }
        line
    }

    pub fn action_label(&self) -> (word: &'static str)
        ensures
            word@ == self@.action(),
    {
        if self.running {
            "Stop"
        } else {
            "Start"
        }
    }

    /// Whether two states say the same.
    pub fn is_same(&self, other: &TrayState) -> (yes: bool)
        ensures
            yes == (self@ == other@),
    {
        self.status == other.status && self.detail == other.detail && self.running == other.running
    }
}

/// The tray menu: what it shows, and the names of its entries.
pub struct Tray {
    pub shown: TrayState,
    pub action: String,
    pub window: String,
    pub quit: String,
}

impl Tray {
    pub fn new(initial: TrayState, action: String, window: String, quit: String) -> (tray: Self)
        ensures
            tray.shown@ == initial@,
            tray.action@ == action@,
            tray.window@ == window@,
            tray.quit@ == quit@,
    {
        Self { shown: initial, action, window, quit }
    }

    /// Takes a new state; true when the menu has to be rewritten, which is only
    /// when the state has actually changed.
    pub fn update(&mut self, state: &TrayState) -> (rewrite: bool)
        ensures
            rewrite == (old(self).shown@ != state@),
            final(self).shown@ == state@,
            *final(self) == (Tray { shown: final(self).shown, ..*old(self) }),
    {
        if self.shown.is_same(state) {
            return false;
        }
        self.shown =
        TrayState {
            status: state.status.clone(),
            detail: state.detail.clone(),
            running: state.running,
        };
        true
    }

    /// The command behind a clicked entry.
    pub open spec fn meaning(self, id: Seq<char>) -> Option<TrayCommand> {
        if id == self.action@ {
            Some(TrayCommand::StartStop)
        } else if id == self.window@ {
            Some(TrayCommand::ShowWindow)
        } else if id == self.quit@ {
            Some(TrayCommand::Quit)
        } else {
            None
        }
    }

    /// The command behind a click, if there was one.
    pub fn poll(&self, clicked: Option<&String>) -> (command: Option<TrayCommand>)
        ensures
            command == (match clicked {
                Some(id) => self.meaning(id@),
                None => None,
            }),
    {
        match clicked {
            None => None,
            Some(id) => if *id == self.action {
                Some(TrayCommand::StartStop)
            } else if *id == self.window {
                Some(TrayCommand::ShowWindow)
            } else if *id == self.quit {
                Some(TrayCommand::Quit)
            } else {
                None
            },
        }
    }
}

/// What the window does about a command.
#[derive(Debug, Clone, Copy, PartialEq, Eq, Structural)]
pub enum TrayAction {
    Start,
    Stop,
    /// Restore the window and give it the focus.
    Raise,
    /// Stop the session and close the window.
    Close,
}

/// What a command does to a window whose session runs or not.
pub open spec fn effect(command: TrayCommand, running: bool) -> TrayAction {
    match command {
        TrayCommand::StartStop => if running {
            TrayAction::Stop
        } else {
            TrayAction::Start
        },
        TrayCommand::ShowWindow => TrayAction::Raise,
        TrayCommand::Quit => TrayAction::Close,
    }
}

/// What the window does about a command.
pub fn act_on(command: TrayCommand, running: bool) -> (action: TrayAction)
    ensures
        action == effect(command, running),
{
    match command {
        TrayCommand::StartStop => if running {
            TrayAction::Stop
        } else {
            TrayAction::Start
        },
        TrayCommand::ShowWindow => TrayAction::Raise,
        TrayCommand::Quit => TrayAction::Close,
    }
}

/// The menu entry says what clicking it will do, not what is happening.
pub proof fn the_action_names_the_next_action(state: TrayView)
    ensures
        effect(TrayCommand::StartStop, state.running) is Stop ==> state.action() == "Stop"@,
        effect(TrayCommand::StartStop, state.running) is Start ==> state.action() == "Start"@,
        effect(TrayCommand::StartStop, state.running) is Stop || effect(
            TrayCommand::StartStop,
            state.running,
        ) is Start,
{
}

/// The menu's first line is the status, and the detail behind it where there is one.
pub proof fn the_menu_shows_the_status(state: TrayView)
    ensures
        state.detail.len() == 0 ==> state.line() == state.status,
        state.detail.len() > 0 ==> state.line() == state.status + " · "@ + state.detail,
        state.running ==> state.action() == "Stop"@,
        !state.running ==> state.action() == "Start"@,
{
}

/// Each entry means its own command, and what is no entry means none.
pub proof fn each_entry_means_its_own_command(tray: Tray, id: Seq<char>)
    requires
        tray.action@ != tray.window@,
        tray.action@ != tray.quit@,
        tray.window@ != tray.quit@,
    ensures
        tray.meaning(id) == Some(TrayCommand::StartStop) <==> id == tray.action@,
        tray.meaning(id) == Some(TrayCommand::ShowWindow) <==> id == tray.window@,
        tray.meaning(id) == Some(TrayCommand::Quit) <==> id == tray.quit@,
{
}

/// Start and stop take turns, and the other commands do the same whether a session
/// runs or not.
pub proof fn each_command_has_its_effect(running: bool)
    ensures
        effect(TrayCommand::StartStop, true) == TrayAction::Stop,
        effect(TrayCommand::StartStop, false) == TrayAction::Start,
        effect(TrayCommand::ShowWindow, running) == TrayAction::Raise,
        effect(TrayCommand::Quit, running) == TrayAction::Close,
{
}

/// The tray says what it holds.
pub proof fn the_tray_says_what_it_holds(state: TrayState)
    ensures
        state@.status == state.status@,
        state@.detail == state.detail@,
        state@.running == state.running,
{
}

} // verus!
