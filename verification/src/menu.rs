//! Decision core of the session driver.  The front end collects options,
//! prompts and prints; which workflow runs is decided here, as a function
//! from the collected options to an action.

use vstd::prelude::*;

verus! {

/// The command-line options the front end collects.
pub struct CliOptions {
    pub auto: bool,
    pub pkg: Option<String>,
    pub var: Option<String>,
    pub search_value: Option<String>,
    pub new_value: Option<String>,
}

/// What one invocation of the tool does.
#[derive(Clone, Copy, PartialEq, Eq, Structural, Debug)]
pub enum RunAction {
    /// Automated mode with package, variable and new value: edit that
    /// variable directly.
    AutomatedEdit,
    /// Automated mode with package, search value and new value: find the
    /// variable by value, then edit it.
    SearchAndEdit,
    /// Automated mode with too few options.
    MissingArguments,
    /// No automated mode: run the interactive menu.
    Interactive,
}

/// One entry of the interactive menu.
#[derive(Clone, Copy, PartialEq, Eq, Structural, Debug)]
pub enum MenuAction {
    EditEnvVars,
    ShowFds,
    ShowMaps,
    DirectMemMod,
    Exit,
    Invalid,
}

/// Decides what an invocation does.  Automated mode prefers the direct
/// edit when a variable name is given, falls back to the search-and-edit
/// workflow, and reports missing arguments otherwise; without automated
/// mode the interactive menu runs.
pub fn run(cli: &CliOptions) -> (r: RunAction)
    ensures
        (r == RunAction::AutomatedEdit) <==> (cli.auto && cli.pkg is Some && cli.var is Some
            && cli.new_value is Some),
        (r == RunAction::SearchAndEdit) <==> (cli.auto && cli.pkg is Some && cli.new_value is Some
            && cli.search_value is Some && cli.var is None),
        (r == RunAction::Interactive) <==> !cli.auto,
        (r == RunAction::MissingArguments) <==> (cli.auto && !(cli.pkg is Some
            && cli.new_value is Some && (cli.var is Some || cli.search_value is Some))),
{
    if cli.auto {
        if cli.pkg.is_some() && cli.var.is_some() && cli.new_value.is_some() {
            RunAction::AutomatedEdit
        } else if cli.pkg.is_some() && cli.search_value.is_some() && cli.new_value.is_some() {
            RunAction::SearchAndEdit
        } else {
            RunAction::MissingArguments
        }
    } else {
        RunAction::Interactive
    }
}

/// Maps a numbered choice of the interactive menu to its action.
pub fn menu_action(choice: usize) -> (r: MenuAction)
    ensures
        r == MenuAction::EditEnvVars <==> choice == 1,
        r == MenuAction::ShowFds <==> choice == 2,
        r == MenuAction::ShowMaps <==> choice == 3,
        r == MenuAction::DirectMemMod <==> choice == 4,
        r == MenuAction::Exit <==> choice == 5,
        r == MenuAction::Invalid <==> !(1 <= choice <= 5),
{
    if choice == 1 {
        MenuAction::EditEnvVars
    } else if choice == 2 {
        MenuAction::ShowFds
    } else if choice == 3 {
        MenuAction::ShowMaps
    } else if choice == 4 {
        MenuAction::DirectMemMod
    } else if choice == 5 {
        MenuAction::Exit
    } else {
        MenuAction::Invalid
    }
}

} // verus!
