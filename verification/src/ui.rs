//! Switching between the file browser and the tuner.

use vstd::prelude::*;
use crate::browser::Action;
use crate::paths::{derive_output, output_for};
use crate::tuner::Command;

verus! {

/// The screen shown.
#[derive(Debug, Clone, Copy, PartialEq, Eq, Structural)]
pub enum Mode {
    Browser,
    Tuner,
}

/// What the application does next.
pub enum Route {
    /// Stay on the current screen.
    Stay,
    /// Leave the application.
    Quit,
    /// Show this screen.
    Show(Mode),
    /// Load this image into a new tuner (writing to `output`) and show it;
    /// on failure, report the error in the browser's status line.
    OpenImage { input: String, output: String },
}

/// The route after a tuner command: `Quit` quits, `OpenBrowser` shows the
/// browser (the tuner's settings are kept for the next image), anything else
/// stays.
pub fn after_tuner(cmd: &Command) -> (res: Route)
    ensures
        match cmd {
            Command::Quit => res is Quit,
            Command::OpenBrowser => res == Route::Show(Mode::Browser),
            _ => res is Stay,
        },
{
    match cmd {
        Command::Quit => Route::Quit,
        Command::OpenBrowser => Route::Show(Mode::Browser),
        _ => Route::Stay,
    }
}

/// The route after a browser action: `Quit` quits; `Back` returns to the
/// tuner when there is one and quits otherwise; choosing an image opens it
/// with its default output base (see [`output_for`]).
pub fn after_browser(action: Action, has_tuner: bool) -> (res: Route)
    ensures
        match action {
            Action::Nothing => res is Stay,
            Action::Quit => res is Quit,
            Action::Back => if has_tuner {
                res == Route::Show(Mode::Tuner)
            } else {
                res is Quit
            },
            Action::Open(p) => match res {
                Route::OpenImage { input, output } => input@ == p@ && output@ == output_for(p@),
                _ => false,
            },
        },
{
    match action {
        Action::Nothing => Route::Stay,
        Action::Quit => Route::Quit,
        Action::Back => if has_tuner {
            Route::Show(Mode::Tuner)
        } else {
            Route::Quit
        },
        Action::Open(p) => {
            let output = derive_output(p.as_str());
            Route::OpenImage { input: p, output }
        },
    }
}

} // verus!
