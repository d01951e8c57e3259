//! Presentation: verbosity levels, browse-mode actions and the pure parts of
//! rendering.
pub mod diagnostic;
pub mod display;
pub mod json;
pub mod style;

use vstd::prelude::*;

verus! {

/// How much the displays print.
#[derive(Debug, Clone, Copy, PartialEq, Eq, Structural, PartialOrd, Ord)]
pub enum Verbosity {
    Quiet,
    Normal,
    Verbose,
    Debug,
}

/// How pipeline events are rendered.
#[derive(Debug, Clone, Copy, PartialEq, Eq, Structural)]
pub enum OutputFormat {
    /// Interactive when attached to a terminal, plain lines otherwise.
    Auto,
    /// One JSON object per event, one per line.
    Json,
}

/// How the displays were asked to render.
#[derive(Debug, Clone, Copy)]
pub struct DisplayConfig {
    pub is_tty: bool,
    pub no_clear: bool,
    pub verbosity: Verbosity,
    pub format: OutputFormat,
}

/// What a key press in browse mode asks the caller to do next.
#[derive(Debug, Clone, PartialEq, Eq)]
pub enum BrowseAction {
    /// Key was consumed but no visual change is needed.
    Noop,
    /// State changed; the caller should redraw.
    Redraw,
    /// `q`: leave browse mode and shut down.
    Quit,
    /// `r`: rerun the full pipeline (no trigger, no step filter).
    Rerun,
    /// `f`: rerun only the steps that failed in the previous run; returned
    /// only when at least one step was marked failed.
    RerunFailed,
    /// `c`: rerun only the step under the cursor, named here.
    RerunCursor(String),
}

/// The plain contents of a `BrowseAction`.
pub enum BrowseActionView {
    Noop,
    Redraw,
    Quit,
    Rerun,
    RerunFailed,
    RerunCursor(Seq<char>),
}

impl View for BrowseAction {
    type V = BrowseActionView;

    open spec fn view(&self) -> BrowseActionView {
        match self {
            BrowseAction::Noop => BrowseActionView::Noop,
            BrowseAction::Redraw => BrowseActionView::Redraw,
            BrowseAction::Quit => BrowseActionView::Quit,
            BrowseAction::Rerun => BrowseActionView::Rerun,
            BrowseAction::RerunFailed => BrowseActionView::RerunFailed,
            BrowseAction::RerunCursor(name) => BrowseActionView::RerunCursor(name@),
        }
    }
}

/// A key press in browse mode, as the terminal reports it.
#[derive(Debug, Clone, Copy, PartialEq, Eq, Structural)]
pub enum Key {
    Char(char),
    Up,
    Down,
    Enter,
    /// Any other key.
    Other,
}


/// Which renderer a display configuration selects.
#[derive(Debug, Clone, Copy, PartialEq, Eq)]
pub enum DisplayKind {
    /// NDJSON events.
    Json,
    /// The interactive terminal display.
    Tty,
    /// Append-only lines.
    Plain,
}

/// Whether the output is interactive: the automatic format, not forced to
/// plain lines, on a terminal. JSON output is never interactive.
pub fn interactive(format: OutputFormat, no_tty: bool, stdout_is_terminal: bool) -> (b: bool)
    ensures
        b == (format == OutputFormat::Auto && !no_tty && stdout_is_terminal),
{
    match format {
        OutputFormat::Auto => !no_tty && stdout_is_terminal,
        OutputFormat::Json => false,
    }
}

/// The renderer for a display configuration: JSON when asked for, else the
/// terminal display when interactive, else plain lines.
pub fn display_kind(dc: &DisplayConfig) -> (k: DisplayKind)
    ensures
        k == (if dc.format == OutputFormat::Json {
            DisplayKind::Json
        } else if dc.is_tty {
            DisplayKind::Tty
        } else {
            DisplayKind::Plain
        }),
{
    match dc.format {
        OutputFormat::Json => DisplayKind::Json,
        OutputFormat::Auto => if dc.is_tty {
            DisplayKind::Tty
        } else {
            DisplayKind::Plain
        },
    }
}

} // verus!
