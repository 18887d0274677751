use vstd::prelude::*;
use vstd::string::StringExecFns;

verus! {

/// A key, as far as the viewer tells keys apart.
#[derive(Debug, Clone, Copy, PartialEq, Eq, Hash, Structural)]
pub enum Key {
    /// A key that types a character.
    Char(char),
    /// The arrow key that points up.
    Up,
    /// The arrow key that points down.
    Down,
    /// Any other key.
    Other,
}

/// One press of a key, with or without the control key held down.
#[derive(Debug, Clone, Copy, PartialEq, Eq, Hash, Structural)]
pub struct KeyPress {
    pub key: Key,
    pub control: bool,
}

/// What the viewer does after a key press: the row that is selected from
/// then on, and whether the viewer closes.
#[derive(Debug, Clone, Copy, PartialEq, Eq, Hash, Structural)]
pub struct Step {
    pub selected: Option<usize>,
    pub quit: bool,
}

/// Whether a key press closes the viewer: `q`, with or without control, and
/// `c` or `d` with control.
pub open spec fn quits(press: KeyPress) -> bool {
    match press.key {
        Key::Char(c) => c == 'q' || (press.control && (c == 'c' || c == 'd')),
        _ => false,
    }
}

/// The row that is selected after a key press that does not close the
/// viewer: the arrow keys move a selection by one row, up not above the
/// first row and down not beyond the largest row number; every other key,
/// and every key while no row is selected, leaves it as it is.
pub open spec fn moved(selected: Option<usize>, key: Key) -> Option<usize> {
    match (selected, key) {
        (Some(row), Key::Up) => Some(
            if row == 0 {
                row
            } else {
                (row - 1) as usize
            },
        ),
        (Some(row), Key::Down) => Some(
            if row == usize::MAX {
                row
            } else {
                (row + 1) as usize
            },
        ),
        _ => selected,
    }
}

/// The row that the viewer selects when it opens: the first.
pub fn initial_selection() -> (selected: Option<usize>)
    ensures
        selected == Some(0usize),
{
    Some(0)
}

/// Decides what a key press does to the viewer.
///
/// A key press that closes the viewer leaves the selection as it is; any
/// other moves it as `moved` says.
pub fn handle_key(selected: Option<usize>, press: KeyPress) -> (step: Step)
    ensures
        step.quit == quits(press),
        step.selected == if quits(press) {
            selected
        } else {
            moved(selected, press.key)
        },
{
    match press.key {
        Key::Char(c) => Step {
            selected,
            quit: c == 'q' || (press.control && (c == 'c' || c == 'd')),
        },
        Key::Up => Step {
            selected: match selected {
                Some(row) => Some(row.saturating_sub(1)),
                None => None,
            },
            quit: false,
        },
        Key::Down => Step {
            selected: match selected {
                Some(row) => Some(row.saturating_add(1)),
                None => None,
            },
            quit: false,
        },
        Key::Other => Step { selected, quit: false },
    }
}

/// The title of the viewer's window: the name of the profiler, the target
/// program and the trace file, with a rule between them and a blank at
/// either end.
pub open spec fn window_title(target_program: Seq<char>, trace_file: Seq<char>) -> Seq<char> {
    " swimps \u{2500} "@ + target_program + " \u{2500} "@ + trace_file + " "@
}

/// Builds the title of the viewer's window.
pub fn title(target_program: &str, trace_file: &str) -> (title: String)
    ensures
        title@ == window_title(target_program@, trace_file@),
{
    let mut title = String::from_str(" swimps \u{2500} ");
    title.append(target_program);
    title.append(" \u{2500} ");
    title.append(trace_file);
    title.append(" ");
    title
}

} // verus!
