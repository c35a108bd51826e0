//! The commands that a front end hands to the board, one per user action,
//! and the bindings that turn keys and pointer events into commands.

use crate::board::{click_outcome, clicked, has_won, toggle_at, Game, Outcome};
use crate::tile::in_grid;
use vstd::prelude::*;

verus! {

/// What the user asked for.
#[derive(Clone, Copy, Debug, PartialEq, Eq, Structural)]
pub enum SignalType {
    Quit,
    Click,
    Mark,
    Move,
}

/// One command; a move carries the position it aims at.
#[derive(Clone, Copy, Debug)]
pub struct Signal {
    pub pos: Option<(i32, i32)>,
    pub signal_type: SignalType,
}

/// What the command loop does after a command was applied.
#[derive(Clone, Copy, Debug, PartialEq, Eq, Structural)]
pub struct Reaction {
    /// The loop ends.
    pub quit: bool,
    /// What the command told about the session.
    pub outcome: Outcome,
}

/// A key press, as far as the bindings tell keys apart.
#[derive(Clone, Copy, Debug, PartialEq, Eq, Structural)]
pub enum Key {
    Esc,
    Left,
    Right,
    Up,
    Down,
    Char(char),
    Other,
}

/// What the pointer did besides pointing.
#[derive(Clone, Copy, Debug, PartialEq, Eq, Structural)]
pub enum Pointer {
    LeftReleased,
    RightReleased,
    Other,
}

/// The command that asks for nothing but `signal_type`.
pub open spec fn plain(signal_type: SignalType) -> Signal {
    Signal { pos: None, signal_type }
}

/// The move to the position `(dx, dy)` away from the selection; it aims
/// nowhere where the selection or that position is beyond what a command
/// can carry.
pub open spec fn step_from(selected: (usize, usize), dx: int, dy: int) -> Signal {
    let x = selected.0 + dx;
    let y = selected.1 + dy;
    if selected.0 <= i32::MAX && selected.1 <= i32::MAX && x <= i32::MAX && y <= i32::MAX {
        Signal { pos: Some((x as i32, y as i32)), signal_type: SignalType::Move }
    } else {
        plain(SignalType::Move)
    }
}

/// The key bindings: escape and `q` quit, the arrows and `h`, `l`, `k`, `j`
/// move by one cell, `f` marks, the space bar reveals; other keys do nothing.
pub open spec fn key_binding(selected: (usize, usize), key: Key) -> Option<Signal> {
    match key {
        Key::Esc => Some(plain(SignalType::Quit)),
        Key::Left => Some(step_from(selected, -1, 0)),
        Key::Right => Some(step_from(selected, 1, 0)),
        Key::Up => Some(step_from(selected, 0, -1)),
        Key::Down => Some(step_from(selected, 0, 1)),
        Key::Char(c) => if c == 'q' {
            Some(plain(SignalType::Quit))
        } else if c == 'h' {
            Some(step_from(selected, -1, 0))
        } else if c == 'l' {
            Some(step_from(selected, 1, 0))
        } else if c == 'k' {
            Some(step_from(selected, 0, -1))
        } else if c == 'j' {
            Some(step_from(selected, 0, 1))
        } else if c == 'f' {
            Some(plain(SignalType::Mark))
        } else if c == ' ' {
            Some(plain(SignalType::Click))
        } else {
            None
        },
        Key::Other => None,
    }
}

/// The cell under the pointer: a tile is three columns wide, and the first
/// row of the screen holds the title.
pub open spec fn pointed_at(column: u16, row: u16) -> Signal {
    Signal { pos: Some(((column / 3) as i32, (row - 1) as i32)), signal_type: SignalType::Move }
}

/// The pointer bindings: every event moves the selection under the pointer;
/// the release of the left button then reveals, that of the right one marks.
pub open spec fn pointer_binding(column: u16, row: u16, pointer: Pointer) -> Seq<Signal> {
    match pointer {
        Pointer::LeftReleased => seq![pointed_at(column, row), plain(SignalType::Click)],
        Pointer::RightReleased => seq![pointed_at(column, row), plain(SignalType::Mark)],
        Pointer::Other => seq![pointed_at(column, row)],
    }
}

/// The move by one step from the selection.
fn step_signal(selected: (usize, usize), dx: i32, dy: i32) -> (signal: Signal)
    requires
        -1 <= dx <= 1,
        -1 <= dy <= 1,
    ensures
        signal == step_from(selected, dx as int, dy as int),
{
    let nowhere = Signal { pos: None, signal_type: SignalType::Move };
    if selected.0 > 0x7fff_ffff || selected.1 > 0x7fff_ffff {
        return nowhere;
    }
    let x = selected.0 as i32;
    let y = selected.1 as i32;
    if (x == 0x7fff_ffff && dx == 1) || (y == 0x7fff_ffff && dy == 1) {
        return nowhere;
    }
    Signal { pos: Some((x + dx, y + dy)), signal_type: SignalType::Move }
}

/// The command that a key press stands for, if any.
pub fn signal_for_key(selected: (usize, usize), key: Key) -> (r: Option<Signal>)
    ensures
        r == key_binding(selected, key),
{
    match key {
        Key::Esc => Some(Signal { pos: None, signal_type: SignalType::Quit }),
        Key::Left => Some(step_signal(selected, -1, 0)),
        Key::Right => Some(step_signal(selected, 1, 0)),
        Key::Up => Some(step_signal(selected, 0, -1)),
        Key::Down => Some(step_signal(selected, 0, 1)),
        Key::Char(c) => {
            if c == 'q' {
                Some(Signal { pos: None, signal_type: SignalType::Quit })
            } else if c == 'h' {
                Some(step_signal(selected, -1, 0))
            } else if c == 'l' {
                Some(step_signal(selected, 1, 0))
            } else if c == 'k' {
                Some(step_signal(selected, 0, -1))
            } else if c == 'j' {
                Some(step_signal(selected, 0, 1))
            } else if c == 'f' {
                Some(Signal { pos: None, signal_type: SignalType::Mark })
            } else if c == ' ' {
                Some(Signal { pos: None, signal_type: SignalType::Click })
            } else {
                None
            }
        },
        Key::Other => None,
    }
}

/// The commands that a pointer event stands for, in order.
pub fn signals_for_pointer(column: u16, row: u16, pointer: Pointer) -> (r: Vec<Signal>)
    ensures
        r@ == pointer_binding(column, row, pointer),
{
    let mut signals: Vec<Signal> = Vec::new();
    signals.push(
        Signal { pos: Some(((column / 3) as i32, row as i32 - 1)), signal_type: SignalType::Move },
    );
    match pointer {
        Pointer::LeftReleased => {
            signals.push(Signal { pos: None, signal_type: SignalType::Click });
        },
        Pointer::RightReleased => {
            signals.push(Signal { pos: None, signal_type: SignalType::Mark });
        },
        Pointer::Other => {},
    }
    proof {
        assert(signals@ =~= pointer_binding(column, row, pointer));
    }
    signals
}

impl Game {
    /// Applies one command to the board: a move sets the selection, a click
    /// reveals, a mark toggles; quitting leaves the board alone and ends the
    /// loop.
    pub fn apply(&mut self, signal: &Signal) -> (r: Reaction)
        requires
            old(self).wf(),
        ensures
            final(self).wf(),
            final(self).width == old(self).width,
            final(self).height == old(self).height,
            r.quit == (signal.signal_type == SignalType::Quit),
            match signal.signal_type {
                SignalType::Quit => {
                    &&& final(self).tiles@ == old(self).tiles@
                    &&& final(self).selected == old(self).selected
                    &&& r.outcome == (Outcome { lost: false, won: false })
                },
                SignalType::Move => {
                    &&& final(self).tiles@ == old(self).tiles@
                    &&& r.outcome == (Outcome { lost: false, won: false })
                    &&& final(self).selected == (match signal.pos {
                        Some(pos) => if in_grid(
                            pos.0 as int,
                            pos.1 as int,
                            old(self).width as int,
                            old(self).height as int,
                        ) {
                            (pos.0 as usize, pos.1 as usize)
                        } else {
                            old(self).selected
                        },
                        None => old(self).selected,
                    })
                },
                SignalType::Click => {
                    &&& final(self).selected == old(self).selected
                    &&& final(self).tiles@ == clicked(old(self).tiles@, old(self).selected_index())
                    &&& r.outcome == click_outcome(old(self).tiles@, old(self).selected_index())
                },
                SignalType::Mark => {
                    &&& final(self).selected == old(self).selected
                    &&& final(self).tiles@ == toggle_at(
                        old(self).tiles@,
                        old(self).selected_index(),
                    )
                    &&& r.outcome == (Outcome { lost: false, won: has_won(final(self).tiles@) })
                },
            },
    {
        let quiet = Outcome { lost: false, won: false };
        match signal.signal_type {
            SignalType::Quit => Reaction { quit: true, outcome: quiet },
            SignalType::Move => {
                match signal.pos {
                    Some(pos) => {
                        self.set_selected(pos);
                    },
                    None => {},
                }
                Reaction { quit: false, outcome: quiet }
            },
            SignalType::Click => {
                let outcome = self.click_tile();
                Reaction { quit: false, outcome }
            },
            SignalType::Mark => {
                let won = self.toggle_mark();
                Reaction { quit: false, outcome: Outcome { lost: false, won } }
            },
        }
    }
}

} // verus!
