//! What the keys do.

use vstd::prelude::*;

verus! {

/// A key, as far as keys are told apart.
#[derive(Debug, Clone, Copy)]
pub enum KeyCode {
    Up,
    Down,
    Esc,
    Char(char),
    Other,
}

/// A key that was pressed, and whether the control key was held with it.
#[derive(Debug, Clone, Copy)]
pub struct KeyPress {
    pub code: KeyCode,
    pub control: bool,
}

/// Whether to go on after a key.
#[derive(Debug, Clone, Copy, PartialEq, Eq, Structural)]
pub enum Flow {
    Continue,
    Quit,
}

impl KeyPress {
    /// Whether the key ends the display: `q`, escape, or `c` with control.
    pub open spec fn quits(self) -> bool {
        match self.code {
            KeyCode::Esc => true,
            KeyCode::Char(c) => c == 'q' || (c == 'c' && self.control),
            _ => false,
        }
    }

    /// Decides whether the key ends the display.
    pub fn is_quit(&self) -> (quit: bool)
        ensures
            quit == self.quits(),
            quit <==> self.code == KeyCode::Esc || self.code == KeyCode::Char('q') || (self.control
                && self.code == KeyCode::Char('c')),
    {
        match self.code {
            KeyCode::Esc => true,
            KeyCode::Char(c) => c == 'q' || (c == 'c' && self.control),
            _ => false,
        }
    }
}

/// The entry above the selected one of `rows`, or the last where the first is
/// selected.
pub open spec fn entry_above(selected: int, rows: int) -> int {
    if selected == 0 {
        if rows == 0 {
            0
        } else {
            rows - 1
        }
    } else {
        selected - 1
    }
}

/// The entry below the selected one of `rows`, or the first where the last is
/// selected.
pub open spec fn entry_below(selected: int, rows: int) -> int {
    if rows == 0 {
        0
    } else {
        (selected + 1) % rows
    }
}

/// The entry that is selected after a key that does not end the display.
pub open spec fn selection_after(selected: int, rows: int, code: KeyCode) -> int {
    match code {
        KeyCode::Up => entry_above(selected, rows),
        KeyCode::Down => entry_below(selected, rows),
        _ => selected,
    }
}

/// Computes the entry that is selected after a key that does not end the
/// display.
pub fn select(selected: usize, rows: usize, code: KeyCode) -> (next: usize)
    requires
        code is Down && rows > 0 ==> selected < usize::MAX,
    ensures
        next == selection_after(selected as int, rows as int, code),
        code == KeyCode::Up && selected > 0 ==> next == selected - 1,
        code == KeyCode::Up && selected == 0 && rows > 0 ==> next == rows - 1,
        code == KeyCode::Down && selected + 1 < rows ==> next == selected + 1,
        code == KeyCode::Down && selected + 1 == rows ==> next == 0,
        code == KeyCode::Down && rows > 0 ==> next == (selected + 1) % rows as int,
        (code == KeyCode::Up || code == KeyCode::Down) && selected == 0 && rows == 0 ==> next == 0,
        code != KeyCode::Up && code != KeyCode::Down ==> next == selected,
{
    proof {
        law_keys_move_by_one_entry(selected as int, rows as int, code);
    }
    match code {
        KeyCode::Up => {
            if selected == 0 {
                rows.saturating_sub(1)
            } else {
                selected - 1
            }
        },
        KeyCode::Down => {
            if rows == 0 {
                0
            } else {
                (selected + 1) % rows
            }
        },
        _ => selected,
    }
}

/// A key leaves an existing entry selected.
pub proof fn law_selection_stays_on_an_entry(selected: int, rows: int, code: KeyCode)
    requires
        0 <= selected < rows,
    ensures
        0 <= selection_after(selected, rows, code) < rows,
{
    vstd::arithmetic::div_mod::lemma_mod_bound(selected + 1, rows);
}

/// Going up undoes going down, and the other way round.
pub proof fn law_up_and_down_undo_each_other(selected: int, rows: int)
    requires
        0 <= selected < rows,
    ensures
        entry_above(entry_below(selected, rows), rows) == selected,
        entry_below(entry_above(selected, rows), rows) == selected,
{
    if selected + 1 < rows {
        vstd::arithmetic::div_mod::lemma_small_mod((selected + 1) as nat, rows as nat);
    } else {
        vstd::arithmetic::div_mod::lemma_mod_self_0(rows);
    }
    if selected == 0 {
        vstd::arithmetic::div_mod::lemma_mod_self_0(rows);
    } else {
        vstd::arithmetic::div_mod::lemma_small_mod(selected as nat, rows as nat);
    }
}

/// The display ends with escape, with `q`, and with `c` while control is held, and
/// with no other key.
pub proof fn law_quitting_keys(key: KeyPress)
    ensures
        key.quits() <==> key.code == KeyCode::Esc || key.code == KeyCode::Char('q') || (key.control
            && key.code == KeyCode::Char('c')),
{
}

/// Up goes to the entry before and from the first entry to the last; down goes to the
/// entry after and from the last entry to the first; other keys leave the selection
/// where it is. Where there are no entries, the first stays selected.
pub proof fn law_keys_move_by_one_entry(selected: int, rows: int, code: KeyCode)
    requires
        0 <= selected,
        0 <= rows,
    ensures
        code == KeyCode::Up && selected > 0 ==> selection_after(selected, rows, code) == selected
            - 1,
        code == KeyCode::Up && selected == 0 && rows > 0 ==> selection_after(selected, rows, code)
            == rows - 1,
        code == KeyCode::Down && selected + 1 < rows ==> selection_after(selected, rows, code)
            == selected + 1,
        code == KeyCode::Down && selected + 1 == rows ==> selection_after(selected, rows, code)
            == 0,
        code == KeyCode::Down && rows > 0 ==> selection_after(selected, rows, code) == (selected
            + 1) % rows,
        (code == KeyCode::Up || code == KeyCode::Down) && selected == 0 && rows == 0
            ==> selection_after(selected, rows, code) == 0,
        code != KeyCode::Up && code != KeyCode::Down ==> selection_after(selected, rows, code)
            == selected,
{
    if selected + 1 < rows {
        vstd::arithmetic::div_mod::lemma_small_mod((selected + 1) as nat, rows as nat);
    } else if selected + 1 == rows {
        vstd::arithmetic::div_mod::lemma_mod_self_0(rows);
    }
}

} // verus!
