//! The keys of the editor and what each one does to the state, as a step
//! from state and key to the next state and what the terminal is to do.
use vstd::prelude::*;
use crate::edit::EditRequest;
use crate::model::{wf_state, App, AppV};
use crate::nav::{
    move_down_spec, move_up_spec, next_category_spec, next_value_spec, prev_category_spec,
    prev_value_spec, selected_kind,
};
use crate::text::{chars_eq, chars_of};

verus! {

broadcast use {vstd::string::group_string_axioms, crate::model::lemma_app_view};

/// A key the editor reacts to.
#[derive(PartialEq, Eq, Structural, Clone, Copy, Debug)]
pub enum Key {
    /// `q` or `ESC`.
    Quit,
    /// `j` or `DOWN`.
    Down,
    /// `k` or `UP`.
    Up,
    /// `J` or `PgDOWN`.
    NextCategory,
    /// `K` or `PgUP`.
    PrevCategory,
    /// `l`, `RIGHT` or `TAB`.
    NextValue,
    /// `h`, `LEFT` or `S-TAB`.
    PrevValue,
    /// `ENTER`.
    Edit,
    /// `W` or `s`.
    Save,
    /// The terminal changed size.
    Resize,
    /// Any other key.
    Other,
}

/// What the terminal is to do after a key.
#[derive(PartialEq, Eq, Structural, Clone, Copy, Debug)]
pub enum Action {
    /// Nothing to draw.
    Nothing,
    /// Draw the screen again.
    Redraw,
    /// Ask for a new value of the selected setting (see `App::edit_request`
    /// and `App::apply_edit`), then draw the screen again.
    AskValue,
    /// Ask whether to save before quitting (see `save_on_quit`), then quit.
    AskSave,
    /// Quit.
    Exit,
    /// Write the config file, say so, and draw the screen again.
    SaveAndRedraw,
    /// Lay the panes out for the new terminal size and draw them again.
    Relayout,
}

/// The key that a key name stands for.
pub open spec fn key_spec(name: Seq<char>) -> Key {
    if name == "q"@ || name == "ESC"@ {
        Key::Quit
    } else if name == "j"@ || name == "DOWN"@ {
        Key::Down
    } else if name == "k"@ || name == "UP"@ {
        Key::Up
    } else if name == "J"@ || name == "PgDOWN"@ {
        Key::NextCategory
    } else if name == "K"@ || name == "PgUP"@ {
        Key::PrevCategory
    } else if name == "l"@ || name == "RIGHT"@ || name == "TAB"@ {
        Key::NextValue
    } else if name == "h"@ || name == "LEFT"@ || name == "S-TAB"@ {
        Key::PrevValue
    } else if name == "ENTER"@ {
        Key::Edit
    } else if name == "W"@ || name == "s"@ {
        Key::Save
    } else if name == "RESIZE"@ {
        Key::Resize
    } else {
        Key::Other
    }
}

/// The state after a key, and what the terminal is to do: quitting asks
/// to save only when there are changes; Enter steps the theme selector and
/// toggles and asks for other values; saving clears the modified mark.
pub open spec fn on_key_spec(s: AppV, k: Key) -> (AppV, Action) {
    match k {
        Key::Quit => (s, if s.dirty {
            Action::AskSave
        } else {
            Action::Exit
        }),
        Key::Down => (move_down_spec(s), Action::Redraw),
        Key::Up => (move_up_spec(s), Action::Redraw),
        Key::NextCategory => (next_category_spec(s), Action::Redraw),
        Key::PrevCategory => (prev_category_spec(s), Action::Redraw),
        Key::NextValue => (next_value_spec(s), Action::Redraw),
        Key::PrevValue => (prev_value_spec(s), Action::Redraw),
        Key::Edit => if selected_kind(s) is Theme || selected_kind(s) is Toggle {
            (next_value_spec(s), Action::Redraw)
        } else {
            (s, Action::AskValue)
        },
        Key::Save => (AppV { dirty: false, ..s }, Action::SaveAndRedraw),
        Key::Resize => (s, Action::Relayout),
        Key::Other => (s, Action::Nothing),
    }
}

/// Law: Enter asks for a typed value, and leaves the state as it is, on
/// every setting that takes one (a colour, font size, number, colour list
/// or key binding); on the theme selector and on toggles it does exactly
/// what `l` does.
pub proof fn law_enter_asks_for_typed_values(s: AppV)
    requires
        wf_state(s),
    ensures
        ({
            let k = selected_kind(s);
            k is HexColor || k is FontSize || k is Number || k is BgCycle || k is Keybind
        }) ==> on_key_spec(s, Key::Edit) == (s, Action::AskValue),
        (selected_kind(s) is Theme || selected_kind(s) is Toggle) ==> on_key_spec(s, Key::Edit)
            == on_key_spec(s, Key::NextValue),
        on_key_spec(s, Key::Edit).1 is AskValue || on_key_spec(s, Key::Edit).1 is Redraw,
{
}

/// Law: quitting never changes the settings; it asks to save exactly when
/// they were modified. Saving keeps the settings and clears only the
/// modified mark.
pub proof fn law_quit_and_save(s: AppV)
    ensures
        on_key_spec(s, Key::Quit).0 == s,
        on_key_spec(s, Key::Quit).1 == (if s.dirty {
            Action::AskSave
        } else {
            Action::Exit
        }),
        on_key_spec(s, Key::Save).0.cats == s.cats,
        !on_key_spec(s, Key::Save).0.dirty,
{
}

/// Whether the name `v` is the text `lit`.
fn is_name(v: &Vec<char>, lit: &str) -> (r: bool)
    ensures
        r == (v@ == lit@),
{
    chars_eq(v, &chars_of(lit))
}

/// The key that a key name stands for.
pub fn key_of(name: &str) -> (k: Key)
    ensures
        k == key_spec(name@),
{
    let v = chars_of(name);
    if is_name(&v, "q") || is_name(&v, "ESC") {
        Key::Quit
    } else if is_name(&v, "j") || is_name(&v, "DOWN") {
        Key::Down
    } else if is_name(&v, "k") || is_name(&v, "UP") {
        Key::Up
    } else if is_name(&v, "J") || is_name(&v, "PgDOWN") {
        Key::NextCategory
    } else if is_name(&v, "K") || is_name(&v, "PgUP") {
        Key::PrevCategory
    } else if is_name(&v, "l") || is_name(&v, "RIGHT") || is_name(&v, "TAB") {
        Key::NextValue
    } else if is_name(&v, "h") || is_name(&v, "LEFT") || is_name(&v, "S-TAB") {
        Key::PrevValue
    } else if is_name(&v, "ENTER") {
        Key::Edit
    } else if is_name(&v, "W") || is_name(&v, "s") {
        Key::Save
    } else if is_name(&v, "RESIZE") {
        Key::Resize
    } else {
        Key::Other
    }
}

/// Whether quitting saves: only with changes, and only when the answer to
/// the question is `y` or `Y`.
pub fn save_on_quit(dirty: bool, answer: Option<&str>) -> (save: bool)
    ensures
        save == (dirty && (answer matches Some(x) && (x@ == "y"@ || x@ == "Y"@))),
{
    match answer {
        Some(x) => {
            let v = chars_of(x);
            dirty && (is_name(&v, "y") || is_name(&v, "Y"))
        },
        None => false,
    }
}

impl App {
    /// Handles one key: changes the state as the key says and tells the
    /// terminal what to do next.
    pub fn on_key(&mut self, k: Key) -> (a: Action)
        ensures
            (final(self)@, a) == on_key_spec(old(self)@, k),
    {
        match k {
            Key::Quit => {
                if self.dirty() {
                    Action::AskSave
                } else {
                    Action::Exit
                }
            },
            Key::Down => {
                self.move_down();
                Action::Redraw
            },
            Key::Up => {
                self.move_up();
                Action::Redraw
            },
            Key::NextCategory => {
                self.next_category();
                Action::Redraw
            },
            Key::PrevCategory => {
                self.prev_category();
                Action::Redraw
            },
            Key::NextValue => {
                self.next_value();
                Action::Redraw
            },
            Key::PrevValue => {
                self.prev_value();
                Action::Redraw
            },
            Key::Edit => match self.edit_request() {
                EditRequest::Step => {
                    self.next_value();
                    Action::Redraw
                },
                EditRequest::Ask { .. } => Action::AskValue,
            },
            Key::Save => {
                self.mark_saved();
                Action::SaveAndRedraw
            },
            Key::Resize => Action::Relayout,
            Key::Other => Action::Nothing,
        }
    }
}

} // verus!
