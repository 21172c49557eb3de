//! Start-up and tray rules: hidden launches, tray menu entries and the
//! macOS App Translocation check.

use vstd::prelude::*;
use crate::text::{starts_with, str_equals};

verus! {

/// What a tray menu entry does.
#[derive(Clone, Copy, PartialEq, Eq, Debug)]
pub enum MenuAction {
    ShowMain,
    Pick,
    Quit,
    Ignore,
}

/// The action of the tray menu entry with id `id`.
pub open spec fn menu_entry_action(id: Seq<char>) -> MenuAction {
    if id == "show"@ {
        MenuAction::ShowMain
    } else if id == "pick"@ {
        MenuAction::Pick
    } else if id == "quit"@ {
        MenuAction::Quit
    } else {
        MenuAction::Ignore
    }
}

/// The action of a tray menu entry.
pub fn menu_action(id: &str) -> (action: MenuAction)
    ensures
        action == menu_entry_action(id@),
{
    if str_equals(id, "show") {
        MenuAction::ShowMain
    } else if str_equals(id, "pick") {
        MenuAction::Pick
    } else if str_equals(id, "quit") {
        MenuAction::Quit
    } else {
        MenuAction::Ignore
    }
}

/// The launch argument that starts the picker in the tray, without its window.
pub open spec fn hidden_flag() -> Seq<char> {
    "--hidden"@
}

/// Whether the program was launched with `--hidden` among its arguments.
pub fn launched_hidden(args: &Vec<String>) -> (hidden: bool)
    ensures
        hidden == exists|i: int| 0 <= i < args@.len() && #[trigger] args@[i]@ == hidden_flag(),
{
    let mut i: usize = 0;
    while i < args.len()
        invariant
            i <= args@.len(),
            forall|j: int| 0 <= j < i ==> #[trigger] args@[j]@ != hidden_flag(),
        decreases args@.len() - i,
    {
        if str_equals(args[i].as_str(), "--hidden") {
            return true;
        }
        i += 1;
    }
    false
}

/// Whether `path` contains `part` somewhere.
pub open spec fn contains_text(path: Seq<char>, part: Seq<char>) -> bool {
    exists|i: int| 0 <= i && i + part.len() <= path.len() && #[trigger] path.subrange(i, i + part.len()) == part
}

/// Whether the executable runs from a macOS App Translocation copy (its path
/// contains `AppTranslocation`), which keeps screen permission from sticking.
pub fn is_translocated_path(path: &str) -> (res: bool)
    ensures
        res == contains_text(path@, "AppTranslocation"@),
{
    let part = "AppTranslocation";
    proof { reveal_strlit("AppTranslocation"); }
    let m = part.unicode_len();
    let n = path.unicode_len();
    if m > n {
        proof {
            assert forall|i: int| 0 <= i && i + part@.len() <= path@.len() implies #[trigger] path@.subrange(i, i + part@.len()) != part@ by {}
        }
        return false;
    }
    let mut i: usize = 0;
    while i <= n - m
        invariant
            part@ == "AppTranslocation"@,
            m == part@.len(),
            m == 16,
            n == path@.len(),
            m <= n,
            i <= n - m + 1,
            forall|j: int| 0 <= j < i ==> #[trigger] path@.subrange(j, j + m) != part@,
        decreases n - i,
    {
        let window = path.substring_char(i, i + m);
        if starts_with(window, part) {
            assert(window@.subrange(0, m as int) =~= window@);
            assert(path@.subrange(i as int, i as int + part@.len()) == part@);
            return true;
        }
        assert(window@.subrange(0, m as int) =~= window@);
        i += 1;
    }
    false
}

} // verus!
