//! The menu state machine: a fixed, ordered list of entries and a cursor
//! with wraparound navigation. Completion marks are session-local and only
//! ever move from `false` to `true`.

use vstd::prelude::*;

verus! {

use vstd::arithmetic::div_mod::{lemma_small_mod, lemma_mod_self_0, lemma_add_mod_noop};
use vstd::string::StringExecFns;

/// One selectable line of the menu. Identity is `id`; `id == 0` is the
/// reserved exit entry. Only `completed` ever changes.
pub struct MenuItem {
    pub id: usize,
    pub title: String,
    pub description: String,
    pub completed: bool,
}

/// The menu: a non-empty, fixed list of entries and a cursor into it.
pub struct MenuState {
    pub items: Vec<MenuItem>,
    pub selected: usize,
}

/// The cursor after one step forward, wrapping from the last index to 0.
pub open spec fn next_cursor(c: int, n: int) -> int {
    (c + 1) % n
}

/// The cursor after one step backward, wrapping from 0 to the last index.
pub open spec fn prev_cursor(c: int, n: int) -> int {
    (c + n - 1) % n
}

/// One navigation key.
pub enum Move {
    Forward,
    Backward,
}

/// The cursor reached from `c` over a menu of `n` entries after the given
/// sequence of navigation steps.
pub open spec fn apply_moves(c: int, n: int, moves: Seq<Move>) -> int
    decreases moves.len(),
{
    if moves.len() == 0 {
        c
    } else {
        let c2 = match moves[0] {
            Move::Forward => next_cursor(c, n),
            Move::Backward => prev_cursor(c, n),
        };
        apply_moves(c2, n, moves.drop_first())
    }
}

/// The total displacement of a sequence of steps: 1 per forward step,
/// `n - 1` per backward step (a backward step modulo `n`).
pub open spec fn displacement(n: int, moves: Seq<Move>) -> int
    decreases moves.len(),
{
    if moves.len() == 0 {
        0
    } else {
        (match moves[0] {
            Move::Forward => 1,
            Move::Backward => n - 1,
        }) + displacement(n, moves.drop_first())
    }
}

impl MenuState {
    /// The structural invariant: the entry list is non-empty and the cursor
    /// is a valid index into it.
    pub open spec fn wf(self) -> bool {
        0 < self.items@.len() && self.selected < self.items@.len()
    }

    /// Advances the cursor by one, wrapping from the last index to 0.
    pub fn next(&mut self)
        requires
            old(self).wf(),
        ensures
            final(self).wf(),
            final(self).items@ == old(self).items@,
            final(self).selected == next_cursor(old(self).selected as int, old(self).items@.len() as int),
    {
        let n = self.items.len();
        proof {
            let c = self.selected as int;
            if c + 1 < n {
                lemma_small_mod((c + 1) as nat, n as nat);
            } else {
                lemma_mod_self_0(n as int);
            }
        }
        self.selected = (self.selected + 1) % n;
    }

    /// Moves the cursor back by one, wrapping from 0 to the last index.
    pub fn previous(&mut self)
        requires
            old(self).wf(),
        ensures
            final(self).wf(),
            final(self).items@ == old(self).items@,
            final(self).selected == prev_cursor(old(self).selected as int, old(self).items@.len() as int),
    {
        proof {
            let n = self.items@.len() as int;
            let c = self.selected as int;
            if c > 0 {
                lemma_add_mod_noop(c - 1, n, n);
                lemma_mod_self_0(n);
                lemma_small_mod((c - 1) as nat, n as nat);
                assert((c + n - 1) % n == c - 1);
            } else {
                lemma_small_mod((n - 1) as nat, n as nat);
            }
        }
        if self.selected > 0 {
            self.selected = self.selected - 1;
        } else {
            self.selected = self.items.len() - 1;
        }
    }

    /// Returns the entry under the cursor; total on well-formed states.
    pub fn get_selected(&self) -> (r: &MenuItem)
        requires
            self.wf(),
        ensures
            *r == self.items@[self.selected as int],
    {
        &self.items[self.selected]
    }

    /// Marks the entry under the cursor completed, touching no other entry
    /// and no other field of that entry.
    pub fn set_selected_completed(&mut self)
        requires
            old(self).wf(),
        ensures
            final(self).wf(),
            final(self).selected == old(self).selected,
            final(self).items@.len() == old(self).items@.len(),
            final(self).items@[final(self).selected as int].completed,
            final(self).items@[final(self).selected as int].id == old(self).items@[final(self).selected as int].id,
            final(self).items@[final(self).selected as int].title == old(self).items@[final(self).selected as int].title,
            final(self).items@[final(self).selected as int].description == old(self).items@[
                final(self).selected as int
            ].description,
            forall|i: int|
                0 <= i < final(self).items@.len() && i != final(self).selected
                    ==> final(self).items@[i] == old(self).items@[i],
    {
        let i = self.selected;
        let item = &self.items[i];
        let updated = MenuItem {
            id: item.id,
            title: item.title.clone(),
            description: item.description.clone(),
            completed: true,
        };
        self.items.set(i, updated);
    }
}

/// After a forward step a backward step returns to the start, and the other
/// way round: navigation steps are inverse to each other on every valid
/// cursor.
pub proof fn lemma_nav_inverse(c: int, n: int)
    requires
        0 <= c < n,
    ensures
        prev_cursor(next_cursor(c, n), n) == c,
        next_cursor(prev_cursor(c, n), n) == c,
{
    lemma_mod_self_0(n);
    if c + 1 < n {
        lemma_small_mod((c + 1) as nat, n as nat);
        lemma_add_mod_noop(c, n, n);
        lemma_small_mod(c as nat, n as nat);
        assert(prev_cursor(c + 1, n) == c);
    } else {
        lemma_small_mod((n - 1) as nat, n as nat);
        assert(next_cursor(c, n) == 0);
        assert(prev_cursor(0, n) == n - 1);
    }
    if c > 0 {
        lemma_add_mod_noop(c - 1, n, n);
        lemma_small_mod((c - 1) as nat, n as nat);
        assert(prev_cursor(c, n) == c - 1);
        lemma_small_mod(c as nat, n as nat);
    } else {
        lemma_small_mod((n - 1) as nat, n as nat);
        assert(prev_cursor(0, n) == n - 1);
        assert(next_cursor(n - 1, n) == 0);
    }
}

/// Navigation is plain modular arithmetic: any sequence of steps lands on
/// the start plus the sum of the step displacements, modulo the number of
/// entries.
pub proof fn lemma_moves_are_modular(c: int, n: int, moves: Seq<Move>)
    requires
        0 <= c < n,
    ensures
        apply_moves(c, n, moves) == (c + displacement(n, moves)) % n,
    decreases moves.len(),
{
    if moves.len() == 0 {
        lemma_small_mod(c as nat, n as nat);
    } else {
        let d0: int = match moves[0] {
            Move::Forward => 1,
            Move::Backward => n - 1,
        };
        let c2 = (c + d0) % n;
        lemma_mod_bound_pos(c + d0, n);
        lemma_moves_are_modular(c2, n, moves.drop_first());
        let rest = displacement(n, moves.drop_first());
        lemma_add_mod_noop(c + d0, rest, n);
        lemma_add_mod_noop(c2, rest, n);
        lemma_small_mod(c2 as nat, n as nat);
    }
}

/// Every cursor reached by navigation alone from a valid cursor is again a
/// valid index: selection never leaves the entry list.
pub proof fn lemma_reachable_cursor_in_bounds(c: int, n: int, moves: Seq<Move>)
    requires
        0 <= c < n,
    ensures
        0 <= apply_moves(c, n, moves) < n,
{
    lemma_moves_are_modular(c, n, moves);
    lemma_mod_bound_pos(c + displacement(n, moves), n);
}

proof fn lemma_mod_bound_pos(x: int, n: int)
    requires
        n > 0,
    ensures
        0 <= x % n < n,
{
}

impl MenuState {
    /// Builds the fixed menu of the eight installation steps, the exit entry
    /// last, with the cursor on the first entry and nothing completed.
    pub fn new() -> (r: MenuState)
        ensures
            is_initial_menu(r),
    {
    let mut items: Vec<MenuItem> = Vec::new();
    items.push(
        MenuItem {
            id: 1,
            title: String::from_str("Full Installation"),
            description: String::from_str("Run all installation steps"),
            completed: false,
        },
    );
    items.push(
        MenuItem {
            id: 2,
            title: String::from_str("Install Core Packages"),
            description: String::from_str("Install hyprland, waybar, warp-terminal, etc."),
            completed: false,
        },
    );
    items.push(
        MenuItem {
            id: 3,
            title: String::from_str("Deploy Configuration Files"),
            description: String::from_str("Copy dotfiles to ~/.config"),
            completed: false,
        },
    );
    items.push(
        MenuItem {
            id: 4,
            title: String::from_str("Configure WiFi Powersave"),
            description: String::from_str("Disable WiFi power saving"),
            completed: false,
        },
    );
    items.push(
        MenuItem {
            id: 5,
            title: String::from_str("Setup Waybar Modules"),
            description: String::from_str("Configure WoL and Tailscale"),
            completed: false,
        },
    );
    items.push(
        MenuItem {
            id: 6,
            title: String::from_str("Install Starship Shell"),
            description: String::from_str("Setup starship prompt"),
            completed: false,
        },
    );
    items.push(
        MenuItem {
            id: 7,
            title: String::from_str("Install Optional Programs"),
            description: String::from_str("Install notion, vscodium, whatsdesk"),
            completed: false,
        },
    );
    items.push(
        MenuItem {
            id: 0,
            title: String::from_str("Exit"),
            description: String::from_str("Quit installer"),
            completed: false,
        },
    );
    MenuState { items, selected: 0 }
    }
}

/// The freshly built menu: eight entries, the seven installation steps in
/// order followed by the exit entry, cursor at 0, nothing completed.
pub open spec fn is_initial_menu(s: MenuState) -> bool {
    &&& s.wf()
    &&& s.selected == 0
    &&& s.items@.len() == 8
    &&& forall|i: int| 0 <= i < 8 ==> !s.items@[i].completed
    &&& forall|i: int| 0 <= i < 7 ==> s.items@[i].id == i + 1
    &&& s.items@[7].id == 0
    &&& s.items@[0].title@ == "Full Installation"@
    &&& s.items@[1].title@ == "Install Core Packages"@
    &&& s.items@[2].title@ == "Deploy Configuration Files"@
    &&& s.items@[3].title@ == "Configure WiFi Powersave"@
    &&& s.items@[4].title@ == "Setup Waybar Modules"@
    &&& s.items@[5].title@ == "Install Starship Shell"@
    &&& s.items@[6].title@ == "Install Optional Programs"@
    &&& s.items@[7].title@ == "Exit"@
    &&& s.items@[0].description@ == "Run all installation steps"@
    &&& s.items@[1].description@ == "Install hyprland, waybar, warp-terminal, etc."@
    &&& s.items@[2].description@ == "Copy dotfiles to ~/.config"@
    &&& s.items@[3].description@ == "Disable WiFi power saving"@
    &&& s.items@[4].description@ == "Configure WoL and Tailscale"@
    &&& s.items@[5].description@ == "Setup starship prompt"@
    &&& s.items@[6].description@ == "Install notion, vscodium, whatsdesk"@
    &&& s.items@[7].description@ == "Quit installer"@
}

} // verus!
