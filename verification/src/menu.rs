//! Which actions a controller offers for a heap: the ones that need a key
//! in the heap are left out while the heap is empty.

use vstd::prelude::*;

verus! {

/// An action of the interactive menu.
#[derive(Debug, Clone, Copy, PartialEq, Eq, Structural)]
pub enum MenuAction {
    /// Show the heap level by level.
    Print,
    /// Take out the largest key.
    Extract,
    /// Raise the key at a position.
    Increase,
    /// Take out the key at a position.
    Delete,
    /// Add a key.
    Insert,
    /// Replace the heap by one built from a key list.
    Load,
    /// Leave.
    Quit,
}

/// The menu, in the order in which it is shown.
pub open spec fn menu_for(heap_is_empty: bool) -> Seq<MenuAction> {
    if heap_is_empty {
        seq![MenuAction::Insert, MenuAction::Load, MenuAction::Quit]
    } else {
        seq![
            MenuAction::Print,
            MenuAction::Extract,
            MenuAction::Increase,
            MenuAction::Delete,
            MenuAction::Insert,
            MenuAction::Load,
            MenuAction::Quit,
        ]
    }
}

/// The actions to offer, in the order in which they are shown.
pub fn menu_actions(heap_is_empty: bool) -> (actions: Vec<MenuAction>)
    ensures
        actions@ == menu_for(heap_is_empty),
{
    let mut actions: Vec<MenuAction> = Vec::new();
    if !heap_is_empty {
        actions.push(MenuAction::Print);
        actions.push(MenuAction::Extract);
        actions.push(MenuAction::Increase);
        actions.push(MenuAction::Delete);
    }
    actions.push(MenuAction::Insert);
    actions.push(MenuAction::Load);
    actions.push(MenuAction::Quit);
    assert(actions@ =~= menu_for(heap_is_empty));
    actions
}

} // verus!
