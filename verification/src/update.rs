//! The menu state machine: how one input event moves the state, and which
//! outside action — a fetch, a dialog, a send — the surrounding loop must
//! perform next. The decisions are all here; the I/O they call for is the
//! caller's.

use vstd::prelude::*;

use crate::input::{InputEvent, InputEventModel};
use crate::state::{marked_table, menus_marked, MenuIndex, State};

verus! {

/// What the surrounding loop must do after a transition.
#[derive(Debug, Clone, Copy, PartialEq, Eq, Structural)]
pub enum Action {
    /// Nothing beyond re-rendering.
    Nothing,
    /// Fetch the catalogs and hand them to `State::refresh_order_menu`.
    RefreshOrderMenu,
    /// Start the custom-pizza composition sub-flow.
    EnterCustomFlow,
    /// Send a transaction for the prebuilt pizza at this index; on a send
    /// failure, queue the formatted record as a fallback.
    OrderPizza { index: usize },
    /// Tell the user the selection was not orderable; nothing else.
    InvalidSelection,
    /// Run the add-topping dialog.
    AddToppingDialog,
    /// Run the remove-topping dialog.
    RemoveToppingDialog,
    /// List the current toppings read-only.
    ListToppings,
    /// Ask for confirmation, then clear the topping store.
    ClearToppingsConfirm,
}

/// The selection one step up, wrapping from row 0 to the last row.
pub open spec fn nav_up(sel: int, len: int) -> int {
    if sel > 0 {
        sel - 1
    } else {
        len - 1
    }
}

/// The selection one step down, wrapping from the last row to row 0.
pub open spec fn nav_down(sel: int, len: int) -> int {
    if sel + 1 < len {
        sel + 1
    } else {
        0
    }
}

/// Everything about the state except menus, current menu and selections.
pub open spec fn same_catalogs(pre: State, post: State) -> bool {
    &&& post.toppings_catalog == pre.toppings_catalog
    &&& post.prebuilt_pizzas == pre.prebuilt_pizzas
    &&& post.pending_fallbacks == pre.pending_fallbacks
}

/// The state after only a navigation move on the active menu: the selection
/// stepped, the marker redrawn, everything else kept.
pub open spec fn nav_step(pre: State, post: State, new_sel: int) -> bool {
    let idx = pre.current_menu.spec_index();
    &&& same_catalogs(pre, post)
    &&& post.current_menu == pre.current_menu
    &&& post.selected_rows@ == pre.selected_rows@.update(idx, new_sel as usize)
    &&& post.menus@.len() == 3
    &&& forall|j: int| 0 <= j < 3 && j != idx ==> post.menus@[j] == pre.menus@[j]
    &&& post.menus@[idx].title == pre.menus@[idx].title
    &&& post.menus@[idx].table@ == marked_table(pre.menus@[idx].table@, new_sel)
}

/// The state after a transition that only redraws the marker in place.
pub open spec fn marker_step(pre: State, post: State) -> bool {
    &&& same_catalogs(pre, post)
    &&& post.current_menu == pre.current_menu
    &&& post.selected_rows == pre.selected_rows
    &&& menus_marked(pre, post)
}

/// The state after switching to another menu: the target menu's retained
/// selection stays, its marker is redrawn, everything else is kept.
pub open spec fn switch_step(pre: State, post: State, target: MenuIndex) -> bool {
    let idx = target.spec_index();
    let sel = pre.selected_rows@[idx] as int;
    &&& same_catalogs(pre, post)
    &&& post.current_menu == target
    &&& post.selected_rows == pre.selected_rows
    &&& post.menus@.len() == 3
    &&& forall|j: int| 0 <= j < 3 && j != idx ==> post.menus@[j] == pre.menus@[j]
    &&& post.menus@[idx].title == pre.menus@[idx].title
    &&& post.menus@[idx].table@ == marked_table(pre.menus@[idx].table@, sel)
}

/// One transition of the main menu: wraparound navigation; enter opens the
/// order menu (behind a refresh), the edit menu, or quits.
pub open spec fn main_menu_step(
    pre: State,
    input: InputEventModel,
    post: State,
    exit: bool,
    action: Action,
) -> bool {
    let len = pre.menus@[0].table@.len() as int;
    let sel = pre.selected_rows@[0] as int;
    match input {
        InputEventModel::Up => exit == false && action == Action::Nothing && nav_step(
            pre,
            post,
            nav_up(sel, len),
        ),
        InputEventModel::Down => exit == false && action == Action::Nothing && nav_step(
            pre,
            post,
            nav_down(sel, len),
        ),
        InputEventModel::Enter => {
            if sel == 0 {
                exit == false && action == Action::RefreshOrderMenu && switch_step(
                    pre,
                    post,
                    MenuIndex::OrderMenu,
                )
            } else if sel == 1 {
                exit == false && action == Action::Nothing && switch_step(
                    pre,
                    post,
                    MenuIndex::EditToppingsMenu,
                )
            } else {
                exit == true && action == Action::Nothing && post == pre
            }
        },
        _ => exit == false && action == Action::Nothing && marker_step(pre, post),
    }
}

/// One transition of the order menu: wraparound navigation; back returns to
/// the main menu; enter orders the selected pizza, opens the custom flow on
/// the trailing row, or reports an unusable selection.
pub open spec fn order_menu_step(
    pre: State,
    input: InputEventModel,
    post: State,
    exit: bool,
    action: Action,
) -> bool {
    let len = pre.menus@[1].table@.len() as int;
    let sel = pre.selected_rows@[1] as int;
    let npizzas = pre.prebuilt_pizzas@.len() as int;
    match input {
        InputEventModel::Up => exit == false && action == Action::Nothing && nav_step(
            pre,
            post,
            nav_up(sel, len),
        ),
        InputEventModel::Down => exit == false && action == Action::Nothing && nav_step(
            pre,
            post,
            nav_down(sel, len),
        ),
        InputEventModel::Back => exit == false && action == Action::Nothing && switch_step(
            pre,
            post,
            MenuIndex::MainMenu,
        ),
        InputEventModel::Enter => {
            exit == false && marker_step(pre, post) && action == (if sel == npizzas {
                Action::EnterCustomFlow
            } else if sel < npizzas {
                Action::OrderPizza { index: sel as usize }
            } else {
                Action::InvalidSelection
            })
        },
        _ => exit == false && action == Action::Nothing && marker_step(pre, post),
    }
}

/// One transition of the edit-toppings menu: wraparound navigation; back
/// returns to the main menu; enter picks one of the four dialogs.
pub open spec fn edit_menu_step(
    pre: State,
    input: InputEventModel,
    post: State,
    exit: bool,
    action: Action,
) -> bool {
    let len = pre.menus@[2].table@.len() as int;
    let sel = pre.selected_rows@[2] as int;
    match input {
        InputEventModel::Up => exit == false && action == Action::Nothing && nav_step(
            pre,
            post,
            nav_up(sel, len),
        ),
        InputEventModel::Down => exit == false && action == Action::Nothing && nav_step(
            pre,
            post,
            nav_down(sel, len),
        ),
        InputEventModel::Back => exit == false && action == Action::Nothing && switch_step(
            pre,
            post,
            MenuIndex::MainMenu,
        ),
        InputEventModel::Enter => {
            exit == false && marker_step(pre, post) && action == (if sel == 0 {
                Action::AddToppingDialog
            } else if sel == 1 {
                Action::RemoveToppingDialog
            } else if sel == 2 {
                Action::ListToppings
            } else {
                Action::ClearToppingsConfirm
            })
        },
        _ => exit == false && action == Action::Nothing && marker_step(pre, post),
    }
}

fn nav_up_exec(state: &mut State)
    requires
        old(state).wf(),
    ensures
        final(state).wf(),
        nav_step(
            *old(state),
            *final(state),
            nav_up(
                old(state).selected_rows@[old(state).current_menu.spec_index()] as int,
                old(state).menus@[old(state).current_menu.spec_index()].table@.len() as int,
            ),
        ),
        final(state).current_menu == old(state).current_menu,
{
    let idx = state.current_menu.as_index();
    let length = state.menus[idx].table.rows.len();
    let sel_row = state.selected_row();
    if sel_row > 0 {
        state.set_selected_row(sel_row - 1);
    } else {
        state.set_selected_row(length - 1);
    }
    state.apply_selection_marker();
    proof {
        assert(final(state).selected_rows@ =~= old(state).selected_rows@.update(
            old(state).current_menu.spec_index(),
            (nav_up(
                old(state).selected_rows@[old(state).current_menu.spec_index()] as int,
                old(state).menus@[old(state).current_menu.spec_index()].table@.len() as int,
            )) as usize,
        ));
    }
}

fn nav_down_exec(state: &mut State)
    requires
        old(state).wf(),
    ensures
        final(state).wf(),
        nav_step(
            *old(state),
            *final(state),
            nav_down(
                old(state).selected_rows@[old(state).current_menu.spec_index()] as int,
                old(state).menus@[old(state).current_menu.spec_index()].table@.len() as int,
            ),
        ),
        final(state).current_menu == old(state).current_menu,
{
    let idx = state.current_menu.as_index();
    let length = state.menus[idx].table.rows.len();
    let sel_row = state.selected_row();
    if sel_row + 1 < length {
        state.set_selected_row(sel_row + 1);
    } else {
        state.set_selected_row(0);
    }
    state.apply_selection_marker();
    proof {
        assert(final(state).selected_rows@ =~= old(state).selected_rows@.update(
            old(state).current_menu.spec_index(),
            (nav_down(
                old(state).selected_rows@[old(state).current_menu.spec_index()] as int,
                old(state).menus@[old(state).current_menu.spec_index()].table@.len() as int,
            )) as usize,
        ));
    }
}

fn switch_menu(state: &mut State, target: MenuIndex)
    requires
        old(state).wf(),
    ensures
        final(state).wf(),
        switch_step(*old(state), *final(state), target),
{
    state.current_menu = target;
    state.apply_selection_marker();
}

/// One main-menu transition.
pub fn main_menu_update(input: InputEvent, state: &mut State) -> (r: (bool, Action))
    requires
        old(state).wf(),
        old(state).current_menu == MenuIndex::MainMenu,
    ensures
        final(state).wf(),
        main_menu_step(*old(state), input@, *final(state), r.0, r.1),
{
    match input {
        InputEvent::Up => {
            nav_up_exec(state);
            (false, Action::Nothing)
        },
        InputEvent::Down => {
            nav_down_exec(state);
            (false, Action::Nothing)
        },
        InputEvent::Enter => {
            let sel = state.selected_row();
            if sel == 0 {
                switch_menu(state, MenuIndex::OrderMenu);
                (false, Action::RefreshOrderMenu)
            } else if sel == 1 {
                switch_menu(state, MenuIndex::EditToppingsMenu);
                (false, Action::Nothing)
            } else {
                (true, Action::Nothing)
            }
        },
        _ => {
            state.apply_selection_marker();
            (false, Action::Nothing)
        },
    }
}

/// One order-menu transition.
pub fn order_menu_update(input: InputEvent, state: &mut State) -> (r: (bool, Action))
    requires
        old(state).wf(),
        old(state).current_menu == MenuIndex::OrderMenu,
    ensures
        final(state).wf(),
        order_menu_step(*old(state), input@, *final(state), r.0, r.1),
{
    match input {
        InputEvent::Up => {
            nav_up_exec(state);
            (false, Action::Nothing)
        },
        InputEvent::Down => {
            nav_down_exec(state);
            (false, Action::Nothing)
        },
        InputEvent::Back => {
            switch_menu(state, MenuIndex::MainMenu);
            (false, Action::Nothing)
        },
        InputEvent::Enter => {
            let sel = state.selected_row();
            let npizzas = state.prebuilt_pizzas.len();
            let action = if sel == npizzas {
                Action::EnterCustomFlow
            } else if sel < npizzas {
                Action::OrderPizza { index: sel }
            } else {
                Action::InvalidSelection
            };
            state.apply_selection_marker();
            (false, action)
        },
        _ => {
            state.apply_selection_marker();
            (false, Action::Nothing)
        },
    }
}

/// One edit-toppings-menu transition.
pub fn edit_toppings_menu_update(input: InputEvent, state: &mut State) -> (r: (bool, Action))
    requires
        old(state).wf(),
        old(state).current_menu == MenuIndex::EditToppingsMenu,
    ensures
        final(state).wf(),
        edit_menu_step(*old(state), input@, *final(state), r.0, r.1),
{
    match input {
        InputEvent::Up => {
            nav_up_exec(state);
            (false, Action::Nothing)
        },
        InputEvent::Down => {
            nav_down_exec(state);
            (false, Action::Nothing)
        },
        InputEvent::Back => {
            switch_menu(state, MenuIndex::MainMenu);
            (false, Action::Nothing)
        },
        InputEvent::Enter => {
            let sel = state.selected_row();
            let action = if sel == 0 {
                Action::AddToppingDialog
            } else if sel == 1 {
                Action::RemoveToppingDialog
            } else if sel == 2 {
                Action::ListToppings
            } else {
                Action::ClearToppingsConfirm
            };
            state.apply_selection_marker();
            (false, action)
        },
        _ => {
            state.apply_selection_marker();
            (false, Action::Nothing)
        },
    }
}

/// One transition of the whole state machine: the exit event ends the
/// program from any state; every other event goes to the active menu's
/// transition. Returns whether to exit and the action the loop must run.
pub fn update(input: InputEvent, state: &mut State) -> (r: (bool, Action))
    requires
        old(state).wf(),
    ensures
        final(state).wf(),
        input@ == InputEventModel::Exit ==> r.0 == true && r.1 == Action::Nothing && *final(state)
            == *old(state),
        input@ != InputEventModel::Exit ==> match old(state).current_menu {
            MenuIndex::MainMenu => main_menu_step(*old(state), input@, *final(state), r.0, r.1),
            MenuIndex::OrderMenu => order_menu_step(*old(state), input@, *final(state), r.0, r.1),
            MenuIndex::EditToppingsMenu => edit_menu_step(
                *old(state),
                input@,
                *final(state),
                r.0,
                r.1,
            ),
        },
{
    if let InputEvent::Exit = input {
        return (true, Action::Nothing);
    }
    match state.current_menu {
        MenuIndex::MainMenu => main_menu_update(input, state),
        MenuIndex::EditToppingsMenu => edit_toppings_menu_update(input, state),
        MenuIndex::OrderMenu => order_menu_update(input, state),
    }
}

} // verus!
