//! The custom-pizza composition sub-flow: one quantity counter per catalog
//! topping, a selection over the topping rows plus the checkout, clear and
//! back rows, and transitions on the same input events as the menus. The
//! running total is never stored: it is recomputed from the quantities on
//! every render.

use vstd::prelude::*;

use crate::input::{InputEvent, InputEventModel};
use crate::strutil::{dec_chars, push_char, u64_to_string};
use crate::table::{Align, CellModel, Table, TableCell, TableRow};
use crate::table_menu::TableMenu;
use crate::types::{catalog_view, Topping, ToppingModel};

verus! {

/// What the surrounding loop must do after one sub-flow transition.
#[derive(Debug, Clone, Copy, PartialEq, Eq, Structural)]
pub enum CustomAction {
    /// Stay in the sub-flow and re-render.
    Stay,
    /// Compute the total, format the record and send it; on a send failure
    /// queue the record as a fallback. Then leave the sub-flow.
    Checkout,
    /// Abandon the sub-flow with no side effects.
    Back,
}

/// The sub-flow's local state.
pub struct CustomFlow {
    pub base_price: u32,
    pub toppings: Vec<Topping>,
    pub quantities: Vec<u32>,
    pub selected_row: usize,
}

impl CustomFlow {
    /// The sub-flow's standing shape: one counter per topping and the
    /// selection within the topping rows plus the three action rows.
    pub open spec fn wf(&self) -> bool {
        &&& self.quantities@.len() == self.toppings@.len()
        &&& (self.selected_row as int) < self.toppings@.len() + 3
        &&& self.toppings@.len() + 3 <= usize::MAX
    }

    /// A fresh sub-flow over the catalog: all counters at zero, the first
    /// row selected.
    pub fn new(toppings: Vec<Topping>, base_price: u32) -> (r: CustomFlow)
        requires
            toppings@.len() + 3 <= usize::MAX,
        ensures
            r.wf(),
            r.base_price == base_price,
            r.toppings == toppings,
            r.quantities@.len() == toppings@.len(),
            forall|i: int| 0 <= i < r.quantities@.len() ==> r.quantities@[i] == 0u32,
            r.selected_row == 0,
    {
        let n: usize = toppings.len();
        let mut quantities: Vec<u32> = Vec::new();
        let mut i: usize = 0;
        while i < n
            invariant
                i <= n,
                quantities@.len() == i,
                forall|j: int| 0 <= j < i ==> quantities@[j] == 0u32,
            decreases n - i,
        {
            quantities.push(0);
            i = i + 1;
        }
        CustomFlow { base_price, toppings, quantities, selected_row: 0 }
    }

    /// One sub-flow transition. Up and down wrap over all rows; left lowers
    /// the selected topping's counter with a floor at zero; enter raises it
    /// (held at the counter type's top rather than overflowing), checks out,
    /// clears every counter, or goes back; a back event abandons the flow.
    /// Everything else only re-renders.
    pub fn update(&mut self, input: InputEvent) -> (r: CustomAction)
        requires
            old(self).wf(),
        ensures
            final(self).wf(),
            final(self).base_price == old(self).base_price,
            final(self).toppings == old(self).toppings,
            ({
                let n = old(self).toppings@.len() as int;
                let sel = old(self).selected_row as int;
                match input@ {
                    InputEventModel::Up => r == CustomAction::Stay && final(self).quantities == old(self).quantities && final(self).selected_row as int == (if sel > 0 {
                        sel - 1
                    } else {
                        n + 2
                    }),
                    InputEventModel::Down => r == CustomAction::Stay && final(self).quantities
                        == old(self).quantities && final(self).selected_row as int == (if sel < n
                        + 2 {
                        sel + 1
                    } else {
                        0
                    }),
                    InputEventModel::Left => r == CustomAction::Stay && final(self).selected_row
                        == old(self).selected_row && final(self).quantities@ == (if sel < n && old(self).quantities@[sel] > 0 {
                        old(self).quantities@.update(
                            sel,
                            (old(self).quantities@[sel] - 1) as u32,
                        )
                    } else {
                        old(self).quantities@
                    }),
                    InputEventModel::Back => r == CustomAction::Back && final(self).quantities
                        == old(self).quantities && final(self).selected_row == old(self).selected_row,
                    InputEventModel::Enter => {
                        if sel < n {
                            r == CustomAction::Stay && final(self).selected_row == old(self).selected_row && final(self).quantities@ == old(self).quantities@.update(
                                sel,
                                (if old(self).quantities@[sel] < u32::MAX {
                                    (old(self).quantities@[sel] + 1) as u32
                                } else {
                                    u32::MAX
                                }),
                            )
                        } else if sel == n {
                            r == CustomAction::Checkout && final(self).quantities == old(self).quantities && final(self).selected_row == old(self).selected_row
                        } else if sel == n + 1 {
                            r == CustomAction::Stay && final(self).selected_row == old(self).selected_row && final(self).quantities@.len() == old(self).quantities@.len() && (forall|i: int|
                                0 <= i < final(self).quantities@.len() ==> final(self).quantities@[i] == 0u32)
                        } else {
                            r == CustomAction::Back && final(self).quantities == old(self).quantities && final(self).selected_row == old(self).selected_row
                        }
                    },
                    _ => r == CustomAction::Stay && final(self).quantities == old(self).quantities
                        && final(self).selected_row == old(self).selected_row,
                }
            }),
    {
        let n: usize = self.toppings.len();
        match input {
            InputEvent::Up => {
                if self.selected_row > 0 {
                    self.selected_row = self.selected_row - 1;
                } else {
                    self.selected_row = n + 2;
                }
                CustomAction::Stay
            },
            InputEvent::Down => {
                if self.selected_row < n + 2 {
                    self.selected_row = self.selected_row + 1;
                } else {
                    self.selected_row = 0;
                }
                CustomAction::Stay
            },
            InputEvent::Left => {
                let sel = self.selected_row;
                if sel < n && self.quantities[sel] > 0 {
                    let q = self.quantities[sel];
                    self.quantities[sel] = q - 1;
                }
                CustomAction::Stay
            },
            InputEvent::Back => CustomAction::Back,
            InputEvent::Enter => {
                let sel = self.selected_row;
                if sel < n {
                    let q = self.quantities[sel];
                    if q < u32::MAX {
                        self.quantities[sel] = q + 1;
                    }
                    proof {
                        if old(self).quantities@[sel as int] == u32::MAX {
                            assert(self.quantities@ =~= old(self).quantities@.update(
                                sel as int,
                                u32::MAX,
                            ));
                        }
                    }
                    CustomAction::Stay
                } else if sel == n {
                    CustomAction::Checkout
                } else if sel == n + 1 {
                    let mut zeroed: Vec<u32> = Vec::new();
                    let mut i: usize = 0;
                    while i < n
                        invariant
                            i <= n,
                            zeroed@.len() == i,
                            forall|j: int| 0 <= j < i ==> zeroed@[j] == 0u32,
                        decreases n - i,
                    {
                        zeroed.push(0);
                        i = i + 1;
                    }
                    self.quantities = zeroed;
                    CustomAction::Stay
                } else {
                    CustomAction::Back
                }
            },
            _ => CustomAction::Stay,
        }
    }
}

/// One custom-menu topping row: marker, 1-based index, name, right-aligned
/// price, and a right-aligned ` xQ` count (blank when the count is zero).
pub open spec fn custom_topping_row(t: ToppingModel, q: u32, i: int, sel: int) -> Seq<CellModel> {
    seq![
        CellModel {
            text: if i == sel {
                seq!['>']
            } else {
                seq![' ']
            },
            align: Align::Left,
        },
        CellModel { text: dec_chars((i + 1) as nat) + seq![':'], align: Align::Left },
        CellModel { text: t.name, align: Align::Left },
        CellModel { text: dec_chars(t.price as nat) + seq!['.', '0', '0', '$'], align: Align::Right },
        CellModel {
            text: if q > 0 {
                seq![' ', 'x'] + dec_chars(q as nat)
            } else {
                seq![' ']
            },
            align: Align::Right,
        },
    ]
}

/// One custom-menu action row: marker, tag, label, and two blank
/// right-aligned filler cells.
pub open spec fn custom_action_row(tag: Seq<char>, label: Seq<char>, marked: bool) -> Seq<
    CellModel,
> {
    seq![
        CellModel {
            text: if marked {
                seq!['>']
            } else {
                seq![' ']
            },
            align: Align::Left,
        },
        CellModel { text: tag, align: Align::Left },
        CellModel { text: label, align: Align::Left },
        CellModel { text: Seq::<char>::empty(), align: Align::Right },
        CellModel { text: Seq::<char>::empty(), align: Align::Right },
    ]
}

/// The blank separator row between the toppings and the actions.
pub open spec fn custom_spacer_row() -> Seq<CellModel> {
    seq![
        CellModel { text: seq![' '], align: Align::Left },
        CellModel { text: Seq::<char>::empty(), align: Align::Left },
        CellModel { text: Seq::<char>::empty(), align: Align::Left },
        CellModel { text: Seq::<char>::empty(), align: Align::Right },
        CellModel { text: Seq::<char>::empty(), align: Align::Right },
    ]
}

/// The custom menu's rows for the given counters and selection.
pub open spec fn spec_custom_menu_rows(
    av: Seq<ToppingModel>,
    qty: Seq<u32>,
    sel: int,
) -> Seq<Seq<CellModel>> {
    let n = av.len() as int;
    Seq::new(av.len(), |i: int| custom_topping_row(av[i], qty[i], i, sel)).push(
        custom_spacer_row(),
    ).push(custom_action_row(("C")@, ("Checkout")@, sel == n)).push(
        custom_action_row(("CL")@, ("Clear selection")@, sel == n + 1),
    ).push(custom_action_row(("B")@, ("Back")@, sel == n + 2))
}

fn custom_action_row_exec(tag: &str, label: &str, marked: bool) -> (r: TableRow)
    ensures
        r@ == custom_action_row(tag@, label@, marked),
{
    let mut cells: Vec<TableCell> = Vec::new();
    cells.push(TableCell::new(String::from_str(if marked {
        ">"
    } else {
        " "
    })));
    cells.push(TableCell::new(String::from_str(tag)));
    cells.push(TableCell::new(String::from_str(label)));
    cells.push(TableCell::new_with_alignment(String::new(), Align::Right));
    cells.push(TableCell::new_with_alignment(String::new(), Align::Right));
    let r = TableRow::new(cells);
    proof {
        reveal_strlit(">");
        reveal_strlit(" ");
        assert((">")@ =~= seq!['>']);
        assert((" ")@ =~= seq![' ']);
        assert(r@ =~~= custom_action_row(tag@, label@, marked));
    }
    r
}

/// Builds the custom menu: one row per topping with its live count, the
/// spacer, then the checkout, clear and back rows, the marker on the
/// selected row.
pub fn build_custom_menu(toppings: &[Topping], quantities: &[u32], selected_row: usize) -> (r:
    TableMenu)
    requires
        quantities@.len() == toppings@.len(),
        toppings@.len() + 3 <= usize::MAX,
    ensures
        r.title@ == ("Custom Pizza")@,
        r.table@ == spec_custom_menu_rows(
            catalog_view(toppings@),
            quantities@,
            selected_row as int,
        ),
{
    let ghost av = catalog_view(toppings@);
    let ghost sel = selected_row as int;
    let n: usize = toppings.len();
    let mut table = Table::new(Vec::new());
    let mut i: usize = 0;
    proof {
        assert(table@ =~= Seq::new(0, |k: int| custom_topping_row(av[k], quantities@[k], k, sel)));
    }
    while i < n
        invariant
            i <= n,
            n == av.len(),
            av == catalog_view(toppings@),
            quantities@.len() == n,
            sel == selected_row as int,
            table@ == Seq::new(
                i as nat,
                |k: int| custom_topping_row(av[k], quantities@[k], k, sel),
            ),
        decreases n - i,
    {
        let marker: &str = if i == selected_row {
            ">"
        } else {
            " "
        };
        let mut idx_text = u64_to_string((i + 1) as u64);
        push_char(&mut idx_text, ':');
        let mut price_text = u64_to_string(toppings[i].price as u64);
        price_text.append(".00$");
        let q = quantities[i];
        let mut qty_text = String::from_str(" ");
        if q > 0 {
            push_char(&mut qty_text, 'x');
            let digits = u64_to_string(q as u64);
            qty_text.append(digits.as_str());
        }
        let mut cells: Vec<TableCell> = Vec::new();
        cells.push(TableCell::new(String::from_str(marker)));
        cells.push(TableCell::new(idx_text));
        cells.push(TableCell::new(toppings[i].name.clone()));
        cells.push(TableCell::new_with_alignment(price_text, Align::Right));
        cells.push(TableCell::new_with_alignment(qty_text, Align::Right));
        let row = TableRow::new(cells);
        proof {
            reveal_strlit(">");
            reveal_strlit(" ");
            reveal_strlit(".00$");
            assert((">")@ =~= seq!['>']);
            assert((" ")@ =~= seq![' ']);
            assert((".00$")@ =~= seq!['.', '0', '0', '$']);
            assert(row@ =~~= custom_topping_row(av[i as int], quantities@[i as int], i as int, sel));
            assert(table@.push(row@) =~= Seq::new(
                (i + 1) as nat,
                |k: int| custom_topping_row(av[k], quantities@[k], k, sel),
            ));
        }
        table.push(row);
        i = i + 1;
    }
    let mut cells: Vec<TableCell> = Vec::new();
    cells.push(TableCell::new(String::from_str(" ")));
    cells.push(TableCell::new(String::new()));
    cells.push(TableCell::new(String::new()));
    cells.push(TableCell::new_with_alignment(String::new(), Align::Right));
    cells.push(TableCell::new_with_alignment(String::new(), Align::Right));
    let spacer = TableRow::new(cells);
    proof {
        reveal_strlit(" ");
        assert((" ")@ =~= seq![' ']);
        assert(spacer@ =~~= custom_spacer_row());
    }
    table.push(spacer);
    let checkout = custom_action_row_exec("C", "Checkout", selected_row == n);
    table.push(checkout);
    let clear = custom_action_row_exec("CL", "Clear selection", selected_row == n + 1);
    table.push(clear);
    let back = custom_action_row_exec("B", "Back", selected_row == n + 2);
    table.push(back);
    proof {
        assert(table@ =~= spec_custom_menu_rows(av, quantities@, sel));
    }
    TableMenu::new(String::from_str("Custom Pizza"), table)
}

} // verus!
