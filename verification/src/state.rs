//! The client's whole mutable state: three fixed menu slots, the per-menu
//! selected rows, the loaded catalogs, and the pending transaction
//! fallbacks. Selection is retained per menu and always stays inside its
//! menu's rows; an out-of-range selection is clamped to 0 on refresh.

use vstd::prelude::*;

use crate::strutil::{dec_chars, u64_to_string};
use crate::table::{Align, CellModel, Table, TableCell, TableRow};
use crate::table_menu::TableMenu;
use crate::types::{
    all_totals_fit, pizzas_view, spec_total_price, Pizza, PizzaModel, Topping,
};

verus! {

/// Which menu is active; also the fixed slot index of each menu.
#[derive(Clone, Copy, Debug, PartialEq, Eq, Structural)]
pub enum MenuIndex {
    MainMenu,
    OrderMenu,
    EditToppingsMenu,
}

impl MenuIndex {
    /// The fixed slot a menu occupies.
    pub open spec fn spec_index(&self) -> int {
        match self {
            MenuIndex::MainMenu => 0,
            MenuIndex::OrderMenu => 1,
            MenuIndex::EditToppingsMenu => 2,
        }
    }

    /// The fixed slot a menu occupies.
    pub fn as_index(&self) -> (r: usize)
        ensures
            r as int == self.spec_index(),
            r < 3,
    {
        match self {
            MenuIndex::MainMenu => 0,
            MenuIndex::OrderMenu => 1,
            MenuIndex::EditToppingsMenu => 2,
        }
    }
}

/// The client state threaded through every transition.
pub struct State {
    pub menus: Vec<TableMenu>,
    pub current_menu: MenuIndex,
    pub selected_rows: Vec<usize>,
    pub toppings_catalog: Vec<Topping>,
    pub prebuilt_pizzas: Vec<Pizza>,
    pub pending_fallbacks: Vec<String>,
}

impl State {
    /// The state's standing shape: three menu slots with three retained
    /// selections, every selection inside its menu's rows, every row with
    /// a marker cell, and the fixed menus with their fixed row counts.
    pub open spec fn wf(&self) -> bool {
        &&& self.menus@.len() == 3
        &&& self.selected_rows@.len() == 3
        &&& forall|i: int|
            0 <= i < 3 ==> (#[trigger] self.selected_rows@[i]) < self.menus@[i].table@.len()
        &&& forall|i: int, r: int|
            0 <= i < 3 && 0 <= r < self.menus@[i].table@.len() ==> (#[trigger] self.menus@[i].table@[r]).len()
                >= 1
        &&& self.menus@[0].table@.len() == 3
        &&& self.menus@[2].table@.len() == 4
    }

    /// The active menu.
    pub fn current_menu(&self) -> (r: &TableMenu)
        requires
            self.wf(),
        ensures
            r == self.menus@[self.current_menu.spec_index()],
    {
        let i = self.current_menu.as_index();
        &self.menus[i]
    }

    /// The active menu, for in-place edits.
    pub fn current_menu_mut(&mut self) -> (r: &mut TableMenu)
        requires
            old(self).wf(),
        ensures
            *r == old(self).menus@[old(self).current_menu.spec_index()],
            final(self).menus@ == old(self).menus@.update(
                old(self).current_menu.spec_index(),
                *final(r),
            ),
            final(self).current_menu == old(self).current_menu,
            final(self).selected_rows == old(self).selected_rows,
            final(self).toppings_catalog == old(self).toppings_catalog,
            final(self).prebuilt_pizzas == old(self).prebuilt_pizzas,
            final(self).pending_fallbacks == old(self).pending_fallbacks,
    {
        let i = self.current_menu.as_index();
        &mut self.menus[i]
    }

    /// The active menu's retained selection.
    pub fn selected_row(&self) -> (r: usize)
        requires
            self.wf(),
        ensures
            r == self.selected_rows@[self.current_menu.spec_index()],
            r < self.menus@[self.current_menu.spec_index()].table@.len(),
    {
        let i = self.current_menu.as_index();
        self.selected_rows[i]
    }

    /// Sets the active menu's selection; the new row must be one of the
    /// menu's rows, keeping the selection invariant.
    pub fn set_selected_row(&mut self, row: usize)
        requires
            old(self).wf(),
            row < old(self).menus@[old(self).current_menu.spec_index()].table@.len(),
        ensures
            final(self).wf(),
            final(self).selected_rows@ == old(self).selected_rows@.update(
                old(self).current_menu.spec_index(),
                row,
            ),
            final(self).menus == old(self).menus,
            final(self).current_menu == old(self).current_menu,
            final(self).toppings_catalog == old(self).toppings_catalog,
            final(self).prebuilt_pizzas == old(self).prebuilt_pizzas,
            final(self).pending_fallbacks == old(self).pending_fallbacks,
    {
        let i = self.current_menu.as_index();
        self.selected_rows[i] = row;
    }
}

/// A menu row with its marker cell set or cleared: `>` on the selected
/// row, a space on every other; the cell's alignment stays.
pub open spec fn marked_row(row: Seq<CellModel>, selected: bool) -> Seq<CellModel> {
    row.update(
        0,
        CellModel {
            text: if selected {
                seq!['>']
            } else {
                seq![' ']
            },
            align: row[0].align,
        },
    )
}

/// A table with the selection marker drawn into every row's first cell.
pub open spec fn marked_table(t: Seq<Seq<CellModel>>, sel: int) -> Seq<Seq<CellModel>> {
    Seq::new(t.len(), |i: int| marked_row(t[i], i == sel))
}

/// Rewrites every row's first cell to carry the selection marker: `>` on
/// row `selected_row`, a space on all others.
pub fn select_row(table: &mut Table, selected_row: usize)
    requires
        forall|r: int|
            0 <= r < old(table)@.len() ==> (#[trigger] old(table)@[r]).len() >= 1,
    ensures
        final(table)@ == marked_table(old(table)@, selected_row as int),
{
    let ghost t0 = table@;
    let n: usize = table.rows.len();
    let mut i: usize = 0;
    while i < n
        invariant
            i <= n,
            n == t0.len(),
            table.rows@.len() == n,
            forall|r: int| 0 <= r < n ==> (#[trigger] t0[r]).len() >= 1,
            forall|r: int|
                i <= r < n ==> (#[trigger] table.rows@[r])@ == t0[r],
            forall|r: int|
                0 <= r < i ==> (#[trigger] table.rows@[r])@ == marked_row(
                    t0[r],
                    r == selected_row as int,
                ),
        decreases n - i,
    {
        let marker: char = if i == selected_row {
            '>'
        } else {
            ' '
        };
        let mut text = String::new();
        crate::strutil::push_char(&mut text, marker);
        proof {
            assert(text@ =~= seq![marker]);
        }
        table.rows[i].cells[0].text = text;
        proof {
            assert(table.rows@[i as int]@ =~= marked_row(t0[i as int], i == selected_row as int));
        }
        i = i + 1;
    }
    proof {
        assert(table@ =~= marked_table(t0, selected_row as int));
    }
}

impl State {
    /// Draws the selection marker into the active menu's rows.
    pub fn apply_selection_marker(&mut self)
        requires
            old(self).wf(),
        ensures
            final(self).wf(),
            menus_marked(*old(self), *final(self)),
            final(self).current_menu == old(self).current_menu,
            final(self).selected_rows == old(self).selected_rows,
            final(self).toppings_catalog == old(self).toppings_catalog,
            final(self).prebuilt_pizzas == old(self).prebuilt_pizzas,
            final(self).pending_fallbacks == old(self).pending_fallbacks,
    {
        let sel = self.selected_row();
        let i = self.current_menu.as_index();
        let menu = &mut self.menus[i];
        select_row(&mut menu.table, sel);
        proof {
            assert(self.wf());
        }
    }
}

/// One order-menu row for a pizza: marker slot, 1-based index, name, and
/// the derived total right-aligned as `N.00$`.
pub open spec fn pizza_row(p: PizzaModel, i: int) -> Seq<CellModel> {
    seq![
        CellModel { text: seq![' '], align: Align::Left },
        CellModel { text: dec_chars((i + 1) as nat) + seq![':'], align: Align::Left },
        CellModel { text: p.name, align: Align::Left },
        CellModel {
            text: dec_chars(spec_total_price(p)) + seq!['.', '0', '0', '$'],
            align: Align::Right,
        },
    ]
}

/// The trailing custom-pizza row every order menu ends with.
pub open spec fn custom_pizza_row() -> Seq<CellModel> {
    seq![
        CellModel { text: seq![' '], align: Align::Left },
        CellModel { text: ("C:")@, align: Align::Left },
        CellModel { text: ("Custom Pizza")@, align: Align::Left },
    ]
}

/// The placeholder row shown when no prebuilt pizzas are loaded.
pub open spec fn no_pizzas_row() -> Seq<CellModel> {
    seq![
        CellModel { text: seq![' '], align: Align::Left },
        CellModel { text: ("-")@, align: Align::Left },
        CellModel { text: ("Keine Prebuilt-Pizzen vorhanden")@, align: Align::Left },
    ]
}

/// The order menu's rows: one per pizza (or the placeholder), then the
/// custom row last.
pub open spec fn spec_order_menu_rows(ps: Seq<PizzaModel>) -> Seq<Seq<CellModel>> {
    if ps.len() == 0 {
        seq![no_pizzas_row(), custom_pizza_row()]
    } else {
        Seq::new(ps.len(), |i: int| pizza_row(ps[i], i)).push(custom_pizza_row())
    }
}

/// Builds the order menu from the loaded pizzas: one row per pizza with
/// its derived total, the custom row trailing.
pub fn build_order_menu(prebuilt: &[Pizza]) -> (r: TableMenu)
    requires
        all_totals_fit(pizzas_view(prebuilt@)),
    ensures
        r.title@ == ("Order Menu")@,
        r.table@ == spec_order_menu_rows(pizzas_view(prebuilt@)),
{
    let ghost pv = pizzas_view(prebuilt@);
    let mut table = Table::new(Vec::new());
    proof {
        assert(table@ =~= Seq::<Seq<CellModel>>::empty());
    }
    if prebuilt.is_empty() {
        let mut cells: Vec<TableCell> = Vec::new();
        cells.push(TableCell::new(String::from_str(" ")));
        cells.push(TableCell::new(String::from_str("-")));
        cells.push(TableCell::new(String::from_str("Keine Prebuilt-Pizzen vorhanden")));
        let row = TableRow::new(cells);
        proof {
            reveal_strlit(" ");
            assert((" ")@ =~= seq![' ']);
            assert(row@ =~~= no_pizzas_row());
        }
        table.push(row);
    } else {
        let n: usize = prebuilt.len();
        let mut i: usize = 0;
        proof {
            assert(table@ =~= Seq::new(0, |k: int| pizza_row(pv[k], k)));
        }
        while i < n
            invariant
                i <= n,
                n == pv.len(),
                pv == pizzas_view(prebuilt@),
                all_totals_fit(pv),
                table@ == Seq::new(i as nat, |k: int| pizza_row(pv[k], k)),
            decreases n - i,
        {
            let p = &prebuilt[i];
            proof {
                assert(pv[i as int] == p@);
                assert(spec_total_price(pv[i as int]) <= u32::MAX);
            }
            let mut idx_text = u64_to_string((i + 1) as u64);
            crate::strutil::push_char(&mut idx_text, ':');
            let mut total_text = u64_to_string(p.total_price() as u64);
            total_text.append(".00$");
            let mut cells: Vec<TableCell> = Vec::new();
            cells.push(TableCell::new(String::from_str(" ")));
            cells.push(TableCell::new(idx_text));
            cells.push(TableCell::new(p.name.clone()));
            cells.push(TableCell::new_with_alignment(total_text, Align::Right));
            let row = TableRow::new(cells);
            proof {
                reveal_strlit(" ");
                reveal_strlit(".00$");
                assert((" ")@ =~= seq![' ']);
                assert((".00$")@ =~= seq!['.', '0', '0', '$']);
                assert(row@ =~~= pizza_row(pv[i as int], i as int));
                assert(table@.push(row@) =~= Seq::new((i + 1) as nat, |k: int| pizza_row(pv[k], k)));
            }
            table.push(row);
            i = i + 1;
        }
    }
    let mut cells: Vec<TableCell> = Vec::new();
    cells.push(TableCell::new(String::from_str(" ")));
    cells.push(TableCell::new(String::from_str("C:")));
    cells.push(TableCell::new(String::from_str("Custom Pizza")));
    let row = TableRow::new(cells);
    proof {
        reveal_strlit(" ");
        assert((" ")@ =~= seq![' ']);
        assert(row@ =~~= custom_pizza_row());
        assert(table@.push(row@) =~= spec_order_menu_rows(pv));
    }
    table.push(row);
    TableMenu::new(String::from_str("Order Menu"), table)
}

/// The three rows of the order menu shown when the catalog load failed:
/// the failure notice, the load error's own text, and the hint line.
pub open spec fn spec_order_menu_error_rows(err_msg: Seq<char>) -> Seq<Seq<CellModel>> {
    seq![
        seq![
            CellModel { text: seq![' '], align: Align::Left },
            CellModel { text: ("! ")@, align: Align::Left },
            CellModel { text: ("Fehler beim Laden der Prebuilt-Pizzen:")@, align: Align::Left },
        ],
        seq![
            CellModel { text: seq![' '], align: Align::Left },
            CellModel { text: seq![' '], align: Align::Left },
            CellModel { text: err_msg, align: Align::Left },
        ],
        seq![
            CellModel { text: seq![' '], align: Align::Left },
            CellModel { text: ("=>")@, align: Align::Left },
            CellModel { text: ("Bitte 'pizza_prebuilds_text' korrigieren.")@, align: Align::Left },
        ],
    ]
}

/// Builds the order menu shown in place of a catalog that failed to load.
pub fn build_order_menu_error(err_msg: &str) -> (r: TableMenu)
    ensures
        r.title@ == ("Order Menu (Fehler)")@,
        r.table@ == spec_order_menu_error_rows(err_msg@),
{
    let mut table = Table::new(Vec::new());
    proof {
        assert(table@ =~= Seq::<Seq<CellModel>>::empty());
    }
    let mut cells: Vec<TableCell> = Vec::new();
    cells.push(TableCell::new(String::from_str(" ")));
    cells.push(TableCell::new(String::from_str("! ")));
    cells.push(TableCell::new(String::from_str("Fehler beim Laden der Prebuilt-Pizzen:")));
    let row0 = TableRow::new(cells);
    let mut cells: Vec<TableCell> = Vec::new();
    cells.push(TableCell::new(String::from_str(" ")));
    cells.push(TableCell::new(String::from_str(" ")));
    cells.push(TableCell::new(String::from_str(err_msg)));
    let row1 = TableRow::new(cells);
    let mut cells: Vec<TableCell> = Vec::new();
    cells.push(TableCell::new(String::from_str(" ")));
    cells.push(TableCell::new(String::from_str("=>")));
    cells.push(TableCell::new(String::from_str("Bitte 'pizza_prebuilds_text' korrigieren.")));
    let row2 = TableRow::new(cells);
    proof {
        reveal_strlit(" ");
        assert((" ")@ =~= seq![' ']);
        assert(row0@ =~~= spec_order_menu_error_rows(err_msg@)[0]);
        assert(row1@ =~~= spec_order_menu_error_rows(err_msg@)[1]);
        assert(row2@ =~~= spec_order_menu_error_rows(err_msg@)[2]);
    }
    table.push(row0);
    table.push(row1);
    table.push(row2);
    proof {
        assert(table@ =~= spec_order_menu_error_rows(err_msg@));
    }
    TableMenu::new(String::from_str("Order Menu (Fehler)"), table)
}

/// The fixed main menu rows, marker on row 0.
pub open spec fn main_menu_rows() -> Seq<Seq<CellModel>> {
    seq![
        seq![
            CellModel { text: (">")@, align: Align::Left },
            CellModel { text: ("1:")@, align: Align::Left },
            CellModel { text: ("Order Pizza")@, align: Align::Left },
        ],
        seq![
            CellModel { text: (" ")@, align: Align::Left },
            CellModel { text: ("2:")@, align: Align::Left },
            CellModel { text: ("Edit Toppings")@, align: Align::Left },
        ],
        seq![
            CellModel { text: (" ")@, align: Align::Left },
            CellModel { text: ("3:")@, align: Align::Left },
            CellModel { text: ("Quit")@, align: Align::Left },
        ],
    ]
}

/// The fixed edit-toppings menu rows, marker on row 0.
pub open spec fn edit_menu_rows() -> Seq<Seq<CellModel>> {
    seq![
        seq![
            CellModel { text: (">")@, align: Align::Left },
            CellModel { text: ("A:")@, align: Align::Left },
            CellModel { text: ("Add Pizza-Topping")@, align: Align::Left },
        ],
        seq![
            CellModel { text: (" ")@, align: Align::Left },
            CellModel { text: ("R:")@, align: Align::Left },
            CellModel { text: ("Remove Pizza-Topping")@, align: Align::Left },
        ],
        seq![
            CellModel { text: (" ")@, align: Align::Left },
            CellModel { text: ("T:")@, align: Align::Left },
            CellModel { text: ("Show Topping-List")@, align: Align::Left },
        ],
        seq![
            CellModel { text: (" ")@, align: Align::Left },
            CellModel { text: ("D:")@, align: Align::Left },
            CellModel { text: ("Delete-List")@, align: Align::Left },
        ],
    ]
}

fn three_cell_row(a: &str, b: &str, c: &str) -> (r: TableRow)
    ensures
        r@ == seq![
            CellModel { text: a@, align: Align::Left },
            CellModel { text: b@, align: Align::Left },
            CellModel { text: c@, align: Align::Left },
        ],
{
    let mut cells: Vec<TableCell> = Vec::new();
    cells.push(TableCell::new(String::from_str(a)));
    cells.push(TableCell::new(String::from_str(b)));
    cells.push(TableCell::new(String::from_str(c)));
    let r = TableRow::new(cells);
    proof {
        assert(r@ =~~= seq![
            CellModel { text: a@, align: Align::Left },
            CellModel { text: b@, align: Align::Left },
            CellModel { text: c@, align: Align::Left },
        ]);
    }
    r
}

/// Whether the freshly loaded pizzas (or the load error) gave the order
/// menu that [`create_initial_state`] and `refresh_order_menu` install.
pub open spec fn order_menu_for(
    title: Seq<char>,
    rows: Seq<Seq<CellModel>>,
    pizzas: Result<Vec<Pizza>, String>,
) -> bool {
    match pizzas {
        Ok(ps) => title == ("Order Menu")@ && rows == spec_order_menu_rows(pizzas_view(ps@)),
        Err(msg) => title == ("Order Menu (Fehler)")@ && rows == spec_order_menu_error_rows(msg@),
    }
}

/// Every row of the order menu has at least a marker cell.
proof fn lemma_order_menu_rows_shape(ps: Seq<PizzaModel>)
    ensures
        spec_order_menu_rows(ps).len() >= 2,
        forall|r: int|
            0 <= r < spec_order_menu_rows(ps).len() ==> (#[trigger] spec_order_menu_rows(
                ps,
            )[r]).len() >= 3,
{
    let rows = spec_order_menu_rows(ps);
    assert forall|r: int| 0 <= r < rows.len() implies (#[trigger] rows[r]).len() >= 3 by {
        if ps.len() == 0 {
            assert(rows[r].len() >= 3);
        } else {
            if r < ps.len() {
                assert(rows[r] == pizza_row(ps[r], r));
            } else {
                assert(rows[r] == custom_pizza_row());
            }
        }
    }
}

/// Builds the starting state: the fixed main and edit menus, the order
/// menu from the loaded pizzas or the load error, the main menu active,
/// every selection on row 0, and nothing pending.
pub fn create_initial_state(
    toppings_catalog: Vec<Topping>,
    pizzas: Result<Vec<Pizza>, String>,
) -> (r: State)
    requires
        pizzas is Ok ==> all_totals_fit(pizzas_view(pizzas->Ok_0@)),
    ensures
        r.wf(),
        r.current_menu == MenuIndex::MainMenu,
        r.selected_rows@ == seq![0usize, 0usize, 0usize],
        r.toppings_catalog == toppings_catalog,
        r.pending_fallbacks@.len() == 0,
        r.menus@[0].title@ == ("Welcome to Salvatores Pizza!")@,
        r.menus@[0].table@ == main_menu_rows(),
        order_menu_for(r.menus@[1].title@, r.menus@[1].table@, pizzas),
        r.prebuilt_pizzas@ == (match pizzas {
            Ok(ps) => ps@,
            Err(_) => Seq::<Pizza>::empty(),
        }),
        r.menus@[2].title@ == ("Edit Toppings Menu")@,
        r.menus@[2].table@ == edit_menu_rows(),
{
    let mut main_rows: Vec<TableRow> = Vec::new();
    main_rows.push(three_cell_row(">", "1:", "Order Pizza"));
    main_rows.push(three_cell_row(" ", "2:", "Edit Toppings"));
    main_rows.push(three_cell_row(" ", "3:", "Quit"));
    let main_menu = TableMenu::new(
        String::from_str("Welcome to Salvatores Pizza!"),
        Table::new(main_rows),
    );
    proof {
        assert(main_menu.table@ =~= main_menu_rows());
    }
    let mut edit_rows: Vec<TableRow> = Vec::new();
    edit_rows.push(three_cell_row(">", "A:", "Add Pizza-Topping"));
    edit_rows.push(three_cell_row(" ", "R:", "Remove Pizza-Topping"));
    edit_rows.push(three_cell_row(" ", "T:", "Show Topping-List"));
    edit_rows.push(three_cell_row(" ", "D:", "Delete-List"));
    let edit_menu = TableMenu::new(String::from_str("Edit Toppings Menu"), Table::new(edit_rows));
    proof {
        assert(edit_menu.table@ =~= edit_menu_rows());
    }
    let (prebuilt_pizzas, order_menu): (Vec<Pizza>, TableMenu) = match pizzas {
        Ok(ps) => {
            let menu = build_order_menu(ps.as_slice());
            proof {
                lemma_order_menu_rows_shape(pizzas_view(ps@));
            }
            (ps, menu)
        },
        Err(msg) => {
            let menu = build_order_menu_error(msg.as_str());
            (Vec::new(), menu)
        },
    };
    let mut menus: Vec<TableMenu> = Vec::new();
    menus.push(main_menu);
    menus.push(order_menu);
    menus.push(edit_menu);
    let mut selected_rows: Vec<usize> = Vec::new();
    selected_rows.push(0);
    selected_rows.push(0);
    selected_rows.push(0);
    proof {
        assert(selected_rows@ =~= seq![0usize, 0usize, 0usize]);
    }
    let r = State {
        menus,
        current_menu: MenuIndex::MainMenu,
        selected_rows,
        toppings_catalog,
        prebuilt_pizzas,
        pending_fallbacks: Vec::new(),
    };
    proof {
        assert(r.wf());
    }
    r
}

impl State {
    /// Installs freshly fetched catalogs into the order menu: a fetched
    /// topping catalog replaces the held one; loaded pizzas rebuild the
    /// order menu, a load failure clears the pizzas and shows the error
    /// menu; an out-of-range retained selection is clamped to 0; and when
    /// the order menu is active its marker is redrawn.
    pub fn refresh_order_menu(
        &mut self,
        new_catalog: Option<Vec<Topping>>,
        pizzas: Result<Vec<Pizza>, String>,
    )
        requires
            old(self).wf(),
            pizzas is Ok ==> all_totals_fit(pizzas_view(pizzas->Ok_0@)),
        ensures
            final(self).wf(),
            final(self).toppings_catalog == (match new_catalog {
                Some(c) => c,
                None => old(self).toppings_catalog,
            }),
            final(self).prebuilt_pizzas@ == (match pizzas {
                Ok(ps) => ps@,
                Err(_) => Seq::<Pizza>::empty(),
            }),
            final(self).current_menu == old(self).current_menu,
            final(self).pending_fallbacks == old(self).pending_fallbacks,
            final(self).menus@.len() == 3,
            final(self).menus@[0] == old(self).menus@[0],
            final(self).menus@[2] == old(self).menus@[2],
            final(self).selected_rows@.len() == 3,
            final(self).selected_rows@[0] == old(self).selected_rows@[0],
            final(self).selected_rows@[2] == old(self).selected_rows@[2],
            ({
                let fresh_rows = match pizzas {
                    Ok(ps) => spec_order_menu_rows(pizzas_view(ps@)),
                    Err(msg) => spec_order_menu_error_rows(msg@),
                };
                let sel = if old(self).selected_rows@[1] < fresh_rows.len() {
                    old(self).selected_rows@[1] as int
                } else {
                    0int
                };
                &&& final(self).selected_rows@[1] as int == sel
                &&& final(self).menus@[1].title@ == (match pizzas {
                    Ok(_) => ("Order Menu")@,
                    Err(_) => ("Order Menu (Fehler)")@,
                })
                &&& (old(self).current_menu != MenuIndex::OrderMenu ==> final(self).menus@[1].table@
                    == fresh_rows)
                &&& (old(self).current_menu == MenuIndex::OrderMenu ==> final(self).menus@[1].table@
                    == marked_table(fresh_rows, sel))
            }),
    {
        if let Some(catalog) = new_catalog {
            self.toppings_catalog = catalog;
        }
        let fresh: TableMenu = match pizzas {
            Ok(ps) => {
                proof {
                    lemma_order_menu_rows_shape(pizzas_view(ps@));
                }
                let menu = build_order_menu(ps.as_slice());
                self.prebuilt_pizzas = ps;
                menu
            },
            Err(msg) => {
                self.prebuilt_pizzas = Vec::new();
                proof {
                    assert(self.prebuilt_pizzas@ =~= Seq::<Pizza>::empty());
                }
                build_order_menu_error(msg.as_str())
            },
        };
        let len = fresh.table.rows.len();
        self.menus[1] = fresh;
        if self.selected_rows[1] >= len {
            self.selected_rows[1] = 0;
        }
        if matches!(self.current_menu, MenuIndex::OrderMenu) {
            let sel = self.selected_rows[1];
            let menu = &mut self.menus[1];
            select_row(&mut menu.table, sel);
        }
        proof {
            assert(self.wf());
        }
    }
}

/// The lines still pending after one retry pass: those whose write failed,
/// in their original order.
pub open spec fn retained_fallbacks(lines: Seq<String>, persisted: Seq<bool>, i: int) -> Seq<
    String,
>
    decreases lines.len() - i,
{
    if !(0 <= i < lines.len() && lines.len() == persisted.len()) {
        Seq::<String>::empty()
    } else if persisted[i] {
        retained_fallbacks(lines, persisted, i + 1)
    } else {
        seq![lines[i]] + retained_fallbacks(lines, persisted, i + 1)
    }
}

/// Applies one retry pass over the pending fallbacks: lines the caller
/// persisted leave the queue; the others stay queued, in order, for the
/// next cycle.
pub fn process_transaction_fallbacks(state: &mut State, persisted: &[bool])
    requires
        persisted@.len() == old(state).pending_fallbacks@.len(),
    ensures
        final(state).pending_fallbacks@ == retained_fallbacks(
            old(state).pending_fallbacks@,
            persisted@,
            0,
        ),
        final(state).menus == old(state).menus,
        final(state).current_menu == old(state).current_menu,
        final(state).selected_rows == old(state).selected_rows,
        final(state).toppings_catalog == old(state).toppings_catalog,
        final(state).prebuilt_pizzas == old(state).prebuilt_pizzas,
        old(state).wf() ==> final(state).wf(),
{
    let ghost lines = state.pending_fallbacks@;
    let ghost flags = persisted@;
    let n: usize = state.pending_fallbacks.len();
    let mut still_pending: Vec<String> = Vec::new();
    let mut i: usize = 0;
    proof {
        assert(retained_fallbacks(lines, flags, 0) =~= still_pending@ + retained_fallbacks(
            lines,
            flags,
            0,
        ));
    }
    while i < n
        invariant
            i <= n,
            n == lines.len() == flags.len(),
            state.pending_fallbacks@ == lines,
            persisted@ == flags,
            retained_fallbacks(lines, flags, 0) == still_pending@ + retained_fallbacks(
                lines,
                flags,
                i as int,
            ),
        decreases n - i,
    {
        if !persisted[i] {
            let line = state.pending_fallbacks[i].clone();
            proof {
                assert(still_pending@ + (seq![lines[i as int]] + retained_fallbacks(
                    lines,
                    flags,
                    i + 1,
                )) =~= still_pending@.push(lines[i as int]) + retained_fallbacks(
                    lines,
                    flags,
                    i + 1,
                ));
            }
            still_pending.push(line);
        }
        i = i + 1;
    }
    proof {
        assert(retained_fallbacks(lines, flags, n as int) =~= Seq::<String>::empty());
        assert(still_pending@ + Seq::<String>::empty() =~= still_pending@);
    }
    state.pending_fallbacks = still_pending;
}

/// How a state relates to its version with the marker drawn: the active
/// menu's table is the marked table, everything else about the menus is
/// unchanged.
pub open spec fn menus_marked(pre: State, post: State) -> bool {
    let idx = pre.current_menu.spec_index();
    let sel = pre.selected_rows@[idx] as int;
    &&& post.menus@.len() == pre.menus@.len()
    &&& forall|j: int| 0 <= j < pre.menus@.len() && j != idx ==> post.menus@[j] == pre.menus@[j]
    &&& post.menus@[idx].title == pre.menus@[idx].title
    &&& post.menus@[idx].table@ == marked_table(pre.menus@[idx].table@, sel)
}

} // verus!
