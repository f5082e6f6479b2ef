//! Rendering of one frame: the screen-clear escape, the active menu's box,
//! the status line naming the menu and row, and the per-menu key hints.
//! Everything is returned as text; writing it to the terminal is the
//! caller's.

use vstd::prelude::*;

use crate::state::{MenuIndex, State};
use crate::strutil::{dec_chars, push_char, u64_to_string};
use crate::table_menu::{spec_table_menu_text, TableMenu};

verus! {

/// The escape sequence that clears the screen and homes the cursor.
pub fn clear_screen() -> (r: String)
    ensures
        r@ == ("\u{1b}[2J\u{1b}[1;1H")@,
{
    String::from_str("\u{1b}[2J\u{1b}[1;1H")
}

/// The footer lines as text.
pub open spec fn footer_views(footer: Seq<String>) -> Seq<Seq<char>> {
    footer.map_values(|f: String| f@)
}

/// The footer block: every line, empty ones included, on a line of its own.
pub open spec fn footer_text(lines: Seq<Seq<char>>, i: int) -> Seq<char>
    decreases lines.len() - i,
{
    if !(0 <= i < lines.len()) {
        Seq::<char>::empty()
    } else {
        lines[i] + seq!['\n'] + footer_text(lines, i + 1)
    }
}

/// One rendered frame: partial-clear escape, the boxed menu, the status
/// line `Row: <row>, Menu: <name>`, then the footer lines.
pub open spec fn spec_render_menu(
    menu_text: Seq<char>,
    menu_name: Seq<char>,
    selected_row: nat,
    footer: Seq<Seq<char>>,
) -> Seq<char> {
    ("\u{1b}[1J\u{1b}[1;1H")@ + seq!['\n'] + menu_text + seq!['\n'] + ("Row: ")@ + dec_chars(
        selected_row,
    ) + (", Menu: ")@ + menu_name + seq!['\n'] + footer_text(footer, 0)
}

/// Renders one frame around the given menu.
pub fn render_menu(
    menu: &TableMenu,
    menu_name: &str,
    selected_row: usize,
    footer: &Vec<String>,
) -> (r: String)
    ensures
        r@ == spec_render_menu(
            spec_table_menu_text(menu.title@, menu.table@),
            menu_name@,
            selected_row as nat,
            footer_views(footer@),
        ),
{
    let ghost fv = footer_views(footer@);
    let mut r = String::from_str("\u{1b}[1J\u{1b}[1;1H");
    push_char(&mut r, '\n');
    let menu_text = menu.render();
    r.append(menu_text.as_str());
    push_char(&mut r, '\n');
    r.append("Row: ");
    let row_digits = u64_to_string(selected_row as u64);
    r.append(row_digits.as_str());
    r.append(", Menu: ");
    r.append(menu_name);
    push_char(&mut r, '\n');
    let ghost head = r@;
    let n: usize = footer.len();
    let mut i: usize = 0;
    proof {
        assert(head + Seq::<char>::empty() =~= head);
    }
    while i < n
        invariant
            i <= n,
            n == fv.len(),
            fv == footer_views(footer@),
            head + footer_text(fv, 0) == r@ + footer_text(fv, i as int),
        decreases n - i,
    {
        r.append(footer[i].as_str());
        push_char(&mut r, '\n');
        proof {
            assert(footer_text(fv, i as int) == fv[i as int] + seq!['\n'] + footer_text(
                fv,
                i + 1,
            ));
            assert(head + footer_text(fv, 0) =~= r@ + footer_text(fv, i + 1));
        }
        i = i + 1;
    }
    proof {
        assert(footer_text(fv, n as int) =~= Seq::<char>::empty());
        assert(r@ =~= head + footer_text(fv, 0));
        assert(r@ =~= spec_render_menu(
            spec_table_menu_text(menu.title@, menu.table@),
            menu_name@,
            selected_row as nat,
            fv,
        ));
    }
    r
}

/// The display name of the active menu on the status line.
pub open spec fn spec_menu_name(m: MenuIndex) -> Seq<char> {
    match m {
        MenuIndex::MainMenu => ("MainMenu")@,
        MenuIndex::OrderMenu => ("OrderMenu")@,
        MenuIndex::EditToppingsMenu => ("EditToppingsMenu")@,
    }
}

/// The key-hint footer of the active menu.
pub open spec fn spec_menu_footer(m: MenuIndex) -> Seq<Seq<char>> {
    match m {
        MenuIndex::MainMenu => seq![("[↑/↓] bewegen · [Enter] auswählen")@],
        MenuIndex::OrderMenu => seq![
            ("[↑/↓] bewegen · [Enter] auswählen · [Backspace] zurück")@,
        ],
        MenuIndex::EditToppingsMenu => seq![
            ("[↑/↓] bewegen · [Enter] auswählen · [Backspace] zurück")@,
        ],
    }
}

/// Renders the active menu's frame with its name and key hints.
pub fn render(state: &State) -> (r: String)
    requires
        state.wf(),
    ensures
        ({
            let idx = state.current_menu.spec_index();
            r@ == spec_render_menu(
                spec_table_menu_text(state.menus@[idx].title@, state.menus@[idx].table@),
                spec_menu_name(state.current_menu),
                state.selected_rows@[idx] as nat,
                spec_menu_footer(state.current_menu),
            )
        }),
{
    let menu = state.current_menu();
    let sel = state.selected_row();
    let mut footer: Vec<String> = Vec::new();
    let menu_name: &str = match state.current_menu {
        MenuIndex::MainMenu => {
            footer.push(String::from_str("[↑/↓] bewegen · [Enter] auswählen"));
            "MainMenu"
        },
        MenuIndex::OrderMenu => {
            footer.push(
                String::from_str("[↑/↓] bewegen · [Enter] auswählen · [Backspace] zurück"),
            );
            "OrderMenu"
        },
        MenuIndex::EditToppingsMenu => {
            footer.push(
                String::from_str("[↑/↓] bewegen · [Enter] auswählen · [Backspace] zurück"),
            );
            "EditToppingsMenu"
        },
    };
    proof {
        assert(footer_views(footer@) =~= spec_menu_footer(state.current_menu));
    }
    render_menu(menu, menu_name, sel, &footer)
}

} // verus!
