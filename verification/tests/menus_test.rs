use pizzeria::console::Menu;
use pizzeria::table::{render_table, Align, Table, TableCell, TableRow};
use pizzeria::table_menu::TableMenu;

#[test]
fn test_empty_menu() {
    let title_text = String::from("Menu");
    let panel = Menu::new(title_text, vec![]);

    println!("{}", panel.render());

    assert_eq!(
        panel.render().trim(),
        "
┌──────┐
│ Menu │
├──────┤
└──────┘
        "
        .trim()
    );
}

#[test]
fn test_menu_with_entries() {
    let title_text = String::from("Menu");
    let panel = Menu::new(
        title_text,
        vec![
            String::from("1. Pizza Margherita"),
            String::from("2. Pizza Pepperoni"),
            String::from("3. Pizza Salami"),
        ],
    );

    println!("{}", panel.render());

    assert_eq!(
        panel.render().trim(),
        "
┌─────────────────────┐
│        Menu         │
├─────────────────────┤
│ 1. Pizza Margherita │
│ 2. Pizza Pepperoni  │
│ 3. Pizza Salami     │
└─────────────────────┘
                "
        .trim()
    );
}

#[test]
fn test_menu_with_long_title_and_short_entries() {
    let panel = Menu::new(
        String::from("Welcome to Salvatores Pizza!"),
        vec![String::from("1. M")],
    );

    println!("{}", panel.render());
}

#[test]
fn table_test() {
    let table = Table::new(vec![
        TableRow::new(vec![
            TableCell::new(String::from("1.")),
            TableCell::new(String::from("Mushrooms")),
            TableCell::new_with_alignment(String::from("3.00$"), Align::Right),
        ]),
        TableRow::new(vec![
            TableCell::new(String::from("2.")),
            TableCell::new(String::from("Onions")),
            TableCell::new_with_alignment(String::from("22.00$"), Align::Right),
        ]),
    ]);

    let mut buffer = String::new();

    render_table(&table, &mut buffer);

    println!("{buffer}");
}

#[test]
fn render_table_pads_columns_and_aligns() {
    let table = Table::new(vec![
        TableRow::new(vec![
            TableCell::new(String::from("1.")),
            TableCell::new(String::from("Mushrooms")),
            TableCell::new_with_alignment(String::from("3.00$"), Align::Right),
        ]),
        TableRow::new(vec![
            TableCell::new(String::from("2.")),
            TableCell::new(String::from("Onions")),
            TableCell::new_with_alignment(String::from("22.00$"), Align::Right),
        ]),
    ]);
    let mut buffer = String::new();
    render_table(&table, &mut buffer);
    assert_eq!(buffer, "1.  Mushrooms   3.00$\n2.  Onions     22.00$\n");
}

#[test]
fn table_menu_test() {
    let title_text = String::from("Menu-Title");
    let table = Table::new(vec![
        TableRow::new(vec![
            TableCell::new(String::from("1.")),
            TableCell::new(String::from("Salami")),
            TableCell::new_with_alignment(String::from("3.00$"), Align::Right),
        ]),
        TableRow::new(vec![
            TableCell::new(String::from("2.")),
            TableCell::new(String::from("Broccoli")),
            TableCell::new_with_alignment(String::from("400.00$"), Align::Left),
        ]),
    ]);
    let table_menu = TableMenu::new(title_text, table);
    println!("{}", table_menu.render());
}
