use pizzeria::backend::{
    add_topping_line, delete_topping_lines, normalize_transaction_record, route_request, Route,
};
use pizzeria::custom_toppings::{
    add_toppings, list_toppings_from_str, remove_topping, AddToppingStep, RemoveChoice,
};
use pizzeria::urlenc::delete_topping_path;

#[test]
fn routes_map_method_and_path() {
    assert!(matches!(route_request("GET", "/"), Route::Root));
    assert!(matches!(route_request("GET", "/toppings"), Route::GetToppings));
    assert!(matches!(route_request("POST", "/toppings"), Route::AddTopping));
    assert!(matches!(route_request("DELETE", "/toppings/clear"), Route::ClearToppings));
    assert!(matches!(route_request("POST", "/transaction"), Route::StoreTransaction));
    assert!(matches!(route_request("GET", "/nothing"), Route::NotFound));
    assert!(matches!(route_request("PATCH", "/toppings"), Route::NotFound));
}

#[test]
fn delete_route_decodes_the_name_parameter() {
    match route_request("DELETE", "/toppings?name=Ham") {
        Route::DeleteTopping { name } => assert_eq!(name, "Ham"),
        _ => panic!("expected the delete route"),
    }
    match route_request("DELETE", "/toppings?name=Ha%20m") {
        Route::DeleteTopping { name } => assert_eq!(name, "Ha m"),
        _ => panic!("expected the delete route"),
    }
    match route_request("DELETE", "/toppings?other=1&name=A%2BB+C") {
        Route::DeleteTopping { name } => assert_eq!(name, "A+B C"),
        _ => panic!("expected the delete route"),
    }
    assert!(matches!(route_request("DELETE", "/toppings?foo=bar"), Route::BadRequest));
    assert!(matches!(route_request("DELETE", "/toppings"), Route::BadRequest));
}

#[test]
fn delete_path_round_trips_through_the_route_table() {
    let path = delete_topping_path("Ham");
    assert_eq!(path, "/toppings?name=Ham");
    match route_request("DELETE", &path) {
        Route::DeleteTopping { name } => assert_eq!(name, "Ham"),
        _ => panic!("expected the delete route"),
    }

    let spaced = delete_topping_path("Spicy Ham");
    assert_eq!(spaced, "/toppings?name=Spicy%20Ham");
    match route_request("DELETE", &spaced) {
        Route::DeleteTopping { name } => assert_eq!(name, "Spicy Ham"),
        _ => panic!("expected the delete route"),
    }
}

#[test]
fn add_topping_validates_and_canonicalises() {
    assert_eq!(add_topping_line("Ham#8\n"), Some(String::from("Ham#8\n")));
    assert_eq!(add_topping_line(" Ham # 8 \nrest"), Some(String::from("Ham#8\n")));
    assert_eq!(add_topping_line("Ham#008"), Some(String::from("Ham#8\n")));
    assert_eq!(add_topping_line("#8"), None);
    assert_eq!(add_topping_line("Ham#eight"), None);
    assert_eq!(add_topping_line("Ham"), None);
    assert_eq!(add_topping_line(""), None);
}

#[test]
fn delete_scenario_is_exact_and_idempotent() {
    let store = "Ham#8\nCheese#3\n";
    let after = delete_topping_lines(store, "Ham");
    assert_eq!(after, "Cheese#3\n");
    // deleting the same name again changes nothing: 204 either way
    let again = delete_topping_lines(&after, "Ham");
    assert_eq!(again, "Cheese#3\n");
}

#[test]
fn delete_matches_names_case_insensitively() {
    let store = "Ham#8\nCheese#3\n";
    assert_eq!(delete_topping_lines(store, "hAm"), "Cheese#3\n");
    assert_eq!(delete_topping_lines(store, "Salami"), "Ham#8\nCheese#3\n");
}

#[test]
fn transaction_records_get_a_trailing_newline_once() {
    assert_eq!(normalize_transaction_record(String::from("a;b;c")), "a;b;c\n");
    assert_eq!(normalize_transaction_record(String::from("a;b;c\n")), "a;b;c\n");
    assert_eq!(normalize_transaction_record(String::new()), "\n");
}

#[test]
fn clear_screen_and_render_emit_escapes() {
    assert_eq!(pizzeria::render::clear_screen(), "\u{1b}[2J\u{1b}[1;1H");
    let state = pizzeria::state::create_initial_state(Vec::new(), Ok(Vec::new()));
    let frame = pizzeria::render::render(&state);
    assert!(frame.starts_with("\u{1b}[1J\u{1b}[1;1H\n"));
    assert!(frame.contains("Welcome to Salvatores Pizza!"));
    assert!(frame.contains("Row: 0, Menu: MainMenu"));
}

#[test]
fn remove_dialog_resolves_number_or_name() {
    let store = "Ham#8\nCheese#3\n";
    assert_eq!(remove_topping(store, "q"), RemoveChoice::Aborted);
    assert_eq!(remove_topping(store, "  "), RemoveChoice::Aborted);
    assert_eq!(remove_topping("", "Ham"), RemoveChoice::NoToppings);
    assert_eq!(remove_topping(store, "2"), RemoveChoice::Delete { name: String::from("Cheese") });
    assert_eq!(remove_topping(store, "0"), RemoveChoice::InvalidNumber);
    assert_eq!(remove_topping(store, "3"), RemoveChoice::InvalidNumber);
    assert_eq!(
        remove_topping(store, "cheese"),
        RemoveChoice::Delete { name: String::from("Cheese") }
    );
    assert_eq!(remove_topping(store, "Salami"), RemoveChoice::NotFound);
}

#[test]
fn add_dialog_validates_name_and_price() {
    assert_eq!(add_toppings("  ", "8"), AddToppingStep::Aborted);
    assert_eq!(add_toppings("Q", "8"), AddToppingStep::Aborted);
    assert_eq!(add_toppings("Ham", "q"), AddToppingStep::Aborted);
    assert_eq!(add_toppings("Ham", ""), AddToppingStep::Aborted);
    assert_eq!(add_toppings("Ham", "acht"), AddToppingStep::InvalidPrice);
    assert_eq!(
        add_toppings(" Ham ", " 8 "),
        AddToppingStep::Add { name: String::from("Ham"), price: 8 }
    );
}

#[test]
fn topping_listing_numbers_records_by_line() {
    let menu = list_toppings_from_str("Ham#8\n\nCheese#3\n");
    assert_eq!(menu.title, "Aktuelle Toppings");
    assert_eq!(menu.table.rows.len(), 2);
    assert_eq!(menu.table.rows[0].cells[0].text, "1.");
    assert_eq!(menu.table.rows[0].cells[1].text, "Ham");
    assert_eq!(menu.table.rows[0].cells[2].text, "8.00$");
    assert_eq!(menu.table.rows[1].cells[0].text, "3.");
    assert_eq!(menu.table.rows[1].cells[1].text, "Cheese");
    let empty = list_toppings_from_str("\n\n");
    assert_eq!(empty.table.rows.len(), 1);
    assert_eq!(empty.table.rows[0].cells[0].text, "Noch keine Toppings vorhanden!");
}
