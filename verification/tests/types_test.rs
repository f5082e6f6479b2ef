use pizzeria::types::{parse_prebuild_pizza, parse_toppings, CatalogError, Pizza, Topping};

#[test]
fn types_test_total_price_of_a_pizza_without_toppings() {
    let pizza = Pizza { name: String::new(), toppings: vec![], base_price: 8 };

    assert_eq!(pizza.total_price(), 8);
}

#[test]
fn types_test_total_price_of_a_pizza_with_toppings() {
    let pizza = Pizza {
        name: String::new(),
        toppings: vec![
            Topping { name: String::from("Test_Cheese"), price: 14 },
            Topping { name: String::from("Test_Tomato"), price: 30 },
        ],
        base_price: 10,
    };

    assert_eq!(pizza.total_price(), 54);
}

#[test]
fn types_test_parse_toppings_from_empty_string() {
    let toppings = parse_toppings("").unwrap();

    assert_eq!(toppings, Vec::new());
}

#[test]
fn types_test_parse_toppings_from_string_with_single_topping() {
    let toppings = parse_toppings(
        r#"
Ham#8
        "#,
    )
    .unwrap();

    assert_eq!(toppings, vec![Topping { name: String::from("Ham"), price: 8 }]);
}

#[test]
fn types_test_parse_toppings_from_string_with_multiple_toppings() {
    let toppings = parse_toppings(
        r#"
Ham#8
Cheese#3
Brocoli#4
        "#,
    )
    .unwrap();

    assert_eq!(
        toppings,
        vec![
            Topping { name: String::from("Ham"), price: 8 },
            Topping { name: String::from("Cheese"), price: 3 },
            Topping { name: String::from("Brocoli"), price: 4 },
        ]
    );
}

#[test]
fn parse_toppings_rejects_bad_price() {
    let r = parse_toppings("Ham#eight\n");
    assert!(matches!(r, Err(CatalogError::InvalidPrice { line: 1, .. })));
}

#[test]
fn parse_toppings_reports_missing_price_with_line_number() {
    let r = parse_toppings("Ham#8\n\nCheese\n");
    assert!(matches!(r, Err(CatalogError::MissingPrice { line: 3 })));
}

#[test]
fn catalog_scenario_parses_records_and_rejects_unknown_topping() {
    let toppings = parse_toppings("Ham#8\nCheese#3\n").unwrap();
    assert_eq!(
        toppings,
        vec![
            Topping { name: String::from("Ham"), price: 8 },
            Topping { name: String::from("Cheese"), price: 3 },
        ]
    );

    let pizzas = parse_prebuild_pizza("Margherita#-#6", &toppings).unwrap();
    assert_eq!(pizzas.len(), 1);
    assert_eq!(pizzas[0].name, "Margherita");
    assert_eq!(pizzas[0].toppings, Vec::new());
    assert_eq!(pizzas[0].base_price, 6);
    assert_eq!(pizzas[0].total_price(), 6);

    let bad = parse_prebuild_pizza("Hawaii#Ham|Unknown#6", &toppings);
    match bad {
        Err(CatalogError::UnknownTopping { line, name }) => {
            assert_eq!(line, 1);
            assert_eq!(name, "Unknown");
        },
        _ => panic!("expected an unknown-topping error"),
    }
}

#[test]
fn parse_prebuild_pizza_resolves_topping_prices_from_catalog() {
    let toppings = parse_toppings("Ham#8\nCheese#3\n").unwrap();
    let pizzas = parse_prebuild_pizza("Hawaii#Ham|Cheese#6\n", &toppings).unwrap();
    assert_eq!(pizzas.len(), 1);
    assert_eq!(pizzas[0].toppings.len(), 2);
    assert_eq!(pizzas[0].toppings[0].price, 8);
    assert_eq!(pizzas[0].toppings[1].price, 3);
    assert_eq!(pizzas[0].total_price(), 17);
}

#[test]
fn shortname_is_first_character() {
    let t = Topping { name: String::from("Ham"), price: 8 };
    assert_eq!(t.shortname(), 'H');
}

#[test]
fn catalog_error_messages_name_the_line() {
    let e = parse_toppings("Ham#eight\n").unwrap_err();
    assert_eq!(e.message(), "Zeile 1: Ungültiger Preis 'eight'");
    let toppings = parse_toppings("Ham#8\n").unwrap();
    let e = parse_prebuild_pizza("Hawaii#Salami#6\n", &toppings).unwrap_err();
    assert_eq!(e.message(), "Zeile 1: Unbekanntes Topping 'Salami'");
}
