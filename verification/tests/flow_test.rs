use pizzeria::custom::{CustomAction, CustomFlow};
use pizzeria::input::{read_input, InputEvent};
use pizzeria::state::{create_initial_state, process_transaction_fallbacks, MenuIndex};
use pizzeria::transactions::{
    build_custom_name, format_eur_cents, format_transaction_as_string, try_calc_custom_total_cents,
};
use pizzeria::types::Topping;
use pizzeria::update::{update, Action};

fn catalog() -> Vec<Topping> {
    vec![
        Topping { name: String::from("Ham"), price: 8 },
        Topping { name: String::from("Cheese"), price: 3 },
    ]
}

#[test]
fn input_decode_table_is_exact() {
    assert!(matches!(read_input(&[3]), InputEvent::Exit));
    assert!(matches!(read_input(&[13]), InputEvent::Enter));
    assert!(matches!(read_input(&[27, 91, 65]), InputEvent::Up));
    assert!(matches!(read_input(&[27, 91, 66]), InputEvent::Down));
    assert!(matches!(read_input(&[27, 91, 67]), InputEvent::Right));
    assert!(matches!(read_input(&[27, 91, 68]), InputEvent::Left));
    assert!(matches!(read_input(&[127]), InputEvent::Back));
    assert!(matches!(read_input(&[b'a']), InputEvent::Char('a')));
    assert!(matches!(read_input(&[0x20]), InputEvent::Char(' ')));
    assert!(matches!(read_input(&[0x7e]), InputEvent::Char('~')));
    match read_input(&[27, 91, 90]) {
        InputEvent::Unknown { input } => assert_eq!(input, vec![27, 91, 90]),
        _ => panic!("expected an unknown event"),
    }
    match read_input(&[1]) {
        InputEvent::Unknown { input } => assert_eq!(input, vec![1]),
        _ => panic!("expected an unknown event"),
    }
}

#[test]
fn down_events_wrap_modulo_menu_length() {
    // four downs from row 0 on the three-row main menu land on 4 mod 3 = 1
    let mut state = create_initial_state(catalog(), Ok(Vec::new()));
    for _ in 0..4 {
        let (exit, action) = update(InputEvent::Down, &mut state);
        assert!(!exit);
        assert_eq!(action, Action::Nothing);
    }
    assert_eq!(state.selected_rows[0], 1);
    // a further up lands on (1 - 1 + 3) mod 3 = 0
    let _ = update(InputEvent::Up, &mut state);
    assert_eq!(state.selected_rows[0], 0);
    // one up from row 0 wraps to the last row
    let _ = update(InputEvent::Up, &mut state);
    assert_eq!(state.selected_rows[0], 2);
}

#[test]
fn main_menu_enter_switches_menus_and_requests_refresh() {
    let mut state = create_initial_state(catalog(), Ok(Vec::new()));
    let (exit, action) = update(InputEvent::Enter, &mut state);
    assert!(!exit);
    assert_eq!(action, Action::RefreshOrderMenu);
    assert!(matches!(state.current_menu, MenuIndex::OrderMenu));

    let (_, action) = update(InputEvent::Back, &mut state);
    assert_eq!(action, Action::Nothing);
    assert!(matches!(state.current_menu, MenuIndex::MainMenu));

    let _ = update(InputEvent::Down, &mut state);
    let (exit, _) = update(InputEvent::Enter, &mut state);
    assert!(!exit);
    assert!(matches!(state.current_menu, MenuIndex::EditToppingsMenu));
}

#[test]
fn quit_row_exits_and_exit_event_always_exits() {
    let mut state = create_initial_state(catalog(), Ok(Vec::new()));
    let _ = update(InputEvent::Down, &mut state);
    let _ = update(InputEvent::Down, &mut state);
    let (exit, _) = update(InputEvent::Enter, &mut state);
    assert!(exit);

    let mut state = create_initial_state(catalog(), Ok(Vec::new()));
    let (exit, _) = update(InputEvent::Exit, &mut state);
    assert!(exit);
}

#[test]
fn order_menu_enter_picks_pizza_or_custom_row() {
    let toppings = catalog();
    let pizzas = pizzeria::types::parse_prebuild_pizza("Hawaii#Ham#6\n", &toppings).unwrap();
    let mut state = create_initial_state(toppings, Ok(pizzas));
    let (_, action) = update(InputEvent::Enter, &mut state); // into the order menu
    assert_eq!(action, Action::RefreshOrderMenu);
    let (_, action) = update(InputEvent::Enter, &mut state); // row 0: the pizza
    assert_eq!(action, Action::OrderPizza { index: 0 });
    let _ = update(InputEvent::Down, &mut state); // row 1: the custom row
    let (_, action) = update(InputEvent::Enter, &mut state);
    assert_eq!(action, Action::EnterCustomFlow);
}

#[test]
fn edit_menu_enter_picks_the_four_dialogs() {
    let mut state = create_initial_state(catalog(), Ok(Vec::new()));
    let _ = update(InputEvent::Down, &mut state);
    let _ = update(InputEvent::Enter, &mut state); // into the edit menu
    let (_, a0) = update(InputEvent::Enter, &mut state);
    assert_eq!(a0, Action::AddToppingDialog);
    let _ = update(InputEvent::Down, &mut state);
    let (_, a1) = update(InputEvent::Enter, &mut state);
    assert_eq!(a1, Action::RemoveToppingDialog);
    let _ = update(InputEvent::Down, &mut state);
    let (_, a2) = update(InputEvent::Enter, &mut state);
    assert_eq!(a2, Action::ListToppings);
    let _ = update(InputEvent::Down, &mut state);
    let (_, a3) = update(InputEvent::Enter, &mut state);
    assert_eq!(a3, Action::ClearToppingsConfirm);
}

#[test]
fn selection_marker_follows_the_selected_row() {
    let mut state = create_initial_state(catalog(), Ok(Vec::new()));
    let _ = update(InputEvent::Down, &mut state);
    let rows = &state.menus[0].table.rows;
    assert_eq!(rows[0].cells[0].text, " ");
    assert_eq!(rows[1].cells[0].text, ">");
    assert_eq!(rows[2].cells[0].text, " ");
}

#[test]
fn custom_flow_counts_and_totals() {
    let flow_toppings = catalog();
    let mut flow = CustomFlow::new(flow_toppings, 6);
    // raise topping 0 by three, lower it by one
    assert!(matches!(flow.update(InputEvent::Enter), CustomAction::Stay));
    assert!(matches!(flow.update(InputEvent::Enter), CustomAction::Stay));
    assert!(matches!(flow.update(InputEvent::Enter), CustomAction::Stay));
    assert!(matches!(flow.update(InputEvent::Left), CustomAction::Stay));
    assert_eq!(flow.quantities, vec![2, 0]);
    // the recomputed total is (6 + 2*8) * 100
    let total = try_calc_custom_total_cents(flow.base_price, &flow.toppings, &flow.quantities);
    assert_eq!(total, Some(2200));
    // lowering at zero stays at zero
    let _ = flow.update(InputEvent::Down);
    assert!(matches!(flow.update(InputEvent::Left), CustomAction::Stay));
    assert_eq!(flow.quantities, vec![2, 0]);
    // checkout row is right after the toppings
    let _ = flow.update(InputEvent::Down); // row 2: checkout
    assert!(matches!(flow.update(InputEvent::Enter), CustomAction::Checkout));
    // clear row resets every counter
    let _ = flow.update(InputEvent::Down); // row 3: clear
    assert!(matches!(flow.update(InputEvent::Enter), CustomAction::Stay));
    assert_eq!(flow.quantities, vec![0, 0]);
    // back row leaves the flow
    let _ = flow.update(InputEvent::Down); // row 4: back
    assert!(matches!(flow.update(InputEvent::Enter), CustomAction::Back));
    // a back event leaves it too, from anywhere
    assert!(matches!(flow.update(InputEvent::Back), CustomAction::Back));
    // up from row 0 wraps to the back row
    let mut flow2 = CustomFlow::new(catalog(), 6);
    let _ = flow2.update(InputEvent::Up);
    assert_eq!(flow2.selected_row, 4);
}

#[test]
fn transaction_record_format_is_exact() {
    assert_eq!(format_eur_cents(700), "7,00");
    assert_eq!(format_eur_cents(52), "0,52");
    assert_eq!(format_eur_cents(1234), "12,34");
    let line = format_transaction_as_string("2025-10-17 07:50:31", 700, "Test\nPizza");
    assert_eq!(line, "2025-10-17 07:50:31;7,00;Test Pizza");
}

#[test]
fn custom_name_lists_chosen_toppings() {
    let toppings = catalog();
    assert_eq!(build_custom_name(&toppings, &[0, 0], true), "Custom-Pizza");
    assert_eq!(build_custom_name(&toppings, &[1, 0], true), "Custom-Pizza (Ham)");
    assert_eq!(build_custom_name(&toppings, &[2, 1], true), "Custom-Pizza (Ham x2, Cheese)");
    assert_eq!(build_custom_name(&toppings, &[2, 1], false), "Custom-Pizza (Ham, Cheese)");
}

#[test]
fn failed_send_is_queued_and_a_successful_retry_clears_it() {
    let mut state = create_initial_state(catalog(), Ok(Vec::new()));
    let record = format_transaction_as_string("2025-10-17 08:00:00", 700, "TestPizza");
    // the send failed: the record goes to the in-memory queue
    state.pending_fallbacks.push(record.clone());
    assert_eq!(state.pending_fallbacks.len(), 1);
    // a retry cycle that fails to persist keeps it queued, in order
    process_transaction_fallbacks(&mut state, &[false]);
    assert_eq!(state.pending_fallbacks, vec![record.clone()]);
    // a retry cycle that persists it removes it from the queue
    process_transaction_fallbacks(&mut state, &[true]);
    assert!(state.pending_fallbacks.is_empty());
    // what was persisted carries the record's clean name
    assert!(record.contains("TestPizza"));
}

#[test]
fn retry_keeps_failed_lines_in_original_order() {
    let mut state = create_initial_state(catalog(), Ok(Vec::new()));
    state.pending_fallbacks.push(String::from("a"));
    state.pending_fallbacks.push(String::from("b"));
    state.pending_fallbacks.push(String::from("c"));
    process_transaction_fallbacks(&mut state, &[false, true, false]);
    assert_eq!(state.pending_fallbacks, vec![String::from("a"), String::from("c")]);
}
