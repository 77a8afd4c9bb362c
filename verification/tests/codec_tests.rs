use alexander::codec::{decode_state, encode_state, snapshot_round_trip, Token};
use alexander::{AppMode, DiceType, TemplateApp};

fn populated_app() -> TemplateApp {
    let mut app = TemplateApp::new();
    app.open_create_entity();
    app.set_draft_name(String::from("wizard"));
    app.set_draft_hp(12);
    app.set_draft_init_text(String::from("18"));
    app.set_draft_init_mod_text(String::from("3"));
    app.confirm_create_entity();
    app.open_create_entity();
    app.set_draft_name(String::from("goblin"));
    app.set_draft_hp(7);
    app.set_draft_init_text(String::from("11"));
    app.set_draft_init_mod_text(String::from("-1"));
    app.confirm_create_entity();
    app.start_encounter().unwrap();
    app.advance_turn().unwrap();
    app.set_mode(AppMode::DiceRoller);
    app.set_dice_type(DiceType::D8);
    app.set_dice_quantity_text(String::from("4"));
    app.set_dice_modifier_text(String::from("2"));
    app.roll_dice();
    app.open_create_entity();
    app.set_draft_name(String::from("pending"));
    app.set_draft_hp(5);
    app
}

fn assert_states_equal(a: &TemplateApp, b: &TemplateApp) {
    assert_eq!(a.entity_count(), b.entity_count());
    let mut i = 0;
    while i < a.entity_count() {
        let ea = a.entity_at_display(i);
        let eb = b.entity_at_display(i);
        assert_eq!(ea.get_name(), eb.get_name());
        assert_eq!(ea.get_hp(), eb.get_hp());
        assert_eq!(ea.get_init(), eb.get_init());
        assert_eq!(ea.get_dex_mod(), eb.get_dex_mod());
        i += 1;
    }
    assert_eq!(a.is_creating_entity(), b.is_creating_entity());
    assert_eq!(a.draft_name(), b.draft_name());
    assert_eq!(a.draft_hp(), b.draft_hp());
    assert_eq!(a.draft_init_text(), b.draft_init_text());
    assert_eq!(a.draft_init_mod_text(), b.draft_init_mod_text());
    assert_eq!(a.is_encounter_started(), b.is_encounter_started());
    assert_eq!(a.current_turn_index(), b.current_turn_index());
    assert_eq!(a.get_round(), b.get_round());
    assert_eq!(a.get_mode(), b.get_mode());
    assert_eq!(a.get_dice_type(), b.get_dice_type());
    assert_eq!(a.dice_quantity_text(), b.dice_quantity_text());
    assert_eq!(a.dice_modifier_text(), b.dice_modifier_text());
    assert_eq!(a.dice_breakdown_len(), b.dice_breakdown_len());
    let mut j = 0;
    while j < a.dice_breakdown_len() {
        assert_eq!(a.dice_breakdown_at(j), b.dice_breakdown_at(j));
        j += 1;
    }
    assert_eq!(a.dice_total(), b.dice_total());
}

#[test]
fn snapshot_round_trip_is_identity() {
    let app = populated_app();
    let back = snapshot_round_trip(&app);
    assert_states_equal(&app, &back);
}

#[test]
fn fresh_state_round_trips_too() {
    let app = TemplateApp::new();
    let back = snapshot_round_trip(&app);
    assert_states_equal(&app, &back);
}

#[test]
fn encode_then_decode_by_hand() {
    let app = populated_app();
    let tokens = encode_state(&app);
    let decoded = decode_state(&tokens);
    assert!(decoded.is_some());
    assert_states_equal(&app, &decoded.unwrap());
}

#[test]
fn decode_rejects_truncated_input() {
    let tokens = vec![Token::Uint(3), Token::Flag(true)];
    assert!(decode_state(&tokens).is_none());
}

#[test]
fn decode_rejects_wrong_token_kind() {
    let app = TemplateApp::new();
    let mut tokens = encode_state(&app);
    // the first token of a snapshot is a flag; replace it with a number
    tokens[0] = Token::Uint(1);
    assert!(decode_state(&tokens).is_none());
}
