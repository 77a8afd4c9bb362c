use alexander::{DiceType, TemplateApp, get_dice_val};
use alexander::dice::{is_critical_failure, is_critical_success};

#[test]
fn dice_values() {
    assert_eq!(get_dice_val(DiceType::D4), 4);
    assert_eq!(get_dice_val(DiceType::D6), 6);
    assert_eq!(get_dice_val(DiceType::D8), 8);
    assert_eq!(get_dice_val(DiceType::D10), 10);
    assert_eq!(get_dice_val(DiceType::D12), 12);
    assert_eq!(get_dice_val(DiceType::D20), 20);
    assert_eq!(get_dice_val(DiceType::D100), 100);
}

#[test]
fn roll_five_d6_plus_two() {
    let mut app = TemplateApp::new();
    app.set_dice_type(DiceType::D6);
    app.set_dice_quantity_text(String::from("5"));
    app.set_dice_modifier_text(String::from("2"));
    app.roll_dice();
    assert_eq!(app.dice_breakdown_len(), 5);
    let mut raw_sum: i128 = 0;
    let mut i = 0;
    while i < app.dice_breakdown_len() {
        let (raw, modifier) = app.dice_breakdown_at(i);
        assert!(1 <= raw && raw <= 6);
        assert_eq!(modifier, 2);
        raw_sum += raw as i128;
        i += 1;
    }
    assert_eq!(app.dice_total(), raw_sum + 5 * 2);
}

#[test]
fn roll_zero_quantity_is_empty() {
    let mut app = TemplateApp::new();
    app.set_dice_type(DiceType::D20);
    app.set_dice_quantity_text(String::from("0"));
    app.roll_dice();
    assert_eq!(app.dice_breakdown_len(), 0);
    assert_eq!(app.dice_total(), 0);
}

#[test]
fn roll_unparsable_quantity_is_empty() {
    let mut app = TemplateApp::new();
    app.set_dice_quantity_text(String::from("lots"));
    app.set_dice_modifier_text(String::from("9"));
    app.roll_dice();
    assert_eq!(app.dice_breakdown_len(), 0);
    assert_eq!(app.dice_total(), 0);
}

#[test]
fn roll_replaces_prior_breakdown() {
    let mut app = TemplateApp::new();
    app.set_dice_type(DiceType::D4);
    app.set_dice_quantity_text(String::from("7"));
    app.roll_dice();
    assert_eq!(app.dice_breakdown_len(), 7);
    app.set_dice_quantity_text(String::from("2"));
    app.set_dice_modifier_text(String::from("-3"));
    app.roll_dice();
    assert_eq!(app.dice_breakdown_len(), 2);
    let (r0, m0) = app.dice_breakdown_at(0);
    let (r1, m1) = app.dice_breakdown_at(1);
    assert!(1 <= r0 && r0 <= 4);
    assert!(1 <= r1 && r1 <= 4);
    assert_eq!(m0, -3);
    assert_eq!(m1, -3);
    assert_eq!(app.dice_total(), r0 as i128 + r1 as i128 - 6);
}

#[test]
fn critical_flags_recomputed_from_roll() {
    assert!(is_critical_success(6, DiceType::D6));
    assert!(!is_critical_success(5, DiceType::D6));
    assert!(!is_critical_success(6, DiceType::D8));
    assert!(is_critical_failure(1));
    assert!(!is_critical_failure(2));
}
