use alexander::{AppMode, TemplateApp, TrackerError};
use alexander::Entity;

fn add_entity(app: &mut TemplateApp, name: &str, hp: u32, init_text: &str, mod_text: &str) {
    app.open_create_entity();
    app.set_draft_name(String::from(name));
    app.set_draft_hp(hp);
    app.set_draft_init_text(String::from(init_text));
    app.set_draft_init_mod_text(String::from(mod_text));
    app.confirm_create_entity();
}

fn display_names(app: &TemplateApp) -> Vec<String> {
    let mut names = Vec::new();
    let mut i = 0;
    while i < app.entity_count() {
        names.push(app.entity_at_display(i).get_name());
        i += 1;
    }
    names
}

#[test]
fn add_keeps_display_order_descending() {
    let mut app = TemplateApp::new();
    add_entity(&mut app, "goblin", 7, "10", "1");
    add_entity(&mut app, "wizard", 12, "20", "3");
    add_entity(&mut app, "ogre", 30, "5", "-1");
    assert_eq!(app.entity_count(), 3);
    assert_eq!(display_names(&app), vec![
        String::from("wizard"),
        String::from("goblin"),
        String::from("ogre"),
    ]);
    // ties on initiative fall back to dexterity modifier, then name, then hp
    add_entity(&mut app, "archer", 9, "10", "4");
    assert_eq!(display_names(&app), vec![
        String::from("wizard"),
        String::from("archer"),
        String::from("goblin"),
        String::from("ogre"),
    ]);
}

#[test]
fn remove_by_display_index() {
    let mut app = TemplateApp::new();
    add_entity(&mut app, "a", 1, "1", "0");
    add_entity(&mut app, "b", 2, "2", "0");
    add_entity(&mut app, "c", 3, "3", "0");
    let before = display_names(&app);
    assert_eq!(before, vec![String::from("c"), String::from("b"), String::from("a")]);
    assert_eq!(app.remove_entity(1), Ok(()));
    assert_eq!(display_names(&app), vec![String::from("c"), String::from("a")]);
    // an out of range index is rejected and changes nothing
    assert_eq!(app.remove_entity(5), Err(TrackerError::IndexOutOfRange));
    assert_eq!(display_names(&app), vec![String::from("c"), String::from("a")]);
}

#[test]
fn start_encounter_on_empty_roster_fails() {
    let mut app = TemplateApp::new();
    assert_eq!(app.start_encounter(), Err(TrackerError::PreconditionFailed));
    assert!(!app.is_encounter_started());
    add_entity(&mut app, "hero", 10, "15", "2");
    assert_eq!(app.start_encounter(), Ok(()));
    assert!(app.is_encounter_started());
    assert_eq!(app.get_round(), 1);
    assert_eq!(app.current_turn_index(), 0);
}

#[test]
fn advance_full_round_returns_to_top() {
    let mut app = TemplateApp::new();
    add_entity(&mut app, "a", 1, "1", "0");
    add_entity(&mut app, "b", 2, "2", "0");
    add_entity(&mut app, "c", 3, "3", "0");
    assert_eq!(app.start_encounter(), Ok(()));
    assert_eq!(app.advance_turn(), Ok(()));
    assert_eq!(app.current_turn_index(), 1);
    assert_eq!(app.get_round(), 1);
    assert_eq!(app.advance_turn(), Ok(()));
    assert_eq!(app.current_turn_index(), 2);
    assert_eq!(app.advance_turn(), Ok(()));
    assert_eq!(app.current_turn_index(), 0);
    assert_eq!(app.get_round(), 2);
}

#[test]
fn advance_outside_encounter_is_rejected() {
    let mut app = TemplateApp::new();
    add_entity(&mut app, "a", 1, "1", "0");
    assert_eq!(app.advance_turn(), Err(TrackerError::PreconditionFailed));
    assert_eq!(app.current_turn_index(), 0);
    assert_eq!(app.get_round(), 1);
}

#[test]
fn stop_encounter_keeps_round_and_pointer() {
    let mut app = TemplateApp::new();
    add_entity(&mut app, "a", 1, "1", "0");
    add_entity(&mut app, "b", 2, "2", "0");
    assert_eq!(app.start_encounter(), Ok(()));
    assert_eq!(app.advance_turn(), Ok(()));
    app.stop_encounter();
    assert!(!app.is_encounter_started());
    assert_eq!(app.current_turn_index(), 1);
    assert_eq!(app.get_round(), 1);
}

#[test]
fn unparsable_initiative_text_commits_as_one() {
    let mut app = TemplateApp::new();
    app.open_create_entity();
    app.set_draft_name(String::from("mystery"));
    app.set_draft_hp(4);
    app.set_draft_init_text(String::from("abc"));
    app.confirm_create_entity();
    assert_eq!(app.entity_count(), 1);
    assert_eq!(app.entity_at_display(0).get_init(), 1);
}

#[test]
fn rolled_initiative_is_floored_at_one() {
    let mut app = TemplateApp::new();
    app.open_create_entity();
    app.set_draft_name(String::from("clumsy"));
    app.set_draft_hp(3);
    app.set_draft_init_mod_text(String::from("-100"));
    app.roll_draft_initiative();
    // any d20 draw minus 100 is below 1, so the floor always applies
    assert_eq!(app.draft_init_text(), String::from("1"));
    app.confirm_create_entity();
    assert_eq!(app.entity_at_display(0).get_init(), 1);
}

#[test]
fn rolled_initiative_includes_modifier() {
    let mut app = TemplateApp::new();
    app.open_create_entity();
    app.set_draft_init_mod_text(String::from("5"));
    app.roll_draft_initiative();
    let text = app.draft_init_text();
    let value: u32 = text.parse().unwrap();
    assert!(6 <= value && value <= 25);
}

#[test]
fn cancel_clears_all_draft_fields() {
    let mut app = TemplateApp::new();
    app.open_create_entity();
    app.set_draft_name(String::from("left over"));
    app.set_draft_hp(9);
    app.set_draft_init_text(String::from("12"));
    app.set_draft_init_mod_text(String::from("3"));
    app.cancel_create_entity();
    assert!(!app.is_creating_entity());
    assert_eq!(app.draft_name(), String::new());
    assert_eq!(app.draft_hp(), 0);
    assert_eq!(app.draft_init_text(), String::new());
    assert_eq!(app.draft_init_mod_text(), String::new());
    assert_eq!(app.entity_count(), 0);
}

#[test]
fn new_session_resets_everything_but_mode() {
    let mut app = TemplateApp::new();
    add_entity(&mut app, "a", 1, "1", "0");
    assert_eq!(app.start_encounter(), Ok(()));
    app.set_mode(AppMode::DiceRoller);
    app.set_dice_quantity_text(String::from("3"));
    app.roll_dice();
    app.new_session();
    assert_eq!(app.entity_count(), 0);
    assert!(!app.is_encounter_started());
    assert_eq!(app.get_round(), 1);
    assert_eq!(app.get_mode(), AppMode::DiceRoller);
    assert_eq!(app.dice_breakdown_len(), 0);
    assert_eq!(app.dice_total(), 0);
    assert_eq!(app.dice_quantity_text(), String::new());
}

#[test]
fn turn_pointer_revalidated_on_removal() {
    let mut app = TemplateApp::new();
    add_entity(&mut app, "a", 1, "1", "0");
    add_entity(&mut app, "b", 2, "2", "0");
    assert_eq!(app.start_encounter(), Ok(()));
    assert_eq!(app.advance_turn(), Ok(()));
    assert_eq!(app.current_turn_index(), 1);
    assert_eq!(app.remove_entity(0), Ok(()));
    // the pointer would be out of bounds, so it resets to the top
    assert_eq!(app.current_turn_index(), 0);
    assert!(app.is_encounter_started());
    assert_eq!(app.remove_entity(0), Ok(()));
    // removing the last entity ends the encounter
    assert!(!app.is_encounter_started());
    assert_eq!(app.entity_count(), 0);
}

#[test]
fn entity_accessors() {
    let mut e = Entity::new(String::from("goblin"), 7, 15, 2);
    assert_eq!(e.get_name(), String::from("goblin"));
    assert_eq!(e.get_hp(), 7);
    assert_eq!(e.get_init(), 15);
    assert_eq!(e.get_dex_mod(), 2);
    e.set_hp(3);
    assert_eq!(e.get_hp(), 3);
}
