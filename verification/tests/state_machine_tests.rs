use ultra_render::scene::state_machine::{select_transition, InputStore, SMInput};

#[test]
fn inputs_read_back_what_was_written() {
    let mut inputs = InputStore::new();
    inputs.set_bool("running", true);
    inputs.set_number("speed", 2.0f32.to_bits());
    assert!(inputs.get_bool("running"));
    assert_eq!(f32::from_bits(inputs.get_number("speed")), 2.0);
    assert!(!inputs.get_bool("speed"));
    assert_eq!(inputs.get_number("running"), 0);
    assert!(!inputs.get_bool("missing"));
    inputs.set_bool("running", false);
    assert!(!inputs.get_bool("running"));
    assert_eq!(f32::from_bits(inputs.get_number("speed")), 2.0);
}

#[test]
fn triggers_fire_once() {
    let mut inputs = InputStore::new();
    inputs.set_bool("flag", true);
    inputs.fire_trigger("attack");
    assert_eq!(inputs.get("attack"), Some(SMInput::Trigger(true)));
    inputs.reset_triggers();
    assert_eq!(inputs.get("attack"), Some(SMInput::Trigger(false)));
    assert_eq!(inputs.get("flag"), Some(SMInput::Bool(true)));
    assert_eq!(inputs.get("nothing"), None);
}

#[test]
fn first_eligible_transition_from_current_state_wins() {
    let from = vec![0, 1, 1, 1];
    let eligible = vec![true, false, true, true];
    assert_eq!(select_transition(&from, 1, &eligible), Some(2));
    assert_eq!(select_transition(&from, 0, &eligible), Some(0));
    assert_eq!(select_transition(&from, 2, &eligible), None);
    assert_eq!(select_transition(&from, 1, &vec![false, false, false, false]), None);
}
