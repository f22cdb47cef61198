use lightbox::howler::{
    apply_update, howl_cycle, new_states, playlist, sound_path, HowlerUpdatePacket, UpdateCommand,
    UserActiveReminder,
};

fn packet(job: UpdateCommand, user_id: u8, label: &str) -> HowlerUpdatePacket {
    HowlerUpdatePacket { job, user_id, reminder_label: label.to_string() }
}

#[test]
fn set_enable_then_clear_plays_nothing() {
    let mut states = new_states(3);
    let sounds = howl_cycle(
        &mut states,
        vec![
            packet(UpdateCommand::SetActive, 2, "wake"),
            packet(UpdateCommand::Enable, 2, "wake"),
            packet(UpdateCommand::SetActive, 2, ""),
        ],
    );
    assert!(sounds.is_empty());
    assert_eq!(states[2].reminder_label(), "");
    assert!(!states[2].audio_active());
}

#[test]
fn set_then_enable_keeps_label_and_turns_audio_on() {
    let mut states = new_states(3);
    apply_update(&mut states, packet(UpdateCommand::SetActive, 1, "pills"));
    assert_eq!(states[1].reminder_label(), "pills");
    assert!(!states[1].audio_active());
    apply_update(&mut states, packet(UpdateCommand::Enable, 1, "other"));
    assert_eq!(states[1].reminder_label(), "pills");
    assert!(states[1].audio_active());
    assert_eq!(playlist(&states), vec!["pills".to_string()]);
}

#[test]
fn playlist_follows_user_order_and_skips_blank_labels() {
    let mut states = new_states(4);
    let sounds = howl_cycle(
        &mut states,
        vec![
            packet(UpdateCommand::SetActive, 3, "dog"),
            packet(UpdateCommand::SetActive, 0, "cat"),
            packet(UpdateCommand::SetActive, 1, "   "),
        ],
    );
    assert_eq!(sounds, vec!["cat".to_string(), "dog".to_string()]);
}

#[test]
fn new_states_are_idle() {
    let states = new_states(2);
    assert_eq!(states.len(), 2);
    assert_eq!(states[0].reminder_label(), "");
    assert!(!states[1].audio_active());
    let d: UserActiveReminder = Default::default();
    assert_eq!(d.reminder_label(), "");
}

#[test]
fn sound_files_live_in_sound_directory() {
    assert_eq!(sound_path("wake"), "./remindersounds/wake");
}
