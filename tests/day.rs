use lightbox::conf::{Configuration, Holiday, HolidaySeason, PinConfig, Reminder, User};
use lightbox::day::{is_holiday, seconds_until_midnight};
use lightbox::howler::UpdateCommand;
use lightbox::scheduler::{dismiss_packet, plan_reminder, reminders_for_day};

fn reminder(label: &str, time: &str, grace: u32) -> Reminder {
    Reminder {
        label: label.to_string(),
        vocal_reminder: None,
        light_on: time.to_string(),
        grace_period: grace,
    }
}

fn dated_config() -> Configuration {
    let mut c = Configuration {
        tts_lan: "en".to_string(),
        howler_interval: 10,
        snooze_pin: 4,
        public_holidays: vec![Holiday { name: "Day".to_string(), date: "14/03".to_string() }],
        holiday_seasons: vec![HolidaySeason {
            name: "Summer".to_string(),
            start_date: "20/12".to_string(),
            end_date: "05/01".to_string(),
        }],
        users: Vec::new(),
    };
    c.validate_config_for_year(2024);
    c
}

#[test]
fn public_holiday_is_a_holiday() {
    let c = dated_config();
    assert!(is_holiday(&c, (2024, 3, 14)));
    assert!(!is_holiday(&c, (2024, 3, 15)));
}

#[test]
fn season_days_are_holidays_ends_included() {
    let c = dated_config();
    assert!(is_holiday(&c, (2023, 12, 20)));
    assert!(is_holiday(&c, (2024, 1, 1)));
    assert!(is_holiday(&c, (2024, 1, 5)));
    assert!(!is_holiday(&c, (2024, 1, 6)));
    assert!(!is_holiday(&c, (2023, 12, 19)));
}

#[test]
fn reminder_plan_waits_then_grace() {
    let r = reminder("wake", "07:00", 30);
    let now = 6 * 3600 + 59 * 60 + 50;
    let p = plan_reminder(2, &r, now).unwrap();
    assert_eq!(p.wait_secs, 10);
    assert!(p.set_active.job == UpdateCommand::SetActive);
    assert_eq!(p.set_active.user_id, 2);
    assert_eq!(p.set_active.reminder_label, "wake");
    assert_eq!(p.grace_secs, 30);
    assert!(p.enable.job == UpdateCommand::Enable);
    assert_eq!(p.enable.user_id, 2);
    assert_eq!(p.enable.reminder_label, "wake");
}

#[test]
fn past_reminder_fires_at_once() {
    let r = reminder("wake", "07:00", 30);
    let p = plan_reminder(0, &r, 8 * 3600).unwrap();
    assert_eq!(p.wait_secs, 0);
}

#[test]
fn reminder_with_bad_time_has_no_plan() {
    assert!(plan_reminder(0, &reminder("x", "7h", 1), 0).is_none());
}

#[test]
fn button_press_clears_active_reminder() {
    let p = dismiss_packet(3);
    assert!(p.job == UpdateCommand::SetActive);
    assert_eq!(p.user_id, 3);
    assert_eq!(p.reminder_label, "");
}

#[test]
fn holiday_list_is_used_on_holidays() {
    let u = User {
        name: "Ann".to_string(),
        reminders: vec![reminder("work", "07:00", 1)],
        reminders_h: vec![reminder("rest", "09:00", 1)],
        pin_config: PinConfig { button: 17, led: 27 },
    };
    assert_eq!(reminders_for_day(&u, true)[0].label, "rest");
    assert_eq!(reminders_for_day(&u, false)[0].label, "work");
}

#[test]
fn midnight_countdown() {
    assert_eq!(seconds_until_midnight(0), 86400);
    assert_eq!(seconds_until_midnight(86399), 1);
}
