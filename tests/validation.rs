use lightbox::conf::{
    pin_conflicts, Configuration, Error, Holiday, HolidaySeason, PinConfig, Reminder, User,
};

fn reminder(label: &str, time: &str, grace: u32) -> Reminder {
    Reminder {
        label: label.to_string(),
        vocal_reminder: None,
        light_on: time.to_string(),
        grace_period: grace,
    }
}

fn user(name: &str, button: u8, led: u8) -> User {
    User {
        name: name.to_string(),
        reminders: Vec::new(),
        reminders_h: Vec::new(),
        pin_config: PinConfig { button, led },
    }
}

fn config(users: Vec<User>) -> Configuration {
    Configuration {
        tts_lan: "en".to_string(),
        howler_interval: 10,
        snooze_pin: 4,
        public_holidays: Vec::new(),
        holiday_seasons: Vec::new(),
        users,
    }
}

fn season(name: &str, start: &str, end: &str) -> HolidaySeason {
    HolidaySeason { name: name.to_string(), start_date: start.to_string(), end_date: end.to_string() }
}

fn names(c: &Configuration) -> Vec<String> {
    c.users.iter().map(|u| u.name.clone()).collect()
}

fn times(rs: &[Reminder]) -> Vec<String> {
    rs.iter().map(|r| r.light_on.clone()).collect()
}

#[test]
fn season_spanning_new_year_starts_year_before() {
    let mut c = config(Vec::new());
    c.holiday_seasons.push(season("Summer", "20/12", "05/01"));
    c.validate_config_for_year(2024);
    assert_eq!(c.holiday_seasons.len(), 1);
    assert_eq!(c.holiday_seasons[0].name, "Summer");
    assert_eq!(c.holiday_seasons[0].start_date, "20/12/2023");
    assert_eq!(c.holiday_seasons[0].end_date, "05/01/2024");
}

#[test]
fn season_within_one_year_keeps_year() {
    let mut c = config(Vec::new());
    c.holiday_seasons.push(season("Winter", "01/07", "31/08"));
    c.validate_config_for_year(2024);
    assert_eq!(c.holiday_seasons[0].start_date, "01/07/2024");
    assert_eq!(c.holiday_seasons[0].end_date, "31/08/2024");
}

#[test]
fn season_with_unparseable_end_is_dropped() {
    let mut c = config(Vec::new());
    c.holiday_seasons.push(season("Bad end", "01/07", "32/08"));
    c.holiday_seasons.push(season("Bad start", "xx", "01/08"));
    c.holiday_seasons.push(season("Good", "02/01", "03/01"));
    c.validate_config_for_year(2024);
    assert_eq!(c.holiday_seasons.len(), 1);
    assert_eq!(c.holiday_seasons[0].name, "Good");
}

#[test]
fn holiday_gains_year_and_bad_dates_are_dropped() {
    let mut c = config(Vec::new());
    c.public_holidays.push(Holiday { name: "Christmas".to_string(), date: "25/12".to_string() });
    c.public_holidays.push(Holiday { name: "Never".to_string(), date: "31/02".to_string() });
    c.public_holidays.push(Holiday { name: "Noise".to_string(), date: "abc".to_string() });
    c.validate_config_for_year(2024);
    assert_eq!(c.public_holidays.len(), 1);
    assert_eq!(c.public_holidays[0].name, "Christmas");
    assert_eq!(c.public_holidays[0].date, "25/12/2024");
}

#[test]
fn leap_day_holiday_depends_on_year() {
    let mut c = config(Vec::new());
    c.public_holidays.push(Holiday { name: "Leap".to_string(), date: "29/02".to_string() });
    c.validate_config_for_year(2023);
    assert!(c.public_holidays.is_empty());
    let mut d = config(Vec::new());
    d.public_holidays.push(Holiday { name: "Leap".to_string(), date: "29/02".to_string() });
    d.validate_config_for_year(2024);
    assert_eq!(d.public_holidays[0].date, "29/02/2024");
}

#[test]
fn zero_interval_runs_with_default() {
    let mut c = config(Vec::new());
    c.howler_interval = 0;
    assert!(!c.howler_interval_valid());
    c.validate_config_for_year(2024);
    assert_eq!(c.howler_interval, 0);
    assert_eq!(c.effective_howler_interval(), 10);
}

#[test]
fn interval_bounds() {
    let mut c = config(Vec::new());
    c.howler_interval = 86349;
    assert_eq!(c.effective_howler_interval(), 86349);
    c.howler_interval = 86350;
    assert_eq!(c.effective_howler_interval(), 10);
    c.howler_interval = 1;
    assert_eq!(c.effective_howler_interval(), 1);
}

#[test]
fn later_user_with_same_button_is_dropped() {
    let mut c = config(vec![user("Ann", 17, 27), user("Bob", 17, 22)]);
    let errors = pin_conflicts(&c.users, c.snooze_pin);
    assert_eq!(errors.len(), 1);
    match &errors[0] {
        Error::Pin { t, pin, name } => {
            assert_eq!(t, "Button");
            assert_eq!(*pin, 17);
            assert_eq!(name, "Bob");
        }
    }
    c.validate_config_for_year(2024);
    assert_eq!(names(&c), vec!["Ann".to_string()]);
    assert_eq!(c.users[0].pin_config.button, 17);
    assert_eq!(c.users[0].pin_config.led, 27);
}

#[test]
fn disallowed_or_shared_pins_drop_users() {
    let mut c = config(vec![
        user("Off list", 14, 27),
        user("Same pins", 22, 22),
        user("Snooze", 4, 10),
        user("Fine", 9, 11),
        user("Takes LED of dropped", 13, 27),
    ]);
    let errors = pin_conflicts(&c.users, c.snooze_pin);
    assert_eq!(errors.len(), 4);
    c.validate_config_for_year(2024);
    assert_eq!(names(&c), vec!["Fine".to_string()]);
}

#[test]
fn reminders_are_filtered_and_sorted_in_both_lists() {
    let mut u = user("Ann", 17, 27);
    u.reminders = vec![
        reminder("c", "08:00", 5),
        reminder("b", "07:30", 5),
        reminder("bad", "25:00", 5),
        reminder("junk", "xx", 5),
        reminder("a", "06:15", 5),
    ];
    u.reminders_h = vec![reminder("late", "21:00", 5), reminder("early", "09:05", 5)];
    let mut c = config(vec![u]);
    c.validate_config_for_year(2024);
    assert_eq!(times(&c.users[0].reminders), vec!["06:15", "07:30", "08:00"]);
    assert_eq!(c.users[0].reminders[0].label, "a");
    assert_eq!(times(&c.users[0].reminders_h), vec!["09:05", "21:00"]);
}

#[test]
fn equal_times_keep_their_order() {
    let mut u = user("Ann", 17, 27);
    u.reminders = vec![reminder("first", "07:00", 1), reminder("second", "07:00", 2)];
    let mut c = config(vec![u]);
    c.validate_config_for_year(2024);
    assert_eq!(c.users[0].reminders[0].label, "first");
    assert_eq!(c.users[0].reminders[1].label, "second");
}

#[test]
fn validating_twice_without_dates_changes_nothing() {
    let mut a = user("Ann", 17, 27);
    a.reminders = vec![reminder("x", "09:00", 1), reminder("y", "07:00", 1)];
    let mut c = config(vec![a, user("Bob", 17, 22), user("Cy", 5, 6)]);
    c.validate_config_for_year(2024);
    let first_names = names(&c);
    let first_times = times(&c.users[0].reminders);
    c.validate_config_for_year(2024);
    assert_eq!(names(&c), first_names);
    assert_eq!(times(&c.users[0].reminders), first_times);
    assert_eq!(c.users[1].pin_config.button, 5);
}

#[test]
fn unsorted_reminder_text_is_ordered_by_time_of_day() {
    let mut u = user("Ann", 17, 27);
    u.reminders = vec![reminder("ten", "10:00", 1), reminder("seven", "7:15", 1)];
    let mut c = config(vec![u]);
    c.validate_config_for_year(2024);
    assert_eq!(c.users[0].reminders[0].label, "seven");
}
