//! The configuration and its validation: dates gain the year, seasons that
//! wrap the new year start a year earlier, entries that do not parse are
//! dropped, users whose pins clash are dropped, and reminders are sorted by
//! time of day.
use crate::bindings::{
    current_year, date_fields, decimal, int_text, parse_date, parse_time, regex_match,
    regex_outcome, time_fields,
};
use vstd::prelude::*;
use vstd::string::*;

verus! {

/// Format of a reminder's time of day.
pub const TIME_FORMAT: &'static str = "%H:%M";

/// Format of a holiday date once the year is appended.
pub const DATE_FORMAT: &'static str = "%d/%m/%Y";

/// Strict `DD/MM/YYYY` calendar-date grammar, leap days included.
pub const STRICT_DATE_PATTERN: &'static str = r"^(((0[1-9]|[12][0-9]|3[01])[- /.](0[13578]|1[02])|(0[1-9]|[12][0-9]|30)[- /.](0[469]|11)|(0[1-9]|1\d|2[0-8])[- /.]02)[- /.]\d{4}|29[- /.]02[- /.](\d{2}(0[48]|[2468][048]|[13579][26])|([02468][048]|[1359][26])00))$";

/// The howler interval used when the configured one is out of range.
pub const DEFAULT_HOWLER_INTERVAL: u32 = 10;

/// Largest accepted howler interval, in seconds.
pub const MAX_HOWLER_INTERVAL: u32 = 86349;

/// A pin clash found while validating.
pub enum Error {
    Pin { t: String, pin: u8, name: String },
}

pub struct HolidaySeason {
    pub name: String,
    pub start_date: String,
    pub end_date: String,
}

pub struct Holiday {
    pub name: String,
    pub date: String,
}

pub struct Reminder {
    pub label: String,
    pub vocal_reminder: Option<String>,
    pub light_on: String,
    pub grace_period: u32,
}

#[derive(Clone, Copy, PartialEq, Eq, Structural)]
pub struct PinConfig {
    pub button: u8,
    pub led: u8,
}

pub struct User {
    pub name: String,
    pub reminders: Vec<Reminder>,
    pub reminders_h: Vec<Reminder>,
    pub pin_config: PinConfig,
}

pub struct Configuration {
    pub tts_lan: String,
    pub howler_interval: u32,
    pub snooze_pin: u8,
    pub public_holidays: Vec<Holiday>,
    pub holiday_seasons: Vec<HolidaySeason>,
    pub users: Vec<User>,
}

pub struct HolidayView {
    pub name: Seq<char>,
    pub date: Seq<char>,
}

pub struct SeasonView {
    pub name: Seq<char>,
    pub start: Seq<char>,
    pub end: Seq<char>,
}

pub struct ReminderView {
    pub label: Seq<char>,
    pub vocal: Option<Seq<char>>,
    pub light_on: Seq<char>,
    pub grace_period: u32,
}

pub struct UserView {
    pub name: Seq<char>,
    pub reminders: Seq<ReminderView>,
    pub reminders_h: Seq<ReminderView>,
    pub pins: PinConfig,
}

pub struct ConfigView {
    pub tts_lan: Seq<char>,
    pub howler_interval: u32,
    pub snooze_pin: u8,
    pub holidays: Seq<HolidayView>,
    pub seasons: Seq<SeasonView>,
    pub users: Seq<UserView>,
}

impl View for Holiday {
    type V = HolidayView;

    open spec fn view(&self) -> HolidayView {
        HolidayView { name: self.name@, date: self.date@ }
    }
}

impl View for HolidaySeason {
    type V = SeasonView;

    open spec fn view(&self) -> SeasonView {
        SeasonView { name: self.name@, start: self.start_date@, end: self.end_date@ }
    }
}

impl View for Reminder {
    type V = ReminderView;

    open spec fn view(&self) -> ReminderView {
        ReminderView {
            label: self.label@,
            vocal: match self.vocal_reminder {
                Some(s) => Some(s@),
                None => None,
            },
            light_on: self.light_on@,
            grace_period: self.grace_period,
        }
    }
}

pub open spec fn reminders_view(s: Seq<Reminder>) -> Seq<ReminderView> {
    s.map_values(|r: Reminder| r@)
}

impl View for User {
    type V = UserView;

    open spec fn view(&self) -> UserView {
        UserView {
            name: self.name@,
            reminders: reminders_view(self.reminders@),
            reminders_h: reminders_view(self.reminders_h@),
            pins: self.pin_config,
        }
    }
}

pub open spec fn users_view(s: Seq<User>) -> Seq<UserView> {
    s.map_values(|u: User| u@)
}

pub open spec fn holidays_view(s: Seq<Holiday>) -> Seq<HolidayView> {
    s.map_values(|h: Holiday| h@)
}

pub open spec fn seasons_view(s: Seq<HolidaySeason>) -> Seq<SeasonView> {
    s.map_values(|h: HolidaySeason| h@)
}

impl View for Configuration {
    type V = ConfigView;

    open spec fn view(&self) -> ConfigView {
        ConfigView {
            tts_lan: self.tts_lan@,
            howler_interval: self.howler_interval,
            snooze_pin: self.snooze_pin,
            holidays: holidays_view(self.public_holidays@),
            seasons: seasons_view(self.holiday_seasons@),
            users: users_view(self.users@),
        }
    }
}

// ---------------------------------------------------------------------------
// Reminder times

/// The parsed time of a reminder, if its text is a valid `HH:MM`.
pub open spec fn reminder_time(r: ReminderView) -> Option<(u32, u32)> {
    time_fields(r.light_on, TIME_FORMAT@)
}

pub open spec fn has_valid_time(r: ReminderView) -> bool {
    reminder_time(r) is Some
}

/// Minutes past midnight of a reminder whose time parses (0 otherwise).
pub open spec fn time_key(r: ReminderView) -> int {
    match reminder_time(r) {
        Some((h, m)) => h * 60 + m,
        None => 0,
    }
}

/// Where a reminder with key `k` goes in `s`: after every element, counted
/// from the back, until one whose key is not above `k`.
pub open spec fn insert_pos(s: Seq<ReminderView>, k: int) -> int
    decreases s.len(),
{
    if s.len() == 0 {
        0
    } else if time_key(s.last()) <= k {
        s.len() as int
    } else {
        insert_pos(s.drop_last(), k)
    }
}

/// Stable insertion sort of reminders by time of day.
pub open spec fn sort_by_time(s: Seq<ReminderView>) -> Seq<ReminderView>
    decreases s.len(),
{
    if s.len() == 0 {
        s
    } else {
        let t = sort_by_time(s.drop_last());
        t.insert(insert_pos(t, time_key(s.last())), s.last())
    }
}

/// The reminders that survive validation, in order of time.
pub open spec fn normalized_reminders(s: Seq<ReminderView>) -> Seq<ReminderView> {
    sort_by_time(valid_times(s))
}

/// The reminders whose time parses, in their given order.
pub open spec fn valid_times(s: Seq<ReminderView>) -> Seq<ReminderView> {
    s.filter(|r: ReminderView| has_valid_time(r))
}

proof fn lemma_valid_times_push(s: Seq<ReminderView>, x: ReminderView)
    ensures
        valid_times(s.push(x)) == (if has_valid_time(x) {
            valid_times(s).push(x)
        } else {
            valid_times(s)
        }),
{
    reveal_with_fuel(Seq::filter, 1);
    assert(s.push(x).drop_last() =~= s);
}

pub open spec fn sorted_by_time(s: Seq<ReminderView>) -> bool {
    forall|i: int, j: int| 0 <= i <= j < s.len() ==> time_key(s[i]) <= time_key(s[j])
}

proof fn lemma_insert_pos_bounds(s: Seq<ReminderView>, k: int)
    ensures
        0 <= insert_pos(s, k) <= s.len(),
    decreases s.len(),
{
    if s.len() > 0 {
        lemma_insert_pos_bounds(s.drop_last(), k);
    }
}

/// Moves `x` into the time-ordered list `out` at its place.
fn insert_by_time(out: &mut Vec<Reminder>, x: Reminder, k: u32)
    requires
        k == time_key(x@),
    ensures
        reminders_view(final(out)@) == reminders_view(old(out)@).insert(
            insert_pos(reminders_view(old(out)@), k as int),
            x@,
        ),
{
    let ghost s = reminders_view(out@);
    let mut j: usize = out.len();
    assert(s.take(j as int) =~= s);
    while j > 0 && reminder_key(&out[j - 1]) > k
        invariant
            j <= out.len(),
            s == reminders_view(out@),
            insert_pos(s.take(j as int), k as int) == insert_pos(s, k as int),
        decreases j,
    {
        assert(s.take(j as int).drop_last() =~= s.take(j - 1));
        j = j - 1;
    }
    proof {
        lemma_insert_pos_bounds(s, k as int);
        if j == 0 {
            assert(s.take(0) =~= Seq::<ReminderView>::empty());
        } else {
            assert(s.take(j as int).last() == s[j - 1]);
        }
    }
    out.insert(j, x);
    assert(reminders_view(out@) =~= s.insert(j as int, x@));
}

/// Drops the reminders whose time is not a valid `HH:MM` and orders the rest
/// by time of day, keeping the given order among equal times.
pub fn normalize_reminders(v: Vec<Reminder>) -> (r: Vec<Reminder>)
    ensures
        reminders_view(r@) == normalized_reminders(reminders_view(v@)),
{
    let ghost orig = reminders_view(v@);
    let mut rest = v;
    let mut out: Vec<Reminder> = Vec::new();
    let mut i: usize = 0;
    let n = rest.len();
    assert(orig.take(0) =~= Seq::<ReminderView>::empty());
    proof {
        reveal_with_fuel(Seq::filter, 1);
    }
    while i < n
        invariant
            n == orig.len(),
            i <= n,
            rest@.len() == n - i,
            reminders_view(rest@) == orig.skip(i as int),
            reminders_view(out@) == sort_by_time(valid_times(orig.take(i as int))),
        decreases n - i,
    {
        let ghost before = rest@;
        let x = rest.remove(0);
        proof {
            assert(x@ == orig[i as int]) by {
                assert(reminders_view(before)[0] == before[0]@);
                assert(orig.skip(i as int)[0] == orig[i as int]);
            }
            assert(orig.take(i + 1) =~= orig.take(i as int).push(x@));
            lemma_valid_times_push(orig.take(i as int), x@);
            assert(rest@ =~= before.skip(1));
            assert(reminders_view(before.skip(1)) =~= reminders_view(before).skip(1));
            assert(orig.skip(i as int).skip(1) =~= orig.skip(i + 1));
        }
        if parse_time(x.light_on.as_str(), TIME_FORMAT).is_some() {
            let k = reminder_key(&x);
            let ghost t = valid_times(orig.take(i as int));
            assert(t.push(x@).drop_last() =~= t);
            insert_by_time(&mut out, x, k);
        }
        i = i + 1;
    }
    assert(orig.take(n as int) =~= orig);
    out
}

/// Minutes past midnight of a reminder's time, 0 where it does not parse.
pub fn reminder_key(r: &Reminder) -> (k: u32)
    ensures
        k == time_key(r@),
{
    match parse_time(r.light_on.as_str(), TIME_FORMAT) {
        Some((h, m)) => h * 60 + m,
        None => 0,
    }
}

// ---------------------------------------------------------------------------
// Pin allocation

/// The physical pins a button or an LED may be wired to.
pub open spec fn allowed_pin(p: u8) -> bool {
    p == 2 || p == 3 || p == 4 || p == 17 || p == 27 || p == 22 || p == 10 || p == 9 || p == 11
        || p == 5 || p == 6 || p == 13 || p == 19 || p == 26 || p == 18 || p == 23 || p == 24
        || p == 25 || p == 8 || p == 7 || p == 1 || p == 12 || p == 16 || p == 20 || p == 21
}

/// A pin may be given to a role: it is allowed and nobody holds it yet.
pub open spec fn pin_free(claimed: Set<u8>, p: u8) -> bool {
    allowed_pin(p) && !claimed.contains(p)
}

/// The claimed pins after `p` is asked for.
pub open spec fn claim(claimed: Set<u8>, p: u8) -> Set<u8> {
    if pin_free(claimed, p) {
        claimed.insert(p)
    } else {
        claimed
    }
}

/// A user keeps both pins: the button is free, then the LED is free.
pub open spec fn pins_pass(claimed: Set<u8>, pins: PinConfig) -> bool {
    pin_free(claimed, pins.button) && pin_free(claim(claimed, pins.button), pins.led)
}

/// The pins claimed once `users` have been processed in order, starting from
/// the snooze pin. A pin that passes is claimed even when the user's other
/// pin fails.
pub open spec fn claimed_after(users: Seq<UserView>, snooze: u8) -> Set<u8>
    decreases users.len(),
{
    if users.len() == 0 {
        set![snooze]
    } else {
        let c = claimed_after(users.drop_last(), snooze);
        claim(claim(c, users.last().pins.button), users.last().pins.led)
    }
}

/// The users whose pins both pass, in their given order.
pub open spec fn kept_users(users: Seq<UserView>, snooze: u8) -> Seq<UserView>
    decreases users.len(),
{
    if users.len() == 0 {
        users
    } else {
        let k = kept_users(users.drop_last(), snooze);
        if pins_pass(claimed_after(users.drop_last(), snooze), users.last().pins) {
            k.push(users.last())
        } else {
            k
        }
    }
}

/// A surviving user with both reminder lists normalized.
pub open spec fn normalized_user(u: UserView) -> UserView {
    UserView {
        name: u.name,
        reminders: normalized_reminders(u.reminders),
        reminders_h: normalized_reminders(u.reminders_h),
        pins: u.pins,
    }
}

pub open spec fn validated_users(users: Seq<UserView>, snooze: u8) -> Seq<UserView> {
    kept_users(users, snooze).map_values(|u: UserView| normalized_user(u))
}

/// Whether a pin is on the physical allow-list.
pub fn is_allowed_pin(p: u8) -> (r: bool)
    ensures
        r == allowed_pin(p),
{
    p == 2 || p == 3 || p == 4 || p == 17 || p == 27 || p == 22 || p == 10 || p == 9 || p == 11
        || p == 5 || p == 6 || p == 13 || p == 19 || p == 26 || p == 18 || p == 23 || p == 24
        || p == 25 || p == 8 || p == 7 || p == 1 || p == 12 || p == 16 || p == 20 || p == 21
}

fn holds_pin(used: &Vec<u8>, p: u8) -> (r: bool)
    ensures
        r == used@.contains(p),
{
    let mut i: usize = 0;
    while i < used.len()
        invariant
            i <= used.len(),
            forall|j: int| 0 <= j < i ==> used@[j] != p,
        decreases used.len() - i,
    {
        if used[i] == p {
            return true;
        }
        i = i + 1;
    }
    false
}

/// Asks for pin `p`: claims it and answers true when it is free.
fn take_pin(used: &mut Vec<u8>, p: u8) -> (r: bool)
    ensures
        r == pin_free(old(used)@.to_set(), p),
        final(used)@.to_set() == claim(old(used)@.to_set(), p),
{
    proof {
        assert(forall|q: u8| old(used)@.contains(q) <==> old(used)@.to_set().contains(q));
    }
    if is_allowed_pin(p) && !holds_pin(used, p) {
        let ghost before = used@;
        used.push(p);
        assert(used@.to_set() =~= before.to_set().insert(p)) by {
            assert forall|q: u8| used@.contains(q) <==> before.contains(q) || q == p by {
                if used@.contains(q) {
                    let j = choose|j: int| 0 <= j < used@.len() && used@[j] == q;
                    if j < before.len() {
                        assert(before[j] == q);
                    }
                }
                if before.contains(q) {
                    let j = choose|j: int| 0 <= j < before.len() && before[j] == q;
                    assert(used@[j] == q);
                }
                if q == p {
                    assert(used@[before.len() as int] == q);
                }
            }
        }
        true
    } else {
        false
    }
}

fn normalize_user(u: User) -> (r: User)
    ensures
        r@ == normalized_user(u@),
{
    User {
        name: u.name,
        reminders: normalize_reminders(u.reminders),
        reminders_h: normalize_reminders(u.reminders_h),
        pin_config: u.pin_config,
    }
}

/// Processes users in order, dropping each one whose button or LED pin is not
/// allowed or already claimed (the snooze pin counts as claimed), and
/// normalizes the reminders of those that stay.
pub fn allocate_users(users: Vec<User>, snooze: u8) -> (r: Vec<User>)
    ensures
        users_view(r@) == validated_users(users_view(users@), snooze),
{
    let ghost orig = users_view(users@);
    let mut rest = users;
    let mut out: Vec<User> = Vec::new();
    let mut used: Vec<u8> = Vec::new();
    used.push(snooze);
    let mut i: usize = 0;
    let n = rest.len();
    assert(orig.take(0) =~= Seq::<UserView>::empty());
    assert(used@.to_set() =~= set![snooze]) by {
        assert(used@[0] == snooze);
    }
    assert(users_view(out@) =~= kept_users(orig.take(0), snooze).map_values(
        |u: UserView| normalized_user(u),
    ));
    while i < n
        invariant
            n == orig.len(),
            i <= n,
            rest@.len() == n - i,
            users_view(rest@) == orig.skip(i as int),
            used@.to_set() == claimed_after(orig.take(i as int), snooze),
            users_view(out@) == kept_users(orig.take(i as int), snooze).map_values(
                |u: UserView| normalized_user(u),
            ),
        decreases n - i,
    {
        let ghost before = rest@;
        let ghost c = used@.to_set();
        let u = rest.remove(0);
        proof {
            assert(u@ == orig[i as int]) by {
                assert(users_view(before)[0] == before[0]@);
                assert(orig.skip(i as int)[0] == orig[i as int]);
            }
            assert(rest@ =~= before.skip(1));
            assert(users_view(before.skip(1)) =~= users_view(before).skip(1));
            assert(orig.skip(i as int).skip(1) =~= orig.skip(i + 1));
            assert(orig.take(i + 1).drop_last() =~= orig.take(i as int));
            assert(orig.take(i + 1).last() == u@);
        }
        let button_ok = take_pin(&mut used, u.pin_config.button);
        let led_ok = take_pin(&mut used, u.pin_config.led);
        if button_ok && led_ok {
            let ghost prev = out@;
            let nu = normalize_user(u);
            out.push(nu);
            assert(users_view(out@) =~= users_view(prev).push(nu@));
            assert(kept_users(orig.take(i + 1), snooze) == kept_users(orig.take(i as int), snooze).push(orig[i as int]));
            assert(users_view(out@) =~= kept_users(orig.take(i + 1), snooze).map_values(
                |u: UserView| normalized_user(u),
            ));
        }
        i = i + 1;
    }
    assert(orig.take(n as int) =~= orig);
    out
}

pub enum ErrorView {
    Pin { t: Seq<char>, pin: u8, name: Seq<char> },
}

impl View for Error {
    type V = ErrorView;

    open spec fn view(&self) -> ErrorView {
        match self {
            Error::Pin { t, pin, name } => ErrorView::Pin { t: t@, pin: *pin, name: name@ },
        }
    }
}

pub open spec fn errors_view(s: Seq<Error>) -> Seq<ErrorView> {
    s.map_values(|e: Error| e@)
}

/// The clash reports for one user, given the pins claimed before it: the
/// button first, then the LED.
pub open spec fn user_conflicts(c: Set<u8>, u: UserView) -> Seq<ErrorView> {
    let b = u.pins.button;
    let l = u.pins.led;
    (if pin_free(c, b) {
        Seq::empty()
    } else {
        seq![ErrorView::Pin { t: "Button"@, pin: b, name: u.name }]
    }) + (if pin_free(claim(c, b), l) {
        Seq::empty()
    } else {
        seq![ErrorView::Pin { t: "LED"@, pin: l, name: u.name }]
    })
}

/// Every clash that validation meets among `users`, in order.
pub open spec fn conflicts(users: Seq<UserView>, snooze: u8) -> Seq<ErrorView>
    decreases users.len(),
{
    if users.len() == 0 {
        Seq::empty()
    } else {
        conflicts(users.drop_last(), snooze) + user_conflicts(
            claimed_after(users.drop_last(), snooze),
            users.last(),
        )
    }
}

/// The pin clashes that validating `users` will drop users for, one report
/// per failing pin, naming the user, the role and the pin.
pub fn pin_conflicts(users: &Vec<User>, snooze: u8) -> (r: Vec<Error>)
    ensures
        errors_view(r@) == conflicts(users_view(users@), snooze),
{
    let ghost orig = users_view(users@);
    let mut out: Vec<Error> = Vec::new();
    let mut used: Vec<u8> = Vec::new();
    used.push(snooze);
    let mut i: usize = 0;
    assert(orig.take(0) =~= Seq::<UserView>::empty());
    assert(used@.to_set() =~= set![snooze]) by {
        assert(used@[0] == snooze);
    }
    assert(errors_view(out@) =~= Seq::<ErrorView>::empty());
    while i < users.len()
        invariant
            orig == users_view(users@),
            i <= users@.len(),
            used@.to_set() == claimed_after(orig.take(i as int), snooze),
            errors_view(out@) == conflicts(orig.take(i as int), snooze),
        decreases users.len() - i,
    {
        let u = &users[i];
        let ghost c = used@.to_set();
        let ghost prev = errors_view(out@);
        proof {
            assert(orig.take(i + 1).drop_last() =~= orig.take(i as int));
            assert(orig.take(i + 1).last() == u@);
            reveal_strlit("Button");
            reveal_strlit("LED");
        }
        if !take_pin(&mut used, u.pin_config.button) {
            out.push(Error::Pin { t: String::from_str("Button"), pin: u.pin_config.button, name: u.name.clone() });
        }
        if !take_pin(&mut used, u.pin_config.led) {
            out.push(Error::Pin { t: String::from_str("LED"), pin: u.pin_config.led, name: u.name.clone() });
        }
        assert(errors_view(out@) =~= prev + user_conflicts(c, u@));
        i = i + 1;
    }
    assert(orig.take(users@.len() as int) =~= orig);
    out
}

// ---------------------------------------------------------------------------
// Dates

/// A `DD/MM` date with the year appended: `DD/MM/YYYY`.
pub open spec fn with_year(s: Seq<char>, year: int) -> Seq<char> {
    s + seq!['/'] + decimal(year)
}

/// The calendar date a text names, as (year, month, day).
pub open spec fn date_of(s: Seq<char>) -> Option<(i32, u32, u32)> {
    date_fields(s, DATE_FORMAT@)
}

/// The text matches the strict `DD/MM/YYYY` grammar.
pub open spec fn strict_date(s: Seq<char>) -> bool {
    regex_outcome(STRICT_DATE_PATTERN@, s) == Some(true)
}

/// `a` falls on a later day than `b`.
pub open spec fn date_after(a: (i32, u32, u32), b: (i32, u32, u32)) -> bool {
    a.0 > b.0 || (a.0 == b.0 && (a.1 > b.1 || (a.1 == b.1 && a.2 > b.2)))
}

/// A season whose start, in `year`, falls after its end: it spans the new year.
pub open spec fn wraps_year(start: Seq<char>, end: Seq<char>, year: int) -> bool {
    let s = with_year(start, year);
    let e = with_year(end, year);
    strict_date(s) && strict_date(e) && date_of(s) is Some && date_of(e) is Some && date_after(
        date_of(s)->0,
        date_of(e)->0,
    )
}

pub open spec fn dated_holiday(h: HolidayView, year: int) -> HolidayView {
    HolidayView { name: h.name, date: with_year(h.date, year) }
}

pub open spec fn holiday_parses(h: HolidayView) -> bool {
    date_of(h.date) is Some
}

/// The holidays with the year appended, those whose date does not parse left out.
pub open spec fn validated_holidays(hs: Seq<HolidayView>, year: int) -> Seq<HolidayView> {
    hs.map_values(|h: HolidayView| dated_holiday(h, year)).filter(
        |h: HolidayView| holiday_parses(h),
    )
}

/// A season with the year appended to both ends, its start moved a year back
/// when it spans the new year.
pub open spec fn dated_season(h: SeasonView, year: int) -> SeasonView {
    SeasonView {
        name: h.name,
        start: if wraps_year(h.start, h.end, year) {
            with_year(h.start, year - 1)
        } else {
            with_year(h.start, year)
        },
        end: with_year(h.end, year),
    }
}

pub open spec fn season_parses(h: SeasonView) -> bool {
    date_of(h.start) is Some && date_of(h.end) is Some
}

/// The dated seasons whose start and end both parse.
pub open spec fn validated_seasons(hs: Seq<SeasonView>, year: int) -> Seq<SeasonView> {
    hs.map_values(|h: SeasonView| dated_season(h, year)).filter(|h: SeasonView| season_parses(h))
}

proof fn lemma_validated_holidays_push(hs: Seq<HolidayView>, x: HolidayView, year: int)
    ensures
        validated_holidays(hs.push(x), year) == (if holiday_parses(dated_holiday(x, year)) {
            validated_holidays(hs, year).push(dated_holiday(x, year))
        } else {
            validated_holidays(hs, year)
        }),
{
    reveal_with_fuel(Seq::filter, 1);
    let m = hs.push(x).map_values(|h: HolidayView| dated_holiday(h, year));
    assert(m.drop_last() =~= hs.map_values(|h: HolidayView| dated_holiday(h, year)));
}

proof fn lemma_validated_seasons_push(hs: Seq<SeasonView>, x: SeasonView, year: int)
    ensures
        validated_seasons(hs.push(x), year) == (if season_parses(dated_season(x, year)) {
            validated_seasons(hs, year).push(dated_season(x, year))
        } else {
            validated_seasons(hs, year)
        }),
{
    reveal_with_fuel(Seq::filter, 1);
    let m = hs.push(x).map_values(|h: SeasonView| dated_season(h, year));
    assert(m.drop_last() =~= hs.map_values(|h: SeasonView| dated_season(h, year)));
}

/// `text` followed by `/` and the year's digits.
fn append_year(text: String, year: i64) -> (r: String)
    ensures
        r@ == with_year(text@, year as int),
{
    let mut r = text;
    let digits = int_text(year);
    proof {
        reveal_strlit("/");
    }
    r.append("/");
    r.append(digits.as_str());
    r
}

/// Whether `text` is a strict `DD/MM/YYYY` date.
fn is_strict_date(text: &str) -> (r: bool)
    ensures
        r == strict_date(text@),
{
    match regex_match(STRICT_DATE_PATTERN, text) {
        Some(b) => b,
        None => false,
    }
}

/// `a` falls on a later day than `b`.
pub fn is_after(a: (i32, u32, u32), b: (i32, u32, u32)) -> (r: bool)
    ensures
        r == date_after(a, b),
{
    a.0 > b.0 || (a.0 == b.0 && (a.1 > b.1 || (a.1 == b.1 && a.2 > b.2)))
}

/// Appends `year` to every holiday date and keeps the holidays whose date then
/// parses as `DD/MM/YYYY`.
pub fn date_holidays(hs: Vec<Holiday>, year: i32) -> (r: Vec<Holiday>)
    ensures
        holidays_view(r@) == validated_holidays(holidays_view(hs@), year as int),
{
    let ghost orig = holidays_view(hs@);
    let mut rest = hs;
    let mut out: Vec<Holiday> = Vec::new();
    let mut i: usize = 0;
    let n = rest.len();
    assert(orig.take(0) =~= Seq::<HolidayView>::empty());
    proof {
        reveal_with_fuel(Seq::filter, 1);
        assert(Seq::<HolidayView>::empty().map_values(|h: HolidayView| dated_holiday(h, year as int))
            =~= Seq::<HolidayView>::empty());
    }
    while i < n
        invariant
            n == orig.len(),
            i <= n,
            rest@.len() == n - i,
            holidays_view(rest@) == orig.skip(i as int),
            holidays_view(out@) == validated_holidays(orig.take(i as int), year as int),
        decreases n - i,
    {
        let ghost before = rest@;
        let h = rest.remove(0);
        proof {
            assert(h@ == orig[i as int]) by {
                assert(holidays_view(before)[0] == before[0]@);
                assert(orig.skip(i as int)[0] == orig[i as int]);
            }
            assert(rest@ =~= before.skip(1));
            assert(holidays_view(before.skip(1)) =~= holidays_view(before).skip(1));
            assert(orig.skip(i as int).skip(1) =~= orig.skip(i + 1));
            assert(orig.take(i + 1) =~= orig.take(i as int).push(h@));
            lemma_validated_holidays_push(orig.take(i as int), h@, year as int);
        }
        let date = append_year(h.date, year as i64);
        if parse_date(date.as_str(), DATE_FORMAT).is_some() {
            let ghost prev = out@;
            out.push(Holiday { name: h.name, date });
            assert(holidays_view(out@) =~= holidays_view(prev).push(out@.last()@));
        }
        i = i + 1;
    }
    assert(orig.take(n as int) =~= orig);
    out
}

/// Appends `year` to both ends of every season, moves the start of a season
/// that spans the new year back by one year, and keeps the seasons whose
/// start and end then both parse.
pub fn date_seasons(hs: Vec<HolidaySeason>, year: i32) -> (r: Vec<HolidaySeason>)
    ensures
        seasons_view(r@) == validated_seasons(seasons_view(hs@), year as int),
{
    let ghost orig = seasons_view(hs@);
    let mut rest = hs;
    let mut out: Vec<HolidaySeason> = Vec::new();
    let mut i: usize = 0;
    let n = rest.len();
    assert(orig.take(0) =~= Seq::<SeasonView>::empty());
    proof {
        reveal_with_fuel(Seq::filter, 1);
        assert(Seq::<SeasonView>::empty().map_values(|h: SeasonView| dated_season(h, year as int))
            =~= Seq::<SeasonView>::empty());
    }
    while i < n
        invariant
            n == orig.len(),
            i <= n,
            rest@.len() == n - i,
            seasons_view(rest@) == orig.skip(i as int),
            seasons_view(out@) == validated_seasons(orig.take(i as int), year as int),
        decreases n - i,
    {
        let ghost before = rest@;
        let h = rest.remove(0);
        proof {
            assert(h@ == orig[i as int]) by {
                assert(seasons_view(before)[0] == before[0]@);
                assert(orig.skip(i as int)[0] == orig[i as int]);
            }
            assert(rest@ =~= before.skip(1));
            assert(seasons_view(before.skip(1)) =~= seasons_view(before).skip(1));
            assert(orig.skip(i as int).skip(1) =~= orig.skip(i + 1));
            assert(orig.take(i + 1) =~= orig.take(i as int).push(h@));
            lemma_validated_seasons_push(orig.take(i as int), h@, year as int);
        }
        let ghost raw_start = h.start_date@;
        let ghost raw_end = h.end_date@;
        let end = append_year(h.end_date, year as i64);
        let start_now = append_year(h.start_date.clone(), year as i64);
        let mut wraps = false;
        if is_strict_date(start_now.as_str()) && is_strict_date(end.as_str()) {
            match (parse_date(start_now.as_str(), DATE_FORMAT), parse_date(end.as_str(), DATE_FORMAT)) {
                (Some(s), Some(e)) => {
                    wraps = is_after(s, e);
                },
                _ => {},
            }
        }
        assert(wraps == wraps_year(raw_start, raw_end, year as int));
        let start = if wraps {
            append_year(h.start_date, year as i64 - 1)
        } else {
            start_now
        };
        if parse_date(start.as_str(), DATE_FORMAT).is_some() && parse_date(end.as_str(), DATE_FORMAT).is_some() {
            let ghost prev = out@;
            out.push(HolidaySeason { name: h.name, start_date: start, end_date: end });
            assert(seasons_view(out@) =~= seasons_view(prev).push(out@.last()@));
        }
        i = i + 1;
    }
    assert(orig.take(n as int) =~= orig);
    out
}

// ---------------------------------------------------------------------------
// The whole configuration

/// The configuration after validation with `year` as the current year.
pub open spec fn validated(c: ConfigView, year: int) -> ConfigView {
    ConfigView {
        tts_lan: c.tts_lan,
        howler_interval: c.howler_interval,
        snooze_pin: c.snooze_pin,
        holidays: validated_holidays(c.holidays, year),
        seasons: validated_seasons(c.seasons, year),
        users: validated_users(c.users, c.snooze_pin),
    }
}

/// The interval is within `1..=86349` seconds.
pub open spec fn interval_in_range(v: u32) -> bool {
    1 <= v <= MAX_HOWLER_INTERVAL
}

impl Configuration {
    /// Validates with the local clock's current year.
    pub fn validate_config(&mut self)
        ensures
            exists|y: i32| final(self)@ == validated(old(self)@, y as int),
    {
        let year = current_year();
        self.validate_config_for_year(year);
    }

    /// Validates and normalizes the configuration in place, taking `year` as
    /// the current year. The howler interval is left as it is: see
    /// `effective_howler_interval`.
    pub fn validate_config_for_year(&mut self, year: i32)
        ensures
            final(self)@ == validated(old(self)@, year as int),
    {
        let mut holidays: Vec<Holiday> = Vec::new();
        std::mem::swap(&mut holidays, &mut self.public_holidays);
        self.public_holidays = date_holidays(holidays, year);
        let mut seasons: Vec<HolidaySeason> = Vec::new();
        std::mem::swap(&mut seasons, &mut self.holiday_seasons);
        self.holiday_seasons = date_seasons(seasons, year);
        let mut users: Vec<User> = Vec::new();
        std::mem::swap(&mut users, &mut self.users);
        self.users = allocate_users(users, self.snooze_pin);
    }

    /// Whether the configured howler interval is in range.
    pub fn howler_interval_valid(&self) -> (r: bool)
        ensures
            r == interval_in_range(self.howler_interval),
    {
        1 <= self.howler_interval && self.howler_interval <= MAX_HOWLER_INTERVAL
    }

    /// The interval the howler runs with: the configured one when it is in
    /// range, otherwise the default of 10 seconds.
    pub fn effective_howler_interval(&self) -> (r: u32)
        ensures
            interval_in_range(self.howler_interval) ==> r == self.howler_interval,
            !interval_in_range(self.howler_interval) ==> r == DEFAULT_HOWLER_INTERVAL,
    {
        if self.howler_interval_valid() {
            self.howler_interval
        } else {
            DEFAULT_HOWLER_INTERVAL
        }
    }
}

} // verus!
