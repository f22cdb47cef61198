//! What validation guarantees, proved over the specification of
//! `Configuration::validate_config_for_year`.
use crate::conf::{
    allowed_pin, claimed_after, date_after, date_of, dated_holiday, dated_season, holiday_parses,
    insert_pos, kept_users, normalized_user, pins_pass, season_parses, sort_by_time, sorted_by_time,
    has_valid_time, normalized_reminders, time_key, valid_times, validated_holidays,
    validated_seasons, validated, validated_users, with_year, wraps_year, ConfigView,
    HolidayView, PinConfig, ReminderView, SeasonView, UserView,
};
use vstd::prelude::*;

verus! {

/// Two users' pins share nothing.
pub open spec fn pins_disjoint(a: PinConfig, b: PinConfig) -> bool {
    a.button != b.button && a.button != b.led && a.led != b.button && a.led != b.led
}

/// Every pin is allowed, no user's two pins coincide, none is the snooze pin,
/// and no two users share a pin.
pub open spec fn pins_well_assigned(us: Seq<UserView>, snooze: u8) -> bool {
    &&& forall|i: int|
        0 <= i < us.len() ==> {
            let p = #[trigger] us[i].pins;
            &&& allowed_pin(p.button)
            &&& allowed_pin(p.led)
            &&& p.button != p.led
            &&& p.button != snooze
            &&& p.led != snooze
        }
    &&& forall|i: int, j: int|
        0 <= i < j < us.len() ==> pins_disjoint(#[trigger] us[i].pins, #[trigger] us[j].pins)
}

proof fn lemma_kept_claimed(us: Seq<UserView>, snooze: u8)
    ensures
        claimed_after(us, snooze).contains(snooze),
        forall|i: int|
            0 <= i < kept_users(us, snooze).len() ==> claimed_after(us, snooze).contains(
                (#[trigger] kept_users(us, snooze)[i]).pins.button,
            ) && claimed_after(us, snooze).contains(kept_users(us, snooze)[i].pins.led),
        pins_well_assigned(kept_users(us, snooze), snooze),
    decreases us.len(),
{
    if us.len() > 0 {
        let p = us.drop_last();
        let u = us.last();
        lemma_kept_claimed(p, snooze);
        let c = claimed_after(p, snooze);
        let c2 = claimed_after(us, snooze);
        let k = kept_users(p, snooze);
        assert(c.subset_of(c2));
        if pins_pass(c, u.pins) {
            let k2 = kept_users(us, snooze);
            assert(k2 == k.push(u));
            assert(c2 == c.insert(u.pins.button).insert(u.pins.led));
            assert forall|i: int, j: int| 0 <= i < j < k2.len() implies pins_disjoint(
                #[trigger] k2[i].pins,
                #[trigger] k2[j].pins,
            ) by {
                if j == k.len() {
                    assert(c.contains(k[i].pins.button) && c.contains(k[i].pins.led));
                } else {
                    assert(k2[i] == k[i] && k2[j] == k[j]);
                }
            }
            assert forall|i: int| 0 <= i < k2.len() implies c2.contains(
                (#[trigger] k2[i]).pins.button,
            ) && c2.contains(k2[i].pins.led) by {
                if i < k.len() {
                    assert(k2[i] == k[i]);
                }
            }
        }
    }
}

/// After validation every used pin is on the allow-list, and no two roles
/// share a pin: not two users, not a user's button and LED, and none of them
/// with the snooze pin.
pub proof fn lemma_validated_pins_distinct(users: Seq<UserView>, snooze: u8)
    ensures
        pins_well_assigned(validated_users(users, snooze), snooze),
{
    lemma_kept_claimed(users, snooze);
    let k = kept_users(users, snooze);
    let v = validated_users(users, snooze);
    assert forall|i: int| 0 <= i < v.len() implies #[trigger] v[i].pins == k[i].pins by {}
    assert forall|i: int, j: int| 0 <= i < j < v.len() implies pins_disjoint(
        #[trigger] v[i].pins,
        #[trigger] v[j].pins,
    ) by {
        assert(v[i].pins == k[i].pins && v[j].pins == k[j].pins);
    }
}

proof fn lemma_insert_pos_split(t: Seq<ReminderView>, k: int)
    ensures
        0 <= insert_pos(t, k) <= t.len(),
        forall|i: int| insert_pos(t, k) <= i < t.len() ==> time_key(#[trigger] t[i]) > k,
        insert_pos(t, k) == 0 || time_key(t[insert_pos(t, k) - 1]) <= k,
    decreases t.len(),
{
    if t.len() > 0 && time_key(t.last()) > k {
        let d = t.drop_last();
        lemma_insert_pos_split(d, k);
        assert forall|i: int| insert_pos(t, k) <= i < t.len() implies time_key(#[trigger] t[i]) > k by {
            if i < d.len() {
                assert(t[i] == d[i]);
            }
        }
        if insert_pos(d, k) > 0 {
            assert(t[insert_pos(d, k) - 1] == d[insert_pos(d, k) - 1]);
        }
    }
}

/// Sorting by time yields a list ordered by time of day.
pub proof fn lemma_sort_by_time_sorted(s: Seq<ReminderView>)
    ensures
        sorted_by_time(sort_by_time(s)),
        sort_by_time(s).len() == s.len(),
    decreases s.len(),
{
    if s.len() > 0 {
        let t = sort_by_time(s.drop_last());
        let x = s.last();
        let k = time_key(x);
        lemma_sort_by_time_sorted(s.drop_last());
        lemma_insert_pos_split(t, k);
        let p = insert_pos(t, k);
        let r = t.insert(p, x);
        assert(r == sort_by_time(s));
        assert forall|i: int, j: int| 0 <= i <= j < r.len() implies time_key(r[i]) <= time_key(
            r[j],
        ) by {
            if i < p && j == p {
                assert(time_key(t[i]) <= time_key(t[p - 1]));
            } else if i == p && j > p {
                assert(r[j] == t[j - 1]);
            } else if i < p && j > p {
                assert(r[j] == t[j - 1]);
            }
        }
    }
}

/// After validation both reminder lists of every user are ordered by time.
pub proof fn lemma_validated_reminders_sorted(users: Seq<UserView>, snooze: u8)
    ensures
        forall|i: int|
            0 <= i < validated_users(users, snooze).len() ==> sorted_by_time(
                (#[trigger] validated_users(users, snooze)[i]).reminders,
            ) && sorted_by_time(validated_users(users, snooze)[i].reminders_h),
{
    let v = validated_users(users, snooze);
    let k = kept_users(users, snooze);
    assert forall|i: int| 0 <= i < v.len() implies sorted_by_time((#[trigger] v[i]).reminders)
        && sorted_by_time(v[i].reminders_h) by {
        assert(v[i] == normalized_user(k[i]));
        lemma_sort_by_time_sorted(valid_times(k[i].reminders));
        lemma_sort_by_time_sorted(valid_times(k[i].reminders_h));
    }
}

/// A season whose start, dated in `year`, falls after its end is moved to
/// start in the year before, keeping its day and month, while its end stays in
/// `year`: whatever day and month the two ends name, the start is then not
/// after the end.
pub proof fn lemma_wrapped_season_starts_year_before(h: SeasonView, year: i32)
    requires
        year > i32::MIN,
        wraps_year(h.start, h.end, year as int),
    ensures
        dated_season(h, year as int).start == with_year(h.start, year - 1),
        dated_season(h, year as int).end == with_year(h.end, year as int),
        forall|sm: u32, sd: u32, em: u32, ed: u32|
            !#[trigger] date_after(((year - 1) as i32, sm, sd), (year, em, ed)),
{
}

/// No holiday or season left after validation has a date that fails to parse.
pub proof fn lemma_unparseable_dates_dropped(c: ConfigView, year: int)
    ensures
        forall|i: int|
            0 <= i < validated(c, year).holidays.len() ==> date_of(
                (#[trigger] validated(c, year).holidays[i]).date,
            ) is Some,
        forall|j: int|
            0 <= j < validated(c, year).seasons.len() ==> date_of(
                (#[trigger] validated(c, year).seasons[j]).start,
            ) is Some && date_of(validated(c, year).seasons[j].end) is Some,
{
    let v = validated(c, year);
    let hm = c.holidays.map_values(|h: HolidayView| dated_holiday(h, year));
    let sm = c.seasons.map_values(|h: SeasonView| dated_season(h, year));
    assert forall|i: int| 0 <= i < v.holidays.len() implies date_of(
        (#[trigger] v.holidays[i]).date,
    ) is Some by {
        hm.lemma_filter_pred(|h: HolidayView| holiday_parses(h), i);
    }
    assert forall|j: int| 0 <= j < v.seasons.len() implies date_of((#[trigger] v.seasons[j]).start)
        is Some && date_of(v.seasons[j].end) is Some by {
        sm.lemma_filter_pred(|h: SeasonView| season_parses(h), j);
    }
}

proof fn lemma_all_valid_kept(s: Seq<ReminderView>)
    requires
        forall|i: int| 0 <= i < s.len() ==> has_valid_time(#[trigger] s[i]),
    ensures
        valid_times(s) == s,
    decreases s.len(),
{
    reveal_with_fuel(Seq::filter, 1);
    if s.len() > 0 {
        let d = s.drop_last();
        assert forall|i: int| 0 <= i < d.len() implies has_valid_time(#[trigger] d[i]) by {
            assert(d[i] == s[i]);
        }
        lemma_all_valid_kept(d);
        assert(d.push(s.last()) =~= s);
    }
}

proof fn lemma_sort_keeps_valid(s: Seq<ReminderView>)
    requires
        forall|i: int| 0 <= i < s.len() ==> has_valid_time(#[trigger] s[i]),
    ensures
        forall|i: int|
            0 <= i < sort_by_time(s).len() ==> has_valid_time(#[trigger] sort_by_time(s)[i]),
    decreases s.len(),
{
    if s.len() > 0 {
        let d = s.drop_last();
        assert forall|i: int| 0 <= i < d.len() implies has_valid_time(#[trigger] d[i]) by {
            assert(d[i] == s[i]);
        }
        lemma_sort_keeps_valid(d);
        let t = sort_by_time(d);
        lemma_insert_pos_split(t, time_key(s.last()));
        let p = insert_pos(t, time_key(s.last()));
        let r = t.insert(p, s.last());
        assert forall|i: int| 0 <= i < r.len() implies has_valid_time(#[trigger] r[i]) by {
            if i < p {
                assert(r[i] == t[i]);
            } else if i > p {
                assert(r[i] == t[i - 1]);
            }
        }
    }
}

proof fn lemma_sort_of_sorted(s: Seq<ReminderView>)
    requires
        sorted_by_time(s),
    ensures
        sort_by_time(s) == s,
    decreases s.len(),
{
    if s.len() > 0 {
        let d = s.drop_last();
        assert(sorted_by_time(d)) by {
            assert forall|i: int, j: int| 0 <= i <= j < d.len() implies time_key(d[i]) <= time_key(
                d[j],
            ) by {
                assert(d[i] == s[i] && d[j] == s[j]);
            }
        }
        lemma_sort_of_sorted(d);
        if d.len() > 0 {
            assert(d.last() == s[d.len() - 1]);
        }
        assert(insert_pos(d, time_key(s.last())) == d.len());
        assert(d.insert(d.len() as int, s.last()) =~= s);
    }
}

proof fn lemma_normalized_twice(s: Seq<ReminderView>)
    ensures
        normalized_reminders(normalized_reminders(s)) == normalized_reminders(s),
{
    let v = valid_times(s);
    assert forall|i: int| 0 <= i < v.len() implies has_valid_time(#[trigger] v[i]) by {
        s.lemma_filter_pred(|r: ReminderView| has_valid_time(r), i);
    }
    lemma_sort_keeps_valid(v);
    let n = sort_by_time(v);
    lemma_all_valid_kept(n);
    lemma_sort_by_time_sorted(v);
    lemma_sort_of_sorted(n);
}

proof fn lemma_well_assigned_all_kept(w: Seq<UserView>, snooze: u8)
    requires
        pins_well_assigned(w, snooze),
    ensures
        kept_users(w, snooze) == w,
        forall|p: u8|
            #[trigger] claimed_after(w, snooze).contains(p) <==> (p == snooze || exists|i: int|
                0 <= i < w.len() && (w[i].pins.button == p || w[i].pins.led == p)),
    decreases w.len(),
{
    if w.len() > 0 {
        let d = w.drop_last();
        let u = w.last();
        assert(pins_well_assigned(d, snooze)) by {
            assert forall|i: int| 0 <= i < d.len() implies #[trigger] d[i].pins == w[i].pins by {}
            assert forall|i: int, j: int| 0 <= i < j < d.len() implies pins_disjoint(
                #[trigger] d[i].pins,
                #[trigger] d[j].pins,
            ) by {
                assert(d[i].pins == w[i].pins && d[j].pins == w[j].pins);
            }
        }
        lemma_well_assigned_all_kept(d, snooze);
        let c = claimed_after(d, snooze);
        assert(w[w.len() - 1].pins == u.pins);
        assert(!c.contains(u.pins.button)) by {
            if c.contains(u.pins.button) && u.pins.button != snooze {
                let i = choose|i: int|
                    0 <= i < d.len() && (d[i].pins.button == u.pins.button || d[i].pins.led
                        == u.pins.button);
                assert(d[i].pins == w[i].pins);
                assert(pins_disjoint(w[i].pins, w[w.len() - 1].pins));
            }
        }
        assert(!c.contains(u.pins.led)) by {
            if c.contains(u.pins.led) && u.pins.led != snooze {
                let i = choose|i: int|
                    0 <= i < d.len() && (d[i].pins.button == u.pins.led || d[i].pins.led
                        == u.pins.led);
                assert(d[i].pins == w[i].pins);
                assert(pins_disjoint(w[i].pins, w[w.len() - 1].pins));
            }
        }
        assert(pins_pass(c, u.pins));
        assert(d.push(u) =~= w);
        assert forall|p: u8| #[trigger] claimed_after(w, snooze).contains(p) <==> (p == snooze
            || exists|i: int| 0 <= i < w.len() && (w[i].pins.button == p || w[i].pins.led == p)) by {
            if exists|i: int| 0 <= i < w.len() && (w[i].pins.button == p || w[i].pins.led == p) {
                let i = choose|i: int|
                    0 <= i < w.len() && (w[i].pins.button == p || w[i].pins.led == p);
                if i < d.len() {
                    assert(d[i] == w[i]);
                }
            }
            if exists|i: int| 0 <= i < d.len() && (d[i].pins.button == p || d[i].pins.led == p) {
                let i = choose|i: int|
                    0 <= i < d.len() && (d[i].pins.button == p || d[i].pins.led == p);
                assert(d[i] == w[i]);
            }
        }
    }
}

/// Validating a configuration that holds no holidays and no seasons a second
/// time changes nothing. (A holiday or season date gains the year once more
/// at each run, so configurations holding them are left out.)
pub proof fn lemma_validate_twice(c: ConfigView, year: int)
    requires
        c.holidays.len() == 0,
        c.seasons.len() == 0,
    ensures
        validated(validated(c, year), year) == validated(c, year),
{
    reveal_with_fuel(Seq::filter, 1);
    let v = validated(c, year);
    assert(c.holidays.map_values(|h: HolidayView| dated_holiday(h, year)) =~= c.holidays);
    assert(c.seasons.map_values(|h: SeasonView| dated_season(h, year)) =~= c.seasons);
    assert(v.holidays.map_values(|h: HolidayView| dated_holiday(h, year)) =~= v.holidays);
    assert(v.seasons.map_values(|h: SeasonView| dated_season(h, year)) =~= v.seasons);
    let vu = v.users;
    lemma_validated_pins_distinct(c.users, c.snooze_pin);
    lemma_well_assigned_all_kept(vu, c.snooze_pin);
    let k = kept_users(c.users, c.snooze_pin);
    assert forall|i: int| 0 <= i < vu.len() implies #[trigger] normalized_user(vu[i]) == vu[i] by {
        assert(vu[i] == normalized_user(k[i]));
        lemma_normalized_twice(k[i].reminders);
        lemma_normalized_twice(k[i].reminders_h);
    }
    assert(validated_users(vu, c.snooze_pin) =~= vu);
}

} // verus!
