//! What a user's scheduler does for each reminder of the day: how long to
//! wait, the packet that marks the reminder active, how long the grace
//! period lasts, and the packet that then turns its audio on.
use crate::bindings::parse_time;
use crate::conf::{reminder_time, Reminder, ReminderView, User, TIME_FORMAT};
use crate::howler::{HowlerUpdatePacket, PacketView, UpdateCommand};
use vstd::prelude::*;

verus! {

/// Seconds past midnight at which a reminder is due, if its time parses.
pub open spec fn due_secs(r: ReminderView) -> Option<int> {
    match reminder_time(r) {
        Some((h, m)) => Some(h * 3600 + m * 60),
        None => None,
    }
}

/// Seconds to wait from `now` until `due`; none when it is already past.
pub open spec fn wait_from(now: int, due: int) -> int {
    if due > now {
        due - now
    } else {
        0
    }
}

/// The steps of one reminder once its time has come.
pub struct ReminderPlan {
    /// Seconds to wait, cancellably, before the LED goes on.
    pub wait_secs: u32,
    /// Sent when the LED goes on: the reminder becomes active, silent.
    pub set_active: HowlerUpdatePacket,
    /// Seconds of the grace period.
    pub grace_secs: u32,
    /// Sent when the grace period ends, whether or not it was cut short.
    pub enable: HowlerUpdatePacket,
}

/// The reminders of the day: the holiday list on a holiday.
pub fn reminders_for_day(user: &User, holiday: bool) -> (r: &Vec<Reminder>)
    ensures
        holiday ==> r@ == user.reminders_h@,
        !holiday ==> r@ == user.reminders@,
{
    if holiday {
        &user.reminders_h
    } else {
        &user.reminders
    }
}

/// The packet a button press sends: no active reminder for the user.
pub fn dismiss_packet(user_id: u8) -> (r: HowlerUpdatePacket)
    ensures
        r@ == (PacketView { job: UpdateCommand::SetActive, user_id, label: Seq::empty() }),
{
    HowlerUpdatePacket { job: UpdateCommand::SetActive, user_id, reminder_label: String::new() }
}

/// Plans a reminder for `user_id` seen at `now_secs` past midnight; `None`
/// when its time is not a valid `HH:MM`.
pub fn plan_reminder(user_id: u8, rem: &Reminder, now_secs: u32) -> (r: Option<ReminderPlan>)
    ensures
        r is None <==> due_secs(rem@) is None,
        r matches Some(p) ==> {
            &&& p.wait_secs == wait_from(now_secs as int, due_secs(rem@)->0)
            &&& p.set_active@ == (PacketView {
                job: UpdateCommand::SetActive,
                user_id,
                label: rem.label@,
            })
            &&& p.grace_secs == rem.grace_period
            &&& p.enable@ == (PacketView { job: UpdateCommand::Enable, user_id, label: rem.label@ })
        },
{
    match parse_time(rem.light_on.as_str(), TIME_FORMAT) {
        Some((h, m)) => {
            let due: u32 = h * 3600 + m * 60;
            let wait: u32 = if due > now_secs {
                due - now_secs
            } else {
                0
            };
            Some(
                ReminderPlan {
                    wait_secs: wait,
                    set_active: HowlerUpdatePacket {
                        job: UpdateCommand::SetActive,
                        user_id,
                        reminder_label: rem.label.clone(),
                    },
                    grace_secs: rem.grace_period,
                    enable: HowlerUpdatePacket {
                        job: UpdateCommand::Enable,
                        user_id,
                        reminder_label: rem.label.clone(),
                    },
                },
            )
        },
        None => None,
    }
}

} // verus!
