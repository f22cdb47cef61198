//! The howler's per-user state: which reminder is active for each user and
//! whether its audio is enabled, updated by packets from the schedulers, and
//! the list of sounds one playback cycle plays.
use crate::bindings::{trim, trimmed};
use vstd::prelude::*;
use vstd::string::*;

verus! {

/// Directory holding one sound file per reminder label.
pub const SOUND_DIR: &'static str = "./remindersounds/";

#[derive(Clone, Copy, PartialEq, Eq, Structural)]
pub enum UpdateCommand {
    /// Makes the label the user's active reminder, with audio off.
    SetActive,
    /// Turns the audio of the user's active reminder on. The packet's label
    /// is not compared with the active one.
    Enable,
}

/// A message from a scheduler or a button listener to the howler.
pub struct HowlerUpdatePacket {
    pub job: UpdateCommand,
    pub user_id: u8,
    pub reminder_label: String,
}

/// A user's active reminder (empty label: none) and whether its audio is on.
pub struct UserActiveReminder {
    reminder_label: String,
    audio_active: bool,
}

pub struct PacketView {
    pub job: UpdateCommand,
    pub user_id: u8,
    pub label: Seq<char>,
}

pub struct ActiveView {
    pub label: Seq<char>,
    pub audio: bool,
}

impl View for HowlerUpdatePacket {
    type V = PacketView;

    open spec fn view(&self) -> PacketView {
        PacketView { job: self.job, user_id: self.user_id, label: self.reminder_label@ }
    }
}

impl View for UserActiveReminder {
    type V = ActiveView;

    closed spec fn view(&self) -> ActiveView {
        ActiveView { label: self.reminder_label@, audio: self.audio_active }
    }
}

pub open spec fn states_view(s: Seq<UserActiveReminder>) -> Seq<ActiveView> {
    s.map_values(|a: UserActiveReminder| a@)
}

pub open spec fn packets_view(s: Seq<HowlerUpdatePacket>) -> Seq<PacketView> {
    s.map_values(|p: HowlerUpdatePacket| p@)
}

/// The states after one packet.
pub open spec fn applied(states: Seq<ActiveView>, p: PacketView) -> Seq<ActiveView> {
    states.update(
        p.user_id as int,
        match p.job {
            UpdateCommand::SetActive => ActiveView { label: p.label, audio: false },
            UpdateCommand::Enable => ActiveView { label: states[p.user_id as int].label, audio: true },
        },
    )
}

/// The states after the packets, taken in order.
pub open spec fn applied_all(states: Seq<ActiveView>, ps: Seq<PacketView>) -> Seq<ActiveView>
    decreases ps.len(),
{
    if ps.len() == 0 {
        states
    } else {
        applied(applied_all(states, ps.drop_last()), ps.last())
    }
}

/// Every packet names a user that has a state.
pub open spec fn packets_in_range(ps: Seq<PacketView>, n: int) -> bool {
    forall|i: int| 0 <= i < ps.len() ==> (ps[i].user_id as int) < n
}

/// A label that plays nothing: empty, or whitespace only.
pub open spec fn silent(label: Seq<char>) -> bool {
    label.len() == 0 || trimmed(label).len() == 0
}

/// The labels played in one cycle: each active label that is not silent, by
/// user.
pub open spec fn sounds(states: Seq<ActiveView>) -> Seq<Seq<char>>
    decreases states.len(),
{
    if states.len() == 0 {
        Seq::empty()
    } else {
        let r = sounds(states.drop_last());
        if silent(states.last().label) {
            r
        } else {
            r.push(states.last().label)
        }
    }
}

pub open spec fn strings_view(s: Seq<String>) -> Seq<Seq<char>> {
    s.map_values(|x: String| x@)
}

impl UserActiveReminder {
    /// No active reminder, audio off.
    pub fn idle() -> (r: UserActiveReminder)
        ensures
            r@ == (ActiveView { label: Seq::empty(), audio: false }),
    {
        UserActiveReminder { reminder_label: String::new(), audio_active: false }
    }

    pub fn reminder_label(&self) -> (r: &str)
        ensures
            r@ == self@.label,
    {
        self.reminder_label.as_str()
    }

    pub fn audio_active(&self) -> (r: bool)
        ensures
            r == self@.audio,
    {
        self.audio_active
    }
}

impl Default for UserActiveReminder {
    fn default() -> (r: UserActiveReminder)
        ensures
            r@ == (ActiveView { label: Seq::empty(), audio: false }),
    {
        UserActiveReminder::idle()
    }
}

/// One idle state per user.
pub fn new_states(user_count: usize) -> (r: Vec<UserActiveReminder>)
    ensures
        r@.len() == user_count,
        forall|i: int| 0 <= i < user_count ==> #[trigger] r@[i]@ == (ActiveView {
            label: Seq::empty(),
            audio: false,
        }),
{
    let mut r: Vec<UserActiveReminder> = Vec::new();
    while r.len() < user_count
        invariant
            r@.len() <= user_count,
            forall|i: int| 0 <= i < r@.len() ==> #[trigger] r@[i]@ == (ActiveView {
                label: Seq::empty(),
                audio: false,
            }),
        decreases user_count - r@.len(),
    {
        r.push(UserActiveReminder::idle());
    }
    r
}

/// Applies one packet: `SetActive` replaces the user's state with the label and
/// audio off; `Enable` keeps the user's label and turns audio on.
pub fn apply_update(states: &mut Vec<UserActiveReminder>, update: HowlerUpdatePacket)
    requires
        (update.user_id as int) < old(states)@.len(),
    ensures
        final(states)@.len() == old(states)@.len(),
        states_view(final(states)@) == applied(states_view(old(states)@), update@),
{
    let u = update.user_id as usize;
    let ghost before = states@;
    let next = match update.job {
        UpdateCommand::SetActive => UserActiveReminder {
            reminder_label: update.reminder_label,
            audio_active: false,
        },
        UpdateCommand::Enable => UserActiveReminder {
            reminder_label: states[u].reminder_label.clone(),
            audio_active: true,
        },
    };
    states.set(u, next);
    assert(states_view(states@) =~= applied(states_view(before), update@));
}

/// Applies the packets in the order they arrived.
pub fn apply_updates(states: &mut Vec<UserActiveReminder>, updates: Vec<HowlerUpdatePacket>)
    requires
        packets_in_range(packets_view(updates@), old(states)@.len() as int),
    ensures
        states_view(final(states)@) == applied_all(
            states_view(old(states)@),
            packets_view(updates@),
        ),
{
    let ghost start = states_view(states@);
    let ghost ps = packets_view(updates@);
    let mut rest = updates;
    let mut i: usize = 0;
    let n = rest.len();
    assert(ps.take(0) =~= Seq::<PacketView>::empty());
    while i < n
        invariant
            n == ps.len(),
            i <= n,
            rest@.len() == n - i,
            packets_view(rest@) == ps.skip(i as int),
            packets_in_range(ps, start.len() as int),
            states@.len() == start.len(),
            states_view(states@) == applied_all(start, ps.take(i as int)),
        decreases n - i,
    {
        let ghost before = rest@;
        let p = rest.remove(0);
        proof {
            assert(p@ == ps[i as int]) by {
                assert(packets_view(before)[0] == before[0]@);
                assert(ps.skip(i as int)[0] == ps[i as int]);
            }
            assert(rest@ =~= before.skip(1));
            assert(packets_view(before.skip(1)) =~= packets_view(before).skip(1));
            assert(ps.skip(i as int).skip(1) =~= ps.skip(i + 1));
            assert(ps.take(i + 1).drop_last() =~= ps.take(i as int));
            assert(ps.take(i + 1).last() == p@);
        }
        apply_update(states, p);
        i = i + 1;
    }
    assert(ps.take(n as int) =~= ps);
}

/// The labels to play this cycle: every non-blank active label, by user.
pub fn playlist(states: &Vec<UserActiveReminder>) -> (r: Vec<String>)
    ensures
        strings_view(r@) == sounds(states_view(states@)),
{
    let ghost sv = states_view(states@);
    let mut r: Vec<String> = Vec::new();
    let mut i: usize = 0;
    assert(sv.take(0) =~= Seq::<ActiveView>::empty());
    while i < states.len()
        invariant
            i <= states@.len(),
            sv == states_view(states@),
            strings_view(r@) == sounds(sv.take(i as int)),
        decreases states.len() - i,
    {
        assert(sv.take(i + 1).drop_last() =~= sv.take(i as int));
        assert(sv.take(i + 1).last() == states@[i as int]@);
        let label = states[i].reminder_label.as_str();
        if !(label.is_empty() || trim(label).is_empty()) {
            let ghost prev = r@;
            r.push(states[i].reminder_label.clone());
            assert(strings_view(r@) =~= strings_view(prev).push(states@[i as int].reminder_label@));
        }
        i = i + 1;
    }
    assert(sv.take(states@.len() as int) =~= sv);
    r
}

/// One howler cycle: applies the packets that arrived, then lists the labels
/// to play.
pub fn howl_cycle(states: &mut Vec<UserActiveReminder>, updates: Vec<HowlerUpdatePacket>) -> (r: Vec<String>)
    requires
        packets_in_range(packets_view(updates@), old(states)@.len() as int),
    ensures
        states_view(final(states)@) == applied_all(
            states_view(old(states)@),
            packets_view(updates@),
        ),
        strings_view(r@) == sounds(states_view(final(states)@)),
{
    apply_updates(states, updates);
    playlist(states)
}

/// The path of the sound file for a label.
pub fn sound_path(label: &str) -> (r: String)
    ensures
        r@ == SOUND_DIR@ + label@,
{
    let mut r = String::from_str(SOUND_DIR);
    r.append(label);
    r
}

proof fn lemma_applied_len(states: Seq<ActiveView>, ps: Seq<PacketView>)
    requires
        packets_in_range(ps, states.len() as int),
    ensures
        applied_all(states, ps).len() == states.len(),
    decreases ps.len(),
{
    if ps.len() > 0 {
        assert(packets_in_range(ps.drop_last(), states.len() as int)) by {
            assert forall|i: int| 0 <= i < ps.drop_last().len() implies (
            #[trigger] ps.drop_last()[i]).user_id < states.len() by {
                assert(ps.drop_last()[i] == ps[i]);
            }
        }
        lemma_applied_len(states, ps.drop_last());
        assert(ps[ps.len() - 1] == ps.last());
    }
}

/// When the last packet before a playback clears a user's active reminder,
/// that user plays nothing at the playback, whatever packets came before.
pub proof fn lemma_cleared_user_is_silent(states: Seq<ActiveView>, ps: Seq<PacketView>, u: u8)
    requires
        packets_in_range(ps, states.len() as int),
        ps.len() > 0,
        ps.last() == (PacketView { job: UpdateCommand::SetActive, user_id: u, label: Seq::empty() }),
    ensures
        applied_all(states, ps)[u as int] == (ActiveView { label: Seq::empty(), audio: false }),
        silent(applied_all(states, ps)[u as int].label),
{
    assert(packets_in_range(ps.drop_last(), states.len() as int)) by {
        assert forall|i: int| 0 <= i < ps.drop_last().len() implies (
        #[trigger] ps.drop_last()[i]).user_id < states.len() by {
            assert(ps.drop_last()[i] == ps[i]);
        }
    }
    lemma_applied_len(states, ps.drop_last());
    assert(ps[ps.len() - 1] == ps.last());
}

} // verus!
