//! Bringing the site's data up to date: not too often, and one update at a time.
use crate::server::reply;
use crate::server::reply::{ContentType, Reply, ReplyView};
use vstd::prelude::*;
use vstd::string::*;

verus! {

/// How many nanoseconds a second has.
pub const NANOS_PER_SECOND: u128 = 1_000_000_000;

/// How many nanoseconds lie at least between two updates.
pub const MIN_PAUSE: u128 = 300_000_000_000;

/// Whether an update is under way.
#[derive(Copy, Clone, Debug, PartialEq, Eq, Structural)]
pub struct UpdatingStatus {
    pub updating: bool,
}

impl UpdatingStatus {
    /// No update is under way.
    pub fn new() -> (res: Self)
        ensures
            !res.updating,
    {
        UpdatingStatus { updating: false }
    }

    /// Takes note that an update is under way, and says whether one was before.
    pub fn set_updating(&mut self) -> (was_updating: bool)
        ensures
            was_updating == old(self).updating,
            final(self).updating,
    {
        let was_updating: bool = self.updating;
        self.updating = true;
        was_updating
    }

    /// Takes note that the update is over, and tells what became of it.
    pub fn release(&mut self, panicked: bool) -> (message: String)
        ensures
            !final(self).updating,
            message@ == outcome(panicked),
    {
        self.updating = false;
        if panicked {
            "panicked, try again".to_string()
        } else {
            "done".to_string()
        }
    }
}

/// What is told of an update that is over.
pub open spec fn outcome(panicked: bool) -> Seq<char> {
    if panicked {
        "panicked, try again"@
    } else {
        "done"@
    }
}

/// When the last update was asked for, in nanoseconds on a clock that never goes back, and
/// whether it is under way.
#[derive(Copy, Clone, Debug, PartialEq, Eq, Structural)]
pub struct Pushes {
    pub last_update: Option<u128>,
    pub status: UpdatingStatus,
}

/// What is done when an update is asked for.
#[derive(Debug, PartialEq, Eq)]
pub enum Push {
    /// Reply, and do nothing.
    Answer(Reply),
    /// Begin an update, and send what becomes of it.
    Update,
}

/// What is done when an update is asked for.
pub enum PushView {
    Answer(ReplyView),
    Update,
}

impl View for Push {
    type V = PushView;

    open spec fn view(&self) -> PushView {
        match self {
            Push::Answer(reply) => PushView::Answer(reply@),
            Push::Update => PushView::Update,
        }
    }
}

/// The text that `{:?}` gives for a `std::time::Duration` of so many seconds and nanoseconds.
pub uninterp spec fn duration_text(secs: u64, nanos: u32) -> Seq<char>;

/// Calls `std::time::Duration::new` and formats what it yields with `{:?}`. With less than a
/// second of nanoseconds nothing is carried over, so `new` does not panic.
#[verifier::external_body]
fn show_duration(secs: u64, nanos: u32) -> (text: String)
    requires
        nanos < NANOS_PER_SECOND,
    ensures
        text@ == duration_text(secs, nanos),
{
    format!("{:?}", std::time::Duration::new(secs, nanos))
}

/// How long before `now` the time `last` was.
pub open spec fn elapsed(last: u128, now: u128) -> int {
    if now >= last {
        now - last
    } else {
        0
    }
}

/// Whether at `now` the last update is too recent for another one.
pub open spec fn is_too_recent(pushes: Pushes, now: u128) -> bool {
    pushes.last_update matches Some(last) && elapsed(last, now) < MIN_PAUSE
}

/// What is said when the last update was `nanos` nanoseconds ago.
pub open spec fn too_recent(nanos: int) -> Seq<char> {
    "Refreshed too recently ("@ + duration_text(
        (nanos / NANOS_PER_SECOND as int) as u64,
        (nanos % NANOS_PER_SECOND as int) as u32,
    ) + " ago). Please wait."@
}

/// What is done when an update is asked for at `now`.
pub open spec fn push(pushes: Pushes, now: u128) -> PushView {
    if is_too_recent(pushes, now) {
        PushView::Answer(
            reply::message(
                200,
                Some(ContentType::TextUtf8),
                too_recent(elapsed(pushes.last_update->0, now)),
            ),
        )
    } else if pushes.status.updating {
        PushView::Answer(
            reply::message(200, Some(ContentType::TextUtf8), "Already updating!"@),
        )
    } else {
        PushView::Update
    }
}

/// What is remembered once an update was asked for at `now`.
pub open spec fn pushed(pushes: Pushes, now: u128) -> Pushes {
    if is_too_recent(pushes, now) {
        pushes
    } else {
        Pushes { last_update: Some(now), status: UpdatingStatus { updating: true } }
    }
}

/// What is remembered once updates were asked for at all of `times`, in this order.
pub open spec fn all_pushed(pushes: Pushes, times: Seq<u128>) -> Pushes
    decreases times.len(),
{
    if times.len() == 0 {
        pushes
    } else {
        pushed(all_pushed(pushes, times.drop_last()), times.last())
    }
}

/// What is remembered once the update is over.
pub open spec fn released(pushes: Pushes) -> Pushes {
    Pushes { status: UpdatingStatus { updating: false }, ..pushes }
}

/// While an update is under way no other begins, however often it is asked for.
pub proof fn lemma_one_update_at_a_time(pushes: Pushes, times: Seq<u128>, now: u128)
    requires
        pushes.status.updating,
    ensures
        all_pushed(pushes, times).status.updating,
        push(all_pushed(pushes, times), now) is Answer,
    decreases times.len(),
{
    if times.len() > 0 {
        lemma_one_update_at_a_time(pushes, times.drop_last(), now);
    }
}

/// Within the pause after an update no other begins, even if the update is over.
pub proof fn lemma_updates_are_apart(pushes: Pushes, first: u128, second: u128)
    requires
        push(pushes, first) is Update,
        second < first + MIN_PAUSE,
    ensures
        push(released(pushed(pushes, first)), second) is Answer,
        pushed(released(pushed(pushes, first)), second) == released(pushed(pushes, first)),
{
}

/// Once an update is over and the pause is past, the next one begins when it is asked for.
pub proof fn lemma_next_update_begins(pushes: Pushes, first: u128, second: u128)
    requires
        push(pushes, first) is Update,
        second >= first + MIN_PAUSE,
    ensures
        push(released(pushed(pushes, first)), second) is Update,
{
}

/// Five minutes must pass from when an update was last asked for and not refused as too early, and
/// until then it is told how long ago that was, in seconds and nanoseconds; a time before that
/// counts as that time. Whether the update began or ended meanwhile makes no difference.
pub proof fn lemma_five_minutes_between_updates(
    pushes: Pushes,
    first: u128,
    second: u128,
    ended: bool,
) -> (ago: (u64, u32))
    requires
        pushes.last_update matches Some(last) ==> first >= last + 300 * 1_000_000_000,
        second < first + 300 * 1_000_000_000,
    ensures
        pushed(pushes, first).last_update == Some(first),
        push(
            if ended {
                released(pushed(pushes, first))
            } else {
                pushed(pushes, first)
            },
            second,
        ) == PushView::Answer(
            reply::message(
                200,
                Some(ContentType::TextUtf8),
                "Refreshed too recently ("@ + duration_text(ago.0, ago.1) + " ago). Please wait."@,
            ),
        ),
        ago.1 < 1_000_000_000,
        ago.0 * 1_000_000_000 + ago.1 == if second >= first {
            second - first
        } else {
            0
        },
{
    let nanos = elapsed(first, second);
    ((nanos / 1_000_000_000) as u64, (nanos % 1_000_000_000) as u32)
}

/// When five minutes have passed, or no update was asked for yet, an update begins if none is under
/// way, and otherwise it is told that one is.
pub proof fn lemma_updates_begin(pushes: Pushes, now: u128)
    requires
        pushes.last_update matches Some(last) ==> now >= last + 300 * 1_000_000_000,
    ensures
        push(pushes, now) == if pushes.status.updating {
            PushView::Answer(
                reply::message(200, Some(ContentType::TextUtf8), "Already updating!"@),
            )
        } else {
            PushView::Update
        },
        pushed(pushes, now).status.updating,
{
}

/// It is told whether an update came to its end.
pub proof fn lemma_outcome_is_told(panicked: bool)
    ensures
        panicked ==> outcome(panicked) == "panicked, try again"@,
        !panicked ==> outcome(panicked) == "done"@,
{
}

impl Pushes {
    /// No update was asked for yet.
    pub fn new() -> (res: Self)
        ensures
            res.last_update is None,
            !res.status.updating,
    {
        Pushes { last_update: None, status: UpdatingStatus::new() }
    }

    /// Decides what is done when an update is asked for at `now`.
    pub fn handle_push(&mut self, now: u128) -> (res: Push)
        ensures
            res@ == push(*old(self), now),
            *final(self) == pushed(*old(self), now),
    {
        if let Some(last) = self.last_update {
            let elapsed: u128 = if now >= last {
                now - last
            } else {
                0
            };
            if elapsed < MIN_PAUSE {
                let secs: u64 = (elapsed / NANOS_PER_SECOND) as u64;
                let nanos: u32 = (elapsed % NANOS_PER_SECOND) as u32;
                let mut body: String = "Refreshed too recently (".to_string();
                body.append(show_duration(secs, nanos).as_str());
                body.append(" ago). Please wait.");
                return Push::Answer(
                    reply::message_reply(200, Some(ContentType::TextUtf8), body),
                );
            }
        }
        self.last_update = Some(now);
        if self.status.set_updating() {
            return Push::Answer(
                reply::message_reply(
                    200,
                    Some(ContentType::TextUtf8),
                    "Already updating!".to_string(),
                ),
            );
        }
        Push::Update
    }

    /// Takes note that the update is over, and tells what became of it.
    pub fn finish(&mut self, panicked: bool) -> (message: String)
        ensures
            *final(self) == released(*old(self)),
            message@ == outcome(panicked),
    {
        self.status.release(panicked)
    }
}

} // verus!
