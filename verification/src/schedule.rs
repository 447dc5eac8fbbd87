//! What the schedule shows and what it adds: which trainings are still
//! ahead, in which order, and the slots each new day brings.
use vstd::prelude::*;
use crate::calendar::{Date, Time, MAX_DAY};
use crate::ids::new_random_id;
use crate::models::{all_wf, RegistrationFullInfo, Training};
use crate::sorting::{lemma_filter_within, lemma_stably_sorted_contains, sort_by_keys, stably_sorted};

verus! {

broadcast use vstd::seq_lib::group_seq_properties;

/// The number of nanosecond steps in the span a time of day can name.
pub const DAY_SPAN: i128 = 172_800_000_000_000;

/// Where a time of day stands on the line of the day, in nanoseconds; a leap
/// second stands after the second it extends.
pub open spec fn time_key(t: Time) -> int {
    t.secs * 2_000_000_000 + t.nanos
}

/// Where a training's start stands: its date first, then its start time.
pub open spec fn slot_key(t: Training) -> int {
    t.date.days * 172_800_000_000_000 + time_key(t.start_time)
}

/// Where a training's date stands.
pub open spec fn date_key(t: Training) -> int {
    t.date.days as int
}

/// Where a registration's start time stands.
pub open spec fn info_start_key(r: RegistrationFullInfo) -> int {
    time_key(r.start_time)
}

/// Ordering by `slot_key` is ordering by date, then by start time; trainings
/// share a key exactly when they share date and start time.
pub proof fn law_slot_key_order(a: Training, b: Training)
    requires
        a.wf(),
        b.wf(),
    ensures
        slot_key(a) <= slot_key(b) <==> (a.date.days < b.date.days || (a.date == b.date
            && a.start_time.not_after(b.start_time))),
        slot_key(a) == slot_key(b) <==> (a.date == b.date && a.start_time == b.start_time),
{
}

/// The position of a training's start.
fn slot_key_of(t: &Training) -> (res: i128)
    requires
        t.wf(),
    ensures
        res == slot_key(*t),
{
    t.date.days as i128 * DAY_SPAN + (t.start_time.secs as i128 * 2_000_000_000
        + t.start_time.nanos as i128)
}

/// The training is on `today` or later: it belongs to the weeks a user picks from.
pub open spec fn not_before_today(t: Training, today: Date) -> bool {
    t.date.days >= today.days
}

/// The training can still be booked at `now` on `today`: a later day, or today
/// at a start time not yet passed.
pub open spec fn still_bookable(t: Training, today: Date, now: Time) -> bool {
    t.date.days > today.days || (now.not_after(t.start_time) && t.date == today)
}

/// The training has not ended at `now` on `today`.
pub open spec fn not_finished(t: Training, today: Date, now: Time) -> bool {
    t.date.days > today.days || (!t.end_time.not_after(now) && t.date == today)
}

/// The training is shown to a trainer for the days `from` to `to`, from `today` on.
pub open spec fn in_trainer_range(t: Training, today: Date, from: Date, to: Date) -> bool {
    t.date.days >= today.days && t.date.days >= from.days && t.date.days <= to.days
}

/// The trainings of a week a user picks days from: those from `today` on, in their order.
pub fn upcoming_trainings(trainings: Vec<Training>, today: Date) -> (res: Vec<Training>)
    ensures
        res@ == trainings@.filter(|t: Training| not_before_today(t, today)),
        forall|k: int|
            0 <= k < res@.len() ==> trainings@.contains(#[trigger] res@[k]) && res@[k].date.days
                >= today.days,
        forall|i: int|
            0 <= i < trainings@.len() && (#[trigger] trainings@[i]).date.days >= today.days
                ==> res@.contains(trainings@[i]),
        forall|i: int|
            0 <= i < trainings@.len() && (#[trigger] trainings@[i]).date.days < today.days
                ==> !res@.contains(trainings@[i]),
{
    let mut res: Vec<Training> = Vec::new();
    let mut i: usize = 0;
    while i < trainings.len()
        invariant
            i <= trainings@.len(),
            res@ == trainings@.subrange(0, i as int).filter(|t: Training| not_before_today(t, today)),
        decreases trainings.len() - i,
    {
        let t = trainings[i];
        proof {
            assert(trainings@.subrange(0, i + 1) =~= trainings@.subrange(0, i as int).push(t));
            trainings@.subrange(0, i as int).lemma_filter_push(t, |t: Training| not_before_today(t, today));
        }
        if t.date.days >= today.days {
            res.push(t);
        }
        i = i + 1;
    }
    assert(trainings@.subrange(0, trainings@.len() as int) =~= trainings@);
    proof {
        law_upcoming_from_today(trainings@, today, res@);
    }
    res
}

/// The trainings of a day a user picks a time from: those not yet started, in their order.
pub fn bookable_trainings(trainings: Vec<Training>, today: Date, now: Time) -> (res: Vec<Training>)
    ensures
        res@ == trainings@.filter(|t: Training| still_bookable(t, today, now)),
        forall|k: int|
            0 <= k < res@.len() ==> trainings@.contains(#[trigger] res@[k]) && (res@[k].date.days
                > today.days || (res@[k].date == today && (now.secs < res@[k].start_time.secs || (
            now.secs == res@[k].start_time.secs && now.nanos <= res@[k].start_time.nanos)))),
        forall|i: int|
            0 <= i < trainings@.len() && ((#[trigger] trainings@[i]).date.days > today.days || (
            trainings@[i].date == today && (now.secs < trainings@[i].start_time.secs || (now.secs
                == trainings@[i].start_time.secs && now.nanos <= trainings@[i].start_time.nanos))))
                ==> res@.contains(trainings@[i]),
        forall|i: int|
            0 <= i < trainings@.len() && (#[trigger] trainings@[i]).date == today && (
            trainings@[i].start_time.secs < now.secs || (trainings@[i].start_time.secs == now.secs
                && trainings@[i].start_time.nanos < now.nanos)) ==> !res@.contains(trainings@[i]),
{
    let mut res: Vec<Training> = Vec::new();
    let mut i: usize = 0;
    while i < trainings.len()
        invariant
            i <= trainings@.len(),
            res@ == trainings@.subrange(0, i as int).filter(
                |t: Training| still_bookable(t, today, now),
            ),
        decreases trainings.len() - i,
    {
        let t = trainings[i];
        proof {
            assert(trainings@.subrange(0, i + 1) =~= trainings@.subrange(0, i as int).push(t));
            trainings@.subrange(0, i as int).lemma_filter_push(
                t,
                |t: Training| still_bookable(t, today, now),
            );
        }
        if t.date.days > today.days || (now.is_not_after(&t.start_time) && t.date == today) {
            res.push(t);
        }
        i = i + 1;
    }
    assert(trainings@.subrange(0, trainings@.len() as int) =~= trainings@);
    proof {
        law_bookable_not_started(trainings@, today, now, res@);
    }
    res
}

/// The keys of `ts`: where a training starts when `by_slot`, else its date.
fn keys_of_trainings(ts: &Vec<Training>, by_slot: bool) -> (res: Vec<i128>)
    requires
        all_wf(ts@),
    ensures
        res@.len() == ts@.len(),
        forall|i: int|
            0 <= i < ts@.len() ==> res@[i] == (if by_slot {
                slot_key(#[trigger] ts@[i])
            } else {
                date_key(ts@[i])
            }),
{
    let mut res: Vec<i128> = Vec::new();
    let mut i: usize = 0;
    while i < ts.len()
        invariant
            all_wf(ts@),
            i <= ts@.len(),
            res@.len() == i,
            forall|j: int|
                0 <= j < i ==> res@[j] == (if by_slot {
                    slot_key(#[trigger] ts@[j])
                } else {
                    date_key(ts@[j])
                }),
        decreases ts.len() - i,
    {
        assert(ts@[i as int].wf());
        if by_slot {
            res.push(slot_key_of(&ts[i]));
        } else {
            res.push(ts[i].date.days as i128);
        }
        i = i + 1;
    }
    res
}

/// A user's trainings still to come: those not ended at `now`, ordered by
/// date and start time, those sharing both in their order.
pub fn upcoming_registered_trainings(trainings: Vec<Training>, today: Date, now: Time) -> (res: Vec<Training>)
    requires
        all_wf(trainings@),
    ensures
        stably_sorted(
            res@,
            trainings@.filter(|t: Training| not_finished(t, today, now)),
            |t: Training| slot_key(t),
        ),
{
    let mut kept: Vec<Training> = Vec::new();
    let mut i: usize = 0;
    while i < trainings.len()
        invariant
            i <= trainings@.len(),
            all_wf(trainings@),
            kept@ == trainings@.subrange(0, i as int).filter(
                |t: Training| not_finished(t, today, now),
            ),
            all_wf(kept@),
        decreases trainings.len() - i,
    {
        let t = trainings[i];
        proof {
            assert(trainings@.subrange(0, i + 1) =~= trainings@.subrange(0, i as int).push(t));
            trainings@.subrange(0, i as int).lemma_filter_push(
                t,
                |t: Training| not_finished(t, today, now),
            );
            assert(trainings@[i as int].wf());
        }
        if t.date.days > today.days || (!t.end_time.is_not_after(&now) && t.date == today) {
            kept.push(t);
        }
        i = i + 1;
    }
    assert(trainings@.subrange(0, trainings@.len() as int) =~= trainings@);
    let keys = keys_of_trainings(&kept, true);
    sort_by_keys(kept, keys, Ghost(|t: Training| slot_key(t)))
}

/// The trainings a trainer sees for the days `from` to `to`: those from
/// `today` on within them, ordered by date, those of a date in their order.
pub fn trainer_trainings_between(trainings: Vec<Training>, today: Date, from: Date, to: Date) -> (res: Vec<Training>)
    requires
        all_wf(trainings@),
    ensures
        stably_sorted(
            res@,
            trainings@.filter(|t: Training| in_trainer_range(t, today, from, to)),
            |t: Training| date_key(t),
        ),
        forall|k: int|
            0 <= k < res@.len() ==> trainings@.contains(#[trigger] res@[k]) && res@[k].date.days
                >= today.days && res@[k].date.days >= from.days && res@[k].date.days <= to.days,
        forall|i: int|
            0 <= i < trainings@.len() && (#[trigger] trainings@[i]).date.days >= today.days
                && trainings@[i].date.days >= from.days && trainings@[i].date.days <= to.days
                ==> res@.contains(trainings@[i]),
        forall|j: int, k: int|
            0 <= j < k < res@.len() ==> (#[trigger] res@[j]).date.days <= (#[trigger] res@[k]).date.days,
{
    let mut kept: Vec<Training> = Vec::new();
    let mut i: usize = 0;
    while i < trainings.len()
        invariant
            i <= trainings@.len(),
            all_wf(trainings@),
            kept@ == trainings@.subrange(0, i as int).filter(
                |t: Training| in_trainer_range(t, today, from, to),
            ),
            all_wf(kept@),
        decreases trainings.len() - i,
    {
        let t = trainings[i];
        proof {
            assert(trainings@.subrange(0, i + 1) =~= trainings@.subrange(0, i as int).push(t));
            trainings@.subrange(0, i as int).lemma_filter_push(
                t,
                |t: Training| in_trainer_range(t, today, from, to),
            );
            assert(trainings@[i as int].wf());
        }
        if t.date.days >= today.days && t.date.days >= from.days && t.date.days <= to.days {
            kept.push(t);
        }
        i = i + 1;
    }
    assert(trainings@.subrange(0, trainings@.len() as int) =~= trainings@);
    let keys = keys_of_trainings(&kept, false);
    let res = sort_by_keys(kept, keys, Ghost(|t: Training| date_key(t)));
    proof {
        law_trainer_range_inclusive(trainings@, today, from, to, res@);
    }
    res
}

/// The registrations of a day as a trainer sees them: ordered by start time,
/// those sharing one in their order.
pub fn registrations_by_start(infos: Vec<RegistrationFullInfo>) -> (res: Vec<RegistrationFullInfo>)
    requires
        forall|i: int| 0 <= i < infos@.len() ==> (#[trigger] infos@[i]).start_time.wf(),
    ensures
        stably_sorted(res@, infos@, |r: RegistrationFullInfo| info_start_key(r)),
{
    let mut keys: Vec<i128> = Vec::new();
    let mut i: usize = 0;
    while i < infos.len()
        invariant
            i <= infos@.len(),
            keys@.len() == i,
            forall|j: int| 0 <= j < i ==> keys@[j] == info_start_key(#[trigger] infos@[j]),
        decreases infos.len() - i,
    {
        let t = infos[i].start_time;
        keys.push(t.secs as i128 * 2_000_000_000 + t.nanos as i128);
        i = i + 1;
    }
    sort_by_keys(infos, keys, Ghost(|r: RegistrationFullInfo| info_start_key(r)))
}

/// Some training of `ts` falls between `first` and `last`, both included.
pub open spec fn has_training_between(ts: Seq<Training>, first: Date, last: Date) -> bool {
    exists|i: int|
        0 <= i < ts.len() && first.days <= (#[trigger] ts[i]).date.days <= last.days
}

/// The week, Monday and Sunday first, holds one of the trainings `ts`.
pub open spec fn week_has_training(ts: Seq<Training>, week: Seq<Date>) -> bool {
    has_training_between(ts, week[0], week[1])
}

/// Looking for the trainings `ts` in `week` reads only days it has: its
/// first and last day, or, where no training reaches its first day, that one
/// alone; nothing where there are no trainings.
pub open spec fn week_readable(week: Seq<Date>, ts: Seq<Training>) -> bool {
    ||| week.len() >= 2
    ||| ts.len() == 0
    ||| week.len() == 1 && forall|j: int| 0 <= j < ts.len() ==> (#[trigger] ts[j]).date.days < week[0].days
}

/// The weeks that hold a training, in their order; each week is its first and last day.
pub fn weeks_with_trainings(weeks: Vec<Vec<Date>>, trainings: &Vec<Training>) -> (res: Vec<Vec<Date>>)
    requires
        forall|i: int| 0 <= i < weeks@.len() ==> week_readable(#[trigger] weeks@[i]@, trainings@),
    ensures
        res@ == weeks@.filter(|w: Vec<Date>| week_has_training(trainings@, w@)),
        forall|k: int|
            0 <= k < res@.len() ==> weeks@.contains(#[trigger] res@[k]) && exists|i: int|
                0 <= i < trainings@.len() && res@[k]@[0].days <= (#[trigger] trainings@[i]).date.days
                    <= res@[k]@[1].days,
        forall|k: int, i: int|
            0 <= k < weeks@.len() && 0 <= i < trainings@.len() && (#[trigger] weeks@[k])@[0].days
                <= (#[trigger] trainings@[i]).date.days <= weeks@[k]@[1].days ==> res@.contains(
                weeks@[k],
            ),
        forall|k: int|
            0 <= k < weeks@.len() && (forall|i: int|
                0 <= i < trainings@.len() ==> (#[trigger] trainings@[i]).date.days < (
                #[trigger] weeks@[k])@[0].days || trainings@[i].date.days > weeks@[k]@[1].days)
                ==> !res@.contains(weeks@[k]),
{
    let ghost orig = weeks@;
    let mut weeks = weeks;
    let mut res: Vec<Vec<Date>> = Vec::new();
    assert(orig.subrange(0, 0) =~= Seq::<Vec<Date>>::empty());
    while weeks.len() > 0
        invariant
            weeks@.len() <= orig.len(),
            weeks@ == orig.subrange(orig.len() - weeks@.len(), orig.len() as int),
            forall|i: int| 0 <= i < orig.len() ==> week_readable(#[trigger] orig[i]@, trainings@),
            res@ == orig.subrange(0, orig.len() - weeks@.len()).filter(
                |w: Vec<Date>| week_has_training(trainings@, w@),
            ),
        decreases weeks@.len(),
    {
        let ghost done = orig.len() - weeks@.len();
        let week = weeks.remove(0);
        assert(week == orig[done]);
        assert(week_readable(orig[done]@, trainings@));
        let mut found = false;
        let mut j: usize = 0;
        while j < trainings.len()
            invariant
                j <= trainings@.len(),
                week_readable(week@, trainings@),
                found ==> has_training_between(trainings@, week@[0], week@[1]),
                !found ==> forall|k: int|
                    0 <= k < j ==> !(week@[0].days <= (#[trigger] trainings@[k]).date.days
                        <= week@[1].days),
            decreases trainings.len() - j,
        {
            let d = trainings[j].date.days;
            if week[0].days <= d && d <= week[1].days {
                found = true;
            }
            j = j + 1;
        }
        proof {
            assert(orig.subrange(0, done + 1) =~= orig.subrange(0, done).push(week));
            orig.subrange(0, done).lemma_filter_push(
                week,
                |w: Vec<Date>| week_has_training(trainings@, w@),
            );
            assert(weeks@ =~= orig.subrange(orig.len() - weeks@.len(), orig.len() as int));
        }
        if found {
            res.push(week);
        }
    }
    assert(orig.subrange(0, orig.len() as int) =~= orig);
    proof {
        law_weeks_hold_a_training(orig, trainings@, res@);
        assert forall|k: int| 0 <= k < res@.len() implies orig.contains(#[trigger] res@[k])
            && exists|i: int|
            0 <= i < trainings@.len() && res@[k]@[0].days <= (#[trigger] trainings@[i]).date.days
                <= res@[k]@[1].days by {
            let i = choose|i: int|
                0 <= i < trainings@.len() && res@[k]@[0].days <= (#[trigger] trainings@[i]).date.days
                    <= res@[k]@[1].days;
            assert(0 <= i < trainings@.len() && res@[k]@[0].days <= trainings@[i].date.days
                <= res@[k]@[1].days);
        }
    }
    res
}

/// The day after which new trainings are added, and the range of day offsets
/// from it that get trainings: after the last day that has trainings, up to
/// the thirtieth day counted with those days; from today where no day has any.
pub open spec fn planned_offsets(existing: Seq<Training>, today: Date) -> (Date, int, int) {
    if existing.len() > 0 {
        (existing.last().date, 1, 30 - existing.len())
    } else {
        (today, 0, 30)
    }
}

/// Slot `k` of the plan: its day and its hour.
pub open spec fn planned_slot(existing: Seq<Training>, today: Date, t: Training, k: int) -> bool {
    let (base, first, _last) = planned_offsets(existing, today);
    &&& t.date == base.plus(first + k / 11)
    &&& t.start_time == Time { secs: ((9 + k % 11) * 3600) as u32, nanos: 0 }
    &&& t.end_time == Time { secs: ((10 + k % 11) * 3600) as u32, nanos: 0 }
    &&& t.capacity == 1
    &&& t.enabled
}

/// The trainings to add so that the schedule reaches a month ahead: given the
/// days from today on that already have trainings, one per day in date order,
/// every further day gets a training each hour from 9:00 to 20:00.
pub fn plan_new_trainings(existing: &Vec<Training>, today: Date) -> (res: Vec<Training>)
    requires
        existing@.len() <= 30,
        planned_offsets(existing@, today).0.wf(),
        planned_offsets(existing@, today).1 < planned_offsets(existing@, today).2 ==> planned_offsets(
            existing@,
            today,
        ).0.days + planned_offsets(existing@, today).2 - 1 <= MAX_DAY,
    ensures
        ({
            let (_base, first, last) = planned_offsets(existing@, today);
            res@.len() == if last > first { (last - first) * 11 } else { 0 }
        }),
        forall|k: int| 0 <= k < res@.len() ==> planned_slot(existing@, today, #[trigger] res@[k], k),
        all_wf(res@),
        existing@.len() > 0 ==> forall|k: int|
            0 <= k < res@.len() ==> (#[trigger] res@[k]).date.days > existing@.last().date.days,
        existing@.len() == 0 ==> forall|k: int|
            0 <= k < res@.len() ==> (#[trigger] res@[k]).date.days >= today.days,
        forall|k: int|
            0 <= k < res@.len() ==> (#[trigger] res@[k]).end_time.secs == res@[k].start_time.secs
                + 3600,
        forall|k: int|
            0 <= k < res@.len() ==> ((#[trigger] res@[k]).id / 0x1_0000_0000_0000_0000_000) % 16 == 4
                && (res@[k].id / 0x4000_0000_0000_0000) % 4 == 2,
{
    let n = existing.len();
    let (base, first, last): (Date, i32, i32) = if n > 0 {
        (existing[n - 1].date, 1, 30 - n as i32)
    } else {
        (today, 0, 30)
    };
    let mut res: Vec<Training> = Vec::new();
    let mut i: i32 = first;
    while i < last
        invariant
            (base, first as int, last as int) == planned_offsets(existing@, today),
            base.wf(),
            first < last ==> base.days + last - 1 <= MAX_DAY,
            0 <= first <= 1,
            first <= i,
            last <= 30,
            i <= last || i == first,
            res@.len() == (i - first) * 11,
            forall|k: int| 0 <= k < res@.len() ==> planned_slot(existing@, today, #[trigger] res@[k], k),
            all_wf(res@),
            forall|k: int|
                0 <= k < res@.len() ==> ((#[trigger] res@[k]).id / 0x1_0000_0000_0000_0000_000) % 16 == 4
                    && (res@[k].id / 0x4000_0000_0000_0000) % 4 == 2,
        decreases last - i,
    {
        let date = base.add_days(i);
        let mut hour: u32 = 9;
        while hour < 20
            invariant
                9 <= hour <= 20,
                first <= i < last <= 30,
                (base, first as int, last as int) == planned_offsets(existing@, today),
                date == base.plus(i as int),
                date.wf(),
                res@.len() == (i - first) * 11 + (hour - 9),
                forall|k: int| 0 <= k < res@.len() ==> planned_slot(existing@, today, #[trigger] res@[k], k),
                all_wf(res@),
                forall|k: int|
                    0 <= k < res@.len() ==> ((#[trigger] res@[k]).id / 0x1_0000_0000_0000_0000_000) % 16
                        == 4 && (res@[k].id / 0x4000_0000_0000_0000) % 4 == 2,
            decreases 20 - hour,
        {
            let training = Training {
                id: new_random_id(),
                date,
                start_time: Time { secs: hour * 3600, nanos: 0 },
                end_time: Time { secs: (hour + 1) * 3600, nanos: 0 },
                capacity: 1,
                enabled: true,
            };
            proof {
                let k = res@.len() as int;
                assert(k / 11 == i - first);
                assert(k % 11 == hour - 9);
            }
            res.push(training);
            hour = hour + 1;
        }
        i = i + 1;
    }
    proof {
        assert forall|k: int| 0 <= k < res@.len() implies (#[trigger] res@[k]).date.days == base.days
            + first + k / 11 by {
            assert(planned_slot(existing@, today, res@[k], k));
        }
    }
    res
}


/// The days of a week offered to a user are every training dated `today` or
/// later, however far ahead, and nothing dated before `today`, in the order
/// of `trainings`.
pub proof fn law_upcoming_from_today(trainings: Seq<Training>, today: Date, res: Seq<Training>)
    requires
        res == trainings.filter(|t: Training| not_before_today(t, today)),
    ensures
        forall|k: int|
            0 <= k < res.len() ==> trainings.contains(#[trigger] res[k]) && res[k].date.days
                >= today.days,
        forall|i: int|
            0 <= i < trainings.len() && (#[trigger] trainings[i]).date.days >= today.days
                ==> res.contains(trainings[i]),
        forall|i: int|
            0 <= i < trainings.len() && (#[trigger] trainings[i]).date.days < today.days
                ==> !res.contains(trainings[i]),
{
    lemma_filter_within(trainings, |t: Training| not_before_today(t, today));
    assert forall|i: int|
        0 <= i < trainings.len() && (#[trigger] trainings[i]).date.days >= today.days implies res.contains(
        trainings[i],
    ) by {
        trainings.lemma_filter_contains(|t: Training| not_before_today(t, today), i);
    }
}

/// The start times offered for booking at `now` on `today`: a training of a
/// later day is offered; one of `today` exactly when `now` is not later than
/// its start, compared to the second and the nanosecond, so one that has
/// already started is never offered; nothing of an earlier day.
pub proof fn law_bookable_not_started(
    trainings: Seq<Training>,
    today: Date,
    now: Time,
    res: Seq<Training>,
)
    requires
        res == trainings.filter(|t: Training| still_bookable(t, today, now)),
    ensures
        forall|k: int|
            0 <= k < res.len() ==> trainings.contains(#[trigger] res[k]) && (res[k].date.days
                > today.days || (res[k].date == today && (now.secs < res[k].start_time.secs || (
            now.secs == res[k].start_time.secs && now.nanos <= res[k].start_time.nanos)))),
        forall|i: int|
            0 <= i < trainings.len() && ((#[trigger] trainings[i]).date.days > today.days || (
            trainings[i].date == today && (now.secs < trainings[i].start_time.secs || (now.secs
                == trainings[i].start_time.secs && now.nanos <= trainings[i].start_time.nanos))))
                ==> res.contains(trainings[i]),
        forall|i: int|
            0 <= i < trainings.len() && (#[trigger] trainings[i]).date == today && (
            trainings[i].start_time.secs < now.secs || (trainings[i].start_time.secs == now.secs
                && trainings[i].start_time.nanos < now.nanos)) ==> !res.contains(trainings[i]),
{
    let p = |t: Training| still_bookable(t, today, now);
    lemma_filter_within(trainings, p);
    assert forall|i: int|
        0 <= i < trainings.len() && ((#[trigger] trainings[i]).date.days > today.days || (
        trainings[i].date == today && (now.secs < trainings[i].start_time.secs || (now.secs
            == trainings[i].start_time.secs && now.nanos <= trainings[i].start_time.nanos))))
        implies res.contains(trainings[i]) by {
        trainings.lemma_filter_contains(p, i);
    }
}

/// What a trainer sees for the days `from` to `to`: every training dated
/// `today` or later and within the range, both ends included, and nothing
/// else, its dates never decreasing.
pub proof fn law_trainer_range_inclusive(
    trainings: Seq<Training>,
    today: Date,
    from: Date,
    to: Date,
    res: Seq<Training>,
)
    requires
        stably_sorted(
            res,
            trainings.filter(|t: Training| in_trainer_range(t, today, from, to)),
            |t: Training| date_key(t),
        ),
    ensures
        forall|k: int|
            0 <= k < res.len() ==> trainings.contains(#[trigger] res[k]) && res[k].date.days
                >= today.days && res[k].date.days >= from.days && res[k].date.days <= to.days,
        forall|i: int|
            0 <= i < trainings.len() && (#[trigger] trainings[i]).date.days >= today.days
                && trainings[i].date.days >= from.days && trainings[i].date.days <= to.days
                ==> res.contains(trainings[i]),
        forall|j: int, k: int|
            0 <= j < k < res.len() ==> (#[trigger] res[j]).date.days <= (#[trigger] res[k]).date.days,
{
    let p = |t: Training| in_trainer_range(t, today, from, to);
    let f = trainings.filter(p);
    lemma_stably_sorted_contains(res, f, |t: Training| date_key(t));
    lemma_filter_within(trainings, p);
    assert forall|k: int| 0 <= k < res.len() implies trainings.contains(#[trigger] res[k])
        && res[k].date.days >= today.days && res[k].date.days >= from.days && res[k].date.days
        <= to.days by {
        assert(res.contains(res[k]));
        assert(f.contains(res[k]));
        let j = choose|j: int| 0 <= j < f.len() && f[j] == res[k];
        assert(trainings.contains(f[j]));
        assert(p(f[j]));
    }
    assert forall|i: int|
        0 <= i < trainings.len() && (#[trigger] trainings[i]).date.days >= today.days
            && trainings[i].date.days >= from.days && trainings[i].date.days <= to.days
        implies res.contains(trainings[i]) by {
        trainings.lemma_filter_contains(p, i);
    }
    assert forall|j: int, k: int| 0 <= j < k < res.len() implies (#[trigger] res[j]).date.days
        <= (#[trigger] res[k]).date.days by {
        assert(date_key(res[j]) <= date_key(res[k]));
    }
}

/// The weeks shown to a trainer: a week is kept exactly when some training
/// is dated between its first and its last day, both included; one all of
/// whose trainings fall before its first day or after its last is left out.
pub proof fn law_weeks_hold_a_training(
    weeks: Seq<Vec<Date>>,
    trainings: Seq<Training>,
    res: Seq<Vec<Date>>,
)
    requires
        res == weeks.filter(|w: Vec<Date>| week_has_training(trainings, w@)),
    ensures
        forall|k: int|
            0 <= k < res.len() ==> weeks.contains(#[trigger] res[k]) && exists|i: int|
                0 <= i < trainings.len() && res[k]@[0].days <= (#[trigger] trainings[i]).date.days
                    <= res[k]@[1].days,
        forall|k: int, i: int|
            0 <= k < weeks.len() && 0 <= i < trainings.len() && (#[trigger] weeks[k])@[0].days
                <= (#[trigger] trainings[i]).date.days <= weeks[k]@[1].days ==> res.contains(
                weeks[k],
            ),
        forall|k: int|
            0 <= k < weeks.len() && (forall|i: int|
                0 <= i < trainings.len() ==> (#[trigger] trainings[i]).date.days < (
                #[trigger] weeks[k])@[0].days || trainings[i].date.days > weeks[k]@[1].days)
                ==> !res.contains(weeks[k]),
{
    let p = |w: Vec<Date>| week_has_training(trainings, w@);
    lemma_filter_within(weeks, p);
    assert forall|k: int| 0 <= k < res.len() implies weeks.contains(#[trigger] res[k]) && exists|i: int|
        0 <= i < trainings.len() && res[k]@[0].days <= (#[trigger] trainings[i]).date.days
            <= res[k]@[1].days by {
        assert(res[k] == weeks.filter(p)[k]);
        assert(weeks.contains(weeks.filter(p)[k]));
        assert(p(res[k]));
        assert(has_training_between(trainings, res[k]@[0], res[k]@[1]));
        let i = choose|i: int|
            0 <= i < trainings.len() && res[k]@[0].days <= (#[trigger] trainings[i]).date.days
                <= res[k]@[1].days;
        assert(0 <= i < trainings.len() && res[k]@[0].days <= trainings[i].date.days
            <= res[k]@[1].days);
    }
    assert forall|k: int, i: int|
        0 <= k < weeks.len() && 0 <= i < trainings.len() && (#[trigger] weeks[k])@[0].days
            <= (#[trigger] trainings[i]).date.days <= weeks[k]@[1].days implies res.contains(
        weeks[k],
    ) by {
        assert(has_training_between(trainings, weeks[k]@[0], weeks[k]@[1]));
        weeks.lemma_filter_contains(p, k);
    }
    assert forall|k: int|
        0 <= k < weeks.len() && (forall|i: int|
            0 <= i < trainings.len() ==> (#[trigger] trainings[i]).date.days < (
            #[trigger] weeks[k])@[0].days || trainings[i].date.days > weeks[k]@[1].days)
        implies !res.contains(weeks[k]) by {
        if res.contains(weeks[k]) {
            let j = choose|j: int| 0 <= j < res.len() && res[j] == weeks[k];
            assert(p(res[j]));
            let i = choose|i: int|
                0 <= i < trainings.len() && weeks[k]@[0].days <= (#[trigger] trainings[i]).date.days
                    <= weeks[k]@[1].days;
            assert(trainings[i].date.days < weeks[k]@[0].days || trainings[i].date.days
                > weeks[k]@[1].days);
        }
    }
}

} // verus!
