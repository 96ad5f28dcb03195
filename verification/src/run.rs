//! One run of the program: which comics it takes up, and what it does about each of them.
//!
//! A run asks for one thing after the other, and is told what came of it.
use vstd::prelude::*;

use crate::config::Config;
use crate::http::{self, fetch_comic_by_num, ApiReply, Comic, FetchError};

verus! {

/// What the program calls itself: name, version and revision.
pub fn version_line(name: &str, version: &str, revision: &str) -> (line: String)
    ensures
        line@ == name@ + " "@ + version@ + " ("@ + revision@ + ")"@,
{
    let mut line: String = String::from_str(name);
    line.append(" ");
    line.append(version);
    line.append(" (");
    line.append(revision);
    line.append(")");
    line
}

// ---- which comics are taken up ----

/// The number that a run starts at: the one after the last comic that was seen. If none was seen
/// yet, far enough back for `limit` comics up to the latest.
pub open spec fn start_of(last: Option<u32>, latest: u32, limit: u32) -> int {
    match last {
        Some(n) => if n < u32::MAX {
            n + 1
        } else {
            u32::MAX as int
        },
        None => if limit > 0 && latest >= limit - 1 {
            latest - (limit - 1)
        } else if limit > 0 {
            0
        } else {
            latest as int
        },
    }
}

/// How many comics a run with a limit takes up.
pub open spec fn count_of(start: int, latest: u32, limit: u32) -> nat {
    if start > latest {
        0
    } else if latest - start + 1 <= limit {
        (latest - start + 1) as nat
    } else {
        limit as nat
    }
}

/// The numbers of the comics that a run takes up, oldest first. Without a limit this is the
/// latest comic alone.
pub open spec fn candidates_of(last: Option<u32>, latest: u32, limit: u32) -> Seq<u32> {
    if limit > 0 {
        let start = start_of(last, latest, limit);
        Seq::new(count_of(start, latest, limit), |i: int| (start + i) as u32)
    } else {
        seq![latest]
    }
}

/// The numbers of the comics that a run takes up, oldest first.
pub fn backfill_candidates(last: Option<u32>, latest: u32, limit: u32) -> (r: Vec<u32>)
    ensures
        r@ == candidates_of(last, latest, limit),
{
    let start: u32 = match last {
        Some(n) => if n < u32::MAX {
            n + 1
        } else {
            u32::MAX
        },
        None => if limit > 0 {
            if latest >= limit - 1 {
                latest - (limit - 1)
            } else {
                0
            }
        } else {
            latest
        },
    };
    let mut r: Vec<u32> = Vec::new();
    if limit == 0 {
        r.push(latest);
        assert(r@ == seq![latest]);
        return r;
    }
    let ghost all = candidates_of(last, latest, limit);
    let mut i: u32 = 0;
    assert(all.take(0) == Seq::<u32>::empty());
    while i < limit && start <= latest && i <= latest - start
        invariant
            start == start_of(last, latest, limit),
            all == candidates_of(last, latest, limit),
            limit > 0,
            i <= all.len(),
            r@ == all.take(i as int),
        ensures
            i == all.len(),
        decreases limit - i,
    {
        r.push(start + i);
        assert(all.take(i + 1) == all.take(i as int).push((start + i) as u32));
        i = i + 1;
    }
    assert(all.take(i as int) == all);
    r
}

/// Whatever a run takes up is in ascending order, not beyond the latest comic and, with a limit,
/// not more than the limit.
pub proof fn law_candidates_ascend(last: Option<u32>, latest: u32, limit: u32)
    ensures
        ascending(candidates_of(last, latest, limit)),
        forall|i: int|
            0 <= i < candidates_of(last, latest, limit).len() ==> #[trigger] candidates_of(
                last,
                latest,
                limit,
            )[i] <= latest,
        limit > 0 ==> candidates_of(last, latest, limit).len() <= limit,
{
}

/// With a limit a run takes up no comic up to the last that was seen, and if anything is left
/// out it is the newest. The last number that there is makes the one exception.
pub proof fn law_candidates_follow_last(last: u32, latest: u32, limit: u32)
    requires
        limit > 0,
        last < u32::MAX,
    ensures
        forall|i: int|
            0 <= i < candidates_of(Some(last), latest, limit).len() ==> #[trigger] candidates_of(
                Some(last),
                latest,
                limit,
            )[i] == last + 1 + i,
        last >= latest ==> candidates_of(Some(last), latest, limit).len() == 0,
        last < latest && latest - last <= limit ==> candidates_of(Some(last), latest, limit).len()
            == latest - last,
        last < latest && latest - last > limit ==> candidates_of(Some(last), latest, limit).len()
            == limit,
{
}

/// With a limit, a run takes up no comic that is on record already, be it that it was mailed or
/// that it does not exist. The last number that there is makes the one exception.
pub proof fn law_recorded_is_not_taken_up(
    store: Set<u32>,
    last: Option<u32>,
    latest: u32,
    limit: u32,
)
    requires
        limit > 0,
        match last {
            Some(n) => n < u32::MAX && store.contains(n) && forall|num: u32| #[trigger]
                store.contains(num) ==> num <= n,
            None => store == Set::<u32>::empty(),
        },
    ensures
        forall|i: int|
            0 <= i < candidates_of(last, latest, limit).len() ==> !store.contains(
                #[trigger] candidates_of(last, latest, limit)[i],
            ),
{
}

/// The first run takes up exactly as many comics as the limit allows, up to the latest, provided
/// that there are so many numbers.
pub proof fn law_first_run_fills_the_limit(latest: u32, limit: u32)
    requires
        0 < limit,
        limit - 1 <= latest,
    ensures
        candidates_of(None, latest, limit).len() == limit,
        candidates_of(None, latest, limit).last() == latest,
{
}

/// Are the numbers in ascending order, none of them twice?
pub open spec fn ascending(nums: Seq<u32>) -> bool {
    forall|i: int, j: int| 0 <= i < j < nums.len() ==> nums[i] < nums[j]
}

// ---- what is done about each ----

/// What the program is asked to do.
pub enum Step {
    /// Ask the server for the comic of this number.
    Fetch(u32),
    /// Record that there is no comic of this number.
    MarkMissing(u32),
    /// Look whether the comic was seen before.
    CheckSeen(Comic),
    /// Record that the comic was seen.
    MarkSeen(Comic),
    /// Download its image.
    Download(Comic),
    /// Record that its image was downloaded.
    MarkDownloaded(Comic),
    /// Mail it, with its image attached or without.
    Mail { comic: Comic, attach: bool },
    /// Record that it was mailed.
    MarkMailed(Comic),
    /// Nothing is left to be done.
    Finished,
    /// The database cannot be used.
    Aborted,
}

/// What came of it.
pub enum Event {
    /// The server's reply to a question for a comic.
    Reply(ApiReply),
    /// Was the comic seen before?
    Seen(bool),
    /// It was done.
    Done,
    /// It could not be done.
    Failed,
}

/// A run: the comics that it takes up, which of them it has in hand, and what is to be done next.
pub struct Run {
    pub download: bool,
    pub mail_attachment: bool,
    pub latest: Comic,
    pub candidates: Vec<u32>,
    pub pos: usize,
    pub step: Step,
}

/// The comic that a step is about, once its description is there.
pub open spec fn comic_in(step: Step) -> Option<Comic> {
    match step {
        Step::CheckSeen(comic) => Some(comic),
        Step::MarkSeen(comic) => Some(comic),
        Step::Download(comic) => Some(comic),
        Step::MarkDownloaded(comic) => Some(comic),
        Step::Mail { comic, .. } => Some(comic),
        Step::MarkMailed(comic) => Some(comic),
        _ => None,
    }
}

/// The number that a step is about.
pub open spec fn number_in(step: Step) -> Option<u32> {
    match step {
        Step::Fetch(num) => Some(num),
        Step::MarkMissing(num) => Some(num),
        _ => match comic_in(step) {
            Some(comic) => Some(comic.num),
            None => None,
        },
    }
}

impl Run {
    /// Does the step fit the comic in hand, and are the comics in order?
    pub open spec fn wf(self) -> bool {
        &&& ascending(self.candidates@)
        &&& self.pos <= self.candidates@.len()
        &&& number_in(self.step) matches Some(num) ==> self.pos < self.candidates@.len() && num
            == self.candidates@[self.pos as int]
        &&& (self.step is Download || self.step is MarkDownloaded) ==> self.download
        &&& self.step matches Step::Mail { attach, .. } ==> attach == (self.mail_attachment
            && self.download)
    }

    /// The run with another step.
    pub open spec fn at(self, step: Step) -> Run {
        Run { step, ..self }
    }

    /// The run as it takes up the candidate at `pos`. The latest comic is there already.
    pub open spec fn taking_up(self, pos: int) -> Run {
        let step = if pos >= self.candidates@.len() {
            Step::Finished
        } else if self.candidates@[pos] == self.latest.num {
            Step::CheckSeen(self.latest)
        } else {
            Step::Fetch(self.candidates@[pos])
        };
        Run { pos: pos as usize, step, ..self }
    }

    /// The run as it leaves the comic in hand.
    pub open spec fn moving_on(self) -> Run {
        self.taking_up(self.pos + 1)
    }

    /// The run after it was told what came of its step. A comic is recorded as seen before
    /// anything else is done about it. If its image cannot be downloaded or it cannot be mailed,
    /// the run goes on to the next one. If the database fails, it ends.
    pub open spec fn next(self, event: Event) -> Run {
        match (self.step, event) {
            (Step::Fetch(num), Event::Reply(reply)) => match http::numbered_of(reply, num) {
                Ok(Some(comic)) => self.at(Step::CheckSeen(comic)),
                Ok(None) => self.at(Step::MarkMissing(num)),
                Err(_) => self.moving_on(),
            },
            (Step::MarkMissing(_), Event::Done) => self.moving_on(),
            (Step::CheckSeen(comic), Event::Seen(seen)) => if seen {
                self.moving_on()
            } else {
                self.at(Step::MarkSeen(comic))
            },
            (Step::MarkSeen(comic), Event::Done) => if self.download {
                self.at(Step::Download(comic))
            } else {
                self.at(Step::Mail { comic, attach: false })
            },
            (Step::Download(comic), Event::Done) => self.at(Step::MarkDownloaded(comic)),
            (Step::Download(_), Event::Failed) => self.moving_on(),
            (Step::MarkDownloaded(comic), Event::Done) => self.at(
                Step::Mail { comic, attach: self.mail_attachment },
            ),
            (Step::Mail { comic, .. }, Event::Done) => self.at(Step::MarkMailed(comic)),
            (Step::Mail { .. }, Event::Failed) => self.moving_on(),
            (Step::MarkMailed(_), Event::Done) => self.moving_on(),
            (Step::Finished, _) => self,
            _ => self.at(Step::Aborted),
        }
    }

    /// Why a comic is left out, if the server's reply is the reason.
    pub open spec fn left_out(self, event: Event) -> Option<FetchError> {
        match (self.step, event) {
            (Step::Fetch(num), Event::Reply(reply)) => match http::numbered_of(reply, num) {
                Err(e) => Some(e),
                Ok(_) => None,
            },
            _ => None,
        }
    }

    /// A run, after the latest comic was fetched and the last that was seen was looked up.
    pub fn start(config: &Config, latest: Comic, last: Option<u32>) -> (run: Run)
        ensures
            run.wf(),
            run.download == config.download,
            run.mail_attachment == config.mail_attachment,
            run.latest == latest,
            run.candidates@ == candidates_of(last, latest.num, config.backfill_limit),
            run == run.taking_up(0),
    {
        let candidates: Vec<u32> = backfill_candidates(last, latest.num, config.backfill_limit);
        proof {
            law_candidates_ascend(last, latest.num, config.backfill_limit);
        }
        let mut run: Run = Run {
            download: config.download,
            mail_attachment: config.mail_attachment,
            latest,
            candidates,
            pos: 0,
            step: Step::Finished,
        };
        run.take_up(0);
        run
    }

    fn take_up(&mut self, pos: usize)
        requires
            ascending(old(self).candidates@),
            pos <= old(self).candidates@.len(),
        ensures
            *final(self) == old(self).taking_up(pos as int),
            final(self).wf(),
    {
        let step: Step = if pos >= self.candidates.len() {
            Step::Finished
        } else if self.candidates[pos] == self.latest.num {
            Step::CheckSeen(self.latest.clone())
        } else {
            Step::Fetch(self.candidates[pos])
        };
        self.pos = pos;
        self.step = step;
    }

    fn move_on(&mut self)
        requires
            ascending(old(self).candidates@),
            old(self).pos < old(self).candidates@.len(),
        ensures
            *final(self) == old(self).moving_on(),
            final(self).wf(),
    {
        assert(self.pos < self.candidates.len());
        self.take_up(self.pos + 1);
    }

    /// Tells the run what came of its step. If the server's reply makes it leave a comic out, it
    /// says why.
    pub fn advance(&mut self, event: Event) -> (left_out: Option<FetchError>)
        requires
            old(self).wf(),
        ensures
            final(self).wf(),
            *final(self) == old(self).next(event),
            left_out == old(self).left_out(event),
    {
        let step: Step = match (&self.step, event) {
            (Step::Fetch(num), Event::Reply(reply)) => {
                let num: u32 = *num;
                match fetch_comic_by_num(reply, num) {
                    Ok(Some(comic)) => Step::CheckSeen(comic),
                    Ok(None) => Step::MarkMissing(num),
                    Err(e) => {
                        self.move_on();
                        return Some(e);
                    },
                }
            },
            (Step::MarkMissing(_), Event::Done) => {
                self.move_on();
                return None;
            },
            (Step::CheckSeen(comic), Event::Seen(seen)) => {
                if seen {
                    self.move_on();
                    return None;
                }
                Step::MarkSeen(comic.clone())
            },
            (Step::MarkSeen(comic), Event::Done) => {
                if self.download {
                    Step::Download(comic.clone())
                } else {
                    Step::Mail { comic: comic.clone(), attach: false }
                }
            },
            (Step::Download(comic), Event::Done) => Step::MarkDownloaded(comic.clone()),
            (Step::Download(_), Event::Failed) => {
                self.move_on();
                return None;
            },
            (Step::MarkDownloaded(comic), Event::Done) => Step::Mail {
                comic: comic.clone(),
                attach: self.mail_attachment,
            },
            (Step::Mail { comic, .. }, Event::Done) => Step::MarkMailed(comic.clone()),
            (Step::Mail { .. }, Event::Failed) => {
                self.move_on();
                return None;
            },
            (Step::MarkMailed(_), Event::Done) => {
                self.move_on();
                return None;
            },
            (Step::Finished, _) => Step::Finished,
            _ => Step::Aborted,
        };
        self.step = step;
        None
    }
}

// ---- what holds of whole runs ----

/// The run after a series of events.
pub open spec fn played(run: Run, events: Seq<Event>) -> Run
    decreases events.len(),
{
    if events.len() == 0 {
        run
    } else {
        played(run, events.drop_last()).next(events.last())
    }
}

/// The numbers on record after a series of events, where `store` holds those that were on record
/// before: a number goes on record when that step is reported as done. On record are the numbers
/// that the table of comics maps to a text.
pub open spec fn seen_after(store: Set<u32>, run: Run, events: Seq<Event>) -> Set<u32>
    decreases events.len(),
{
    if events.len() == 0 {
        store
    } else {
        let before = seen_after(store, run, events.drop_last());
        match (played(run, events.drop_last()).step, events.last()) {
            (Step::MarkMissing(num), Event::Done) => before.insert(num),
            (Step::MarkSeen(comic), Event::Done) => before.insert(comic.num),
            _ => before,
        }
    }
}

/// The record that a run goes by is that of the database. Where the numbers in the table are those
/// on record, they still are once a step that puts something on record is done, and whatever else
/// the run is told. To be truthful it is enough to answer out of the table.
pub proof fn law_run_and_database_agree<
    D: Fn(&str) -> Result<crate::db::ComicRecord, String>,
>(
    store: Set<u32>,
    run: Run,
    events: Seq<Event>,
    before: Map<u32, Seq<char>>,
    after: Map<u32, Seq<char>>,
    now: i64,
    decode: D,
    event: Event,
)
    requires
        seen_after(store, run, events) == before.dom(),
        match played(run, events).step {
            Step::MarkMissing(num) => crate::db::record_outcome(before, after, num, now, Ok(())),
            Step::MarkSeen(comic) => crate::db::record_outcome(
                before,
                after,
                comic.num,
                now,
                Ok(()),
            ),
            Step::MarkDownloaded(comic) => crate::db::update_outcome(
                before,
                after,
                comic.num,
                decode,
                crate::db::Progress::Downloaded,
                Ok(()),
            ),
            Step::MarkMailed(comic) => crate::db::update_outcome(
                before,
                after,
                comic.num,
                decode,
                crate::db::Progress::Mailed(now),
                Ok(()),
            ),
            _ => after == before,
        },
    ensures
        seen_after(store, run, events.push(Event::Done)) == after.dom(),
        !(event is Done) ==> seen_after(store, run, events.push(event)) == before.dom(),
        truthful(store, run, events) && (played(run, events).step matches Step::CheckSeen(comic)
            ==> (event matches Event::Seen(seen) ==> seen == before.contains_key(comic.num)))
            ==> truthful(store, run, events.push(event)),
{
    assert(events.push(Event::Done).drop_last() == events);
    assert(events.push(event).drop_last() == events);
    match played(run, events).step {
        Step::MarkDownloaded(comic) => {
            crate::db::law_update_adds_no_comic(
                before,
                after,
                comic.num,
                decode,
                crate::db::Progress::Downloaded,
            );
        },
        Step::MarkMailed(comic) => {
            crate::db::law_update_adds_no_comic(
                before,
                after,
                comic.num,
                decode,
                crate::db::Progress::Mailed(now),
            );
        },
        _ => {},
    }
    assert(seen_after(store, run, events.push(Event::Done)) =~= after.dom());
}

/// Is each question whether a comic was seen answered as the record has it?
pub open spec fn truthful(store: Set<u32>, run: Run, events: Seq<Event>) -> bool
    decreases events.len(),
{
    events.len() > 0 ==> {
        &&& truthful(store, run, events.drop_last())
        &&& match (played(run, events.drop_last()).step, events.last()) {
            (Step::CheckSeen(comic), Event::Seen(seen)) => seen == seen_after(
                store,
                run,
                events.drop_last(),
            ).contains(comic.num),
            _ => true,
        }
    }
}

/// The numbers of the comics that the run has asked to be mailed, in the order of asking.
pub open spec fn mailed(run: Run, events: Seq<Event>) -> Seq<u32>
    decreases events.len(),
{
    let before = if events.len() == 0 {
        Seq::empty()
    } else {
        mailed(run, events.drop_last())
    };
    match played(run, events).step {
        Step::Mail { comic, .. } => before.push(comic.num),
        _ => before,
    }
}

/// Has the run not come yet to mailing the comic in hand?
spec fn before_mail(step: Step) -> bool {
    number_in(step) is Some && !(step is Mail) && !(step is MarkMailed)
}

/// Whatever it is told, a run stays well-formed, and takes up the same comics under the same
/// settings.
pub proof fn law_run_stays_well_formed(run: Run, events: Seq<Event>)
    requires
        run.wf(),
    ensures
        played(run, events).wf(),
        played(run, events).candidates == run.candidates,
        played(run, events).download == run.download,
        played(run, events).mail_attachment == run.mail_attachment,
        played(run, events).latest == run.latest,
    decreases events.len(),
{
    if events.len() > 0 {
        law_run_stays_well_formed(run, events.drop_last());
        lemma_next_is_well_formed(played(run, events.drop_last()), events.last());
    }
}

proof fn lemma_next_is_well_formed(run: Run, event: Event)
    requires
        run.wf(),
    ensures
        run.next(event).wf(),
        run.next(event).candidates == run.candidates,
        run.next(event).download == run.download,
        run.next(event).mail_attachment == run.mail_attachment,
        run.next(event).latest == run.latest,
{
    assert(run.pos < usize::MAX || run.pos == run.candidates@.len()) by {
        assert(run.candidates.len() <= usize::MAX);
    }
}

/// How much is left to be done at most.
pub open spec fn work_left(run: Run) -> int {
    let weight: int = match run.step {
        Step::Fetch(_) => 7,
        Step::CheckSeen(_) => 6,
        Step::MarkSeen(_) => 5,
        Step::Download(_) => 4,
        Step::MarkDownloaded(_) => 3,
        Step::Mail { .. } => 2,
        Step::MarkMailed(_) => 1,
        Step::MarkMissing(_) => 1,
        _ => 0,
    };
    if weight == 0 {
        0
    } else {
        8 * (run.candidates@.len() - run.pos - 1) + weight
    }
}

/// Each event brings a run nearer to its end, so a run takes fewer than eight steps for a comic.
pub proof fn law_run_comes_to_an_end(run: Run, event: Event)
    requires
        run.wf(),
        !(run.step is Finished),
        !(run.step is Aborted),
    ensures
        0 <= work_left(run.next(event)) < work_left(run) < 8 * run.candidates@.len(),
{
    lemma_next_is_well_formed(run, event);
}

/// A run asks to have comics mailed in ascending order, each of them once, and only comics that
/// it has taken up.
pub proof fn law_oldest_is_mailed_first(run: Run, events: Seq<Event>)
    requires
        run.wf(),
        run == run.taking_up(0),
    ensures
        ascending(mailed(run, events)),
        forall|i: int|
            0 <= i < mailed(run, events).len() ==> run.candidates@.contains(
                #[trigger] mailed(run, events)[i],
            ),
{
    lemma_mailed_in_order(run, events);
}

proof fn lemma_mailed_in_order(run: Run, events: Seq<Event>)
    requires
        run.wf(),
        run == run.taking_up(0),
    ensures
        ({
            let now = played(run, events);
            let nums = mailed(run, events);
            &&& ascending(nums)
            &&& forall|i: int| 0 <= i < nums.len() ==> run.candidates@.contains(#[trigger] nums[i])
            &&& before_mail(now.step) ==> forall|i: int|
                0 <= i < nums.len() ==> #[trigger] nums[i] < now.candidates@[now.pos as int]
            &&& (number_in(now.step) is Some) ==> forall|i: int|
                0 <= i < nums.len() ==> #[trigger] nums[i] <= now.candidates@[now.pos as int]
        }),
    decreases events.len(),
{
    law_run_stays_well_formed(run, events);
    if events.len() > 0 {
        let prev = played(run, events.drop_last());
        lemma_mailed_in_order(run, events.drop_last());
        law_run_stays_well_formed(run, events.drop_last());
        lemma_next_is_well_formed(prev, events.last());
        let before = mailed(run, events.drop_last());
        let now = prev.next(events.last());
        if now.step is Mail {
            let num = now.candidates@[now.pos as int];
            assert(before_mail(prev.step) && now.pos == prev.pos);
            assert(mailed(run, events) == before.push(num));
            assert(run.candidates@.contains(num));
        } else {
            assert(mailed(run, events) == before);
        }
    } else {
        assert(mailed(run, events) == Seq::<u32>::empty());
    }
}

/// A comic that a run asks to have mailed was not on record before the run, and is on record by
/// then.
pub proof fn law_only_new_comics_are_mailed(store: Set<u32>, run: Run, events: Seq<Event>)
    requires
        run.wf(),
        run == run.taking_up(0),
        truthful(store, run, events),
    ensures
        forall|i: int|
            0 <= i < mailed(run, events).len() ==> {
                let num = #[trigger] mailed(run, events)[i];
                !store.contains(num) && seen_after(store, run, events).contains(num)
            },
{
    lemma_mailed_are_new(store, run, events);
}

/// Nothing leaves the record during a run.
pub proof fn law_record_only_grows(store: Set<u32>, run: Run, events: Seq<Event>)
    ensures
        store.subset_of(seen_after(store, run, events)),
    decreases events.len(),
{
    if events.len() > 0 {
        law_record_only_grows(store, run, events.drop_last());
    }
}

proof fn lemma_mailed_are_new(store: Set<u32>, run: Run, events: Seq<Event>)
    requires
        run.wf(),
        run == run.taking_up(0),
        truthful(store, run, events),
    ensures
        ({
            let now = played(run, events);
            let nums = mailed(run, events);
            let seen = seen_after(store, run, events);
            &&& forall|i: int|
                0 <= i < nums.len() ==> !store.contains(#[trigger] nums[i]) && seen.contains(
                    nums[i],
                )
            &&& now.step matches Step::MarkSeen(comic) ==> !seen.contains(comic.num)
            &&& (now.step is Download || now.step is MarkDownloaded) ==> seen.contains(
                comic_in(now.step)->0.num,
            ) && !store.contains(comic_in(now.step)->0.num)
        }),
    decreases events.len(),
{
    law_record_only_grows(store, run, events);
    if events.len() > 0 {
        let prev = played(run, events.drop_last());
        lemma_mailed_are_new(store, run, events.drop_last());
        law_record_only_grows(store, run, events.drop_last());
        let before = mailed(run, events.drop_last());
        let now = prev.next(events.last());
        if let Step::Mail { comic, .. } = now.step {
            assert(mailed(run, events) == before.push(comic.num));
        } else {
            assert(mailed(run, events) == before);
        }
    } else {
        assert(mailed(run, events) == Seq::<u32>::empty());
    }
}

/// No comic is mailed twice, neither in one run nor in two of which the later finds on record
/// what the earlier has put there.
pub proof fn law_no_comic_is_mailed_twice(
    store: Set<u32>,
    run: Run,
    events: Seq<Event>,
    later_store: Set<u32>,
    later_run: Run,
    later_events: Seq<Event>,
)
    requires
        run.wf(),
        run == run.taking_up(0),
        truthful(store, run, events),
        later_run.wf(),
        later_run == later_run.taking_up(0),
        truthful(later_store, later_run, later_events),
        seen_after(store, run, events).subset_of(later_store),
    ensures
        (mailed(run, events) + mailed(later_run, later_events)).no_duplicates(),
{
    law_oldest_is_mailed_first(run, events);
    law_oldest_is_mailed_first(later_run, later_events);
    law_only_new_comics_are_mailed(store, run, events);
    law_only_new_comics_are_mailed(later_store, later_run, later_events);
    let first = mailed(run, events);
    let second = mailed(later_run, later_events);
    let all = first + second;
    assert forall|i: int, j: int| 0 <= i < j < all.len() implies all[i] != all[j] by {
        if i < first.len() && j >= first.len() {
            assert(later_store.contains(first[i]));
            assert(!later_store.contains(second[j - first.len()]));
        }
    }
}

/// The numbers of the comics whose image is on record as downloaded during the run.
pub open spec fn saved_after(run: Run, events: Seq<Event>) -> Set<u32>
    decreases events.len(),
{
    if events.len() == 0 {
        Set::empty()
    } else {
        let before = saved_after(run, events.drop_last());
        match (played(run, events.drop_last()).step, events.last()) {
            (Step::MarkDownloaded(comic), Event::Done) => before.insert(comic.num),
            _ => before,
        }
    }
}

/// Where images are to be downloaded, no comic is mailed before its image is there and on record
/// as downloaded. So a comic whose image cannot be downloaded is not mailed.
pub proof fn law_image_comes_before_mail(run: Run, events: Seq<Event>)
    requires
        run.wf(),
        run == run.taking_up(0),
        run.download,
    ensures
        forall|i: int|
            0 <= i < mailed(run, events).len() ==> saved_after(run, events).contains(
                #[trigger] mailed(run, events)[i],
            ),
    decreases events.len(),
{
    if events.len() > 0 {
        let prev = played(run, events.drop_last());
        law_image_comes_before_mail(run, events.drop_last());
        law_run_stays_well_formed(run, events.drop_last());
        let before = mailed(run, events.drop_last());
        if let Step::Mail { comic, .. } = prev.next(events.last()).step {
            assert(mailed(run, events) == before.push(comic.num));
        } else {
            assert(mailed(run, events) == before);
        }
    } else {
        assert(mailed(run, events) == Seq::<u32>::empty());
    }
}

/// Does nothing go wrong? Each comic that is asked for is described, and all else is done.
pub open spec fn goes_well(run: Run, events: Seq<Event>) -> bool
    decreases events.len(),
{
    events.len() > 0 ==> {
        &&& goes_well(run, events.drop_last())
        &&& match played(run, events.drop_last()).step {
            Step::Fetch(num) => events.last() matches Event::Reply(ApiReply::Described(comic))
                && comic.num == num,
            Step::CheckSeen(_) => events.last() is Seen,
            Step::Finished => true,
            _ => events.last() is Done,
        }
    }
}

/// If nothing goes wrong, a run that is finished has mailed each comic that it took up and that
/// was not on record before.
pub proof fn law_every_new_comic_is_mailed(store: Set<u32>, run: Run, events: Seq<Event>)
    requires
        run.wf(),
        run == run.taking_up(0),
        truthful(store, run, events),
        goes_well(run, events),
        played(run, events).step is Finished,
    ensures
        forall|i: int|
            0 <= i < run.candidates@.len() && !store.contains(#[trigger] run.candidates@[i])
                ==> mailed(run, events).contains(run.candidates@[i]),
{
    law_run_stays_well_formed(run, events);
    lemma_none_is_left_out(store, run, events);
}

proof fn lemma_none_is_left_out(store: Set<u32>, run: Run, events: Seq<Event>)
    requires
        run.wf(),
        run == run.taking_up(0),
        truthful(store, run, events),
        goes_well(run, events),
    ensures
        ({
            let now = played(run, events);
            let nums = mailed(run, events);
            let seen = seen_after(store, run, events);
            let cand = run.candidates@;
            let pos = now.pos as int;
            &&& !(now.step is Aborted || now.step is MarkMissing)
            &&& now.step is Finished ==> pos == cand.len()
            &&& forall|j: int|
                0 <= j < pos && !store.contains(#[trigger] cand[j]) ==> nums.contains(cand[j])
            &&& (now.step is Mail || now.step is MarkMailed) ==> nums.contains(cand[pos])
            &&& (now.step is Fetch || now.step is CheckSeen || now.step is MarkSeen)
                ==> forall|n: u32| #[trigger]
                seen.contains(n) && !store.contains(n) ==> n < cand[pos]
            &&& number_in(now.step) is Some ==> forall|n: u32| #[trigger]
                seen.contains(n) && !store.contains(n) ==> n <= cand[pos]
        }),
    decreases events.len(),
{
    law_run_stays_well_formed(run, events);
    if events.len() > 0 {
        let prev = played(run, events.drop_last());
        lemma_none_is_left_out(store, run, events.drop_last());
        law_run_stays_well_formed(run, events.drop_last());
        lemma_next_is_well_formed(prev, events.last());
        let before = mailed(run, events.drop_last());
        let nums = mailed(run, events);
        let now = prev.next(events.last());
        assert(prev.candidates.len() <= usize::MAX);
        let cand = run.candidates@;
        let seen_before = seen_after(store, run, events.drop_last());
        let seen = seen_after(store, run, events);
        assert forall|n: u32| #[trigger]
            seen.contains(n) && !store.contains(n) && number_in(now.step) is Some implies n
            <= cand[now.pos as int] && (now.step is Fetch || now.step is CheckSeen
            || now.step is MarkSeen ==> n < cand[now.pos as int]) by {
            assert(seen_before.contains(n) || n == cand[prev.pos as int]);
            assert(n <= cand[prev.pos as int]);
        }
        if let Step::Mail { comic, .. } = now.step {
            assert(nums == before.push(comic.num));
            assert(nums[before.len() as int] == comic.num);
            assert forall|n: u32| before.contains(n) implies nums.contains(n) by {
                let k = choose|k: int| 0 <= k < before.len() && before[k] == n;
                assert(nums[k] == n);
            }
        } else {
            assert(nums == before);
        }
    } else {
        assert(mailed(run, events) == Seq::<u32>::empty());
    }
}

// ---- laws on what the functions are for ----

/// The line names the program, its version and, in brackets, its revision, and nothing else.
pub proof fn law_version_line_names_all(name: &str, version: &str, revision: &str, line: String)
    requires
        call_ensures(version_line, (name, version, revision), line),
    ensures
        line@.len() == name@.len() + version@.len() + revision@.len() + 4,
        (name@ + seq![' ']).is_prefix_of(line@),
        (version@ + seq![' ', '('] + revision@ + seq![')']).is_suffix_of(line@),
{
    reveal_strlit(" ");
    reveal_strlit(" (");
    reveal_strlit(")");
    assert(" "@ =~= seq![' ']);
    assert(" ("@ =~= seq![' ', '(']);
    assert(")"@ =~= seq![')']);
    let end = version@ + seq![' ', '('] + revision@ + seq![')'];
    assert(line@ =~= name@ + seq![' '] + end);
    assert(line@.subrange(0, name@.len() as int + 1) =~= name@ + seq![' ']);
    assert(line@.subrange(line@.len() - end.len(), line@.len() as int) =~= end);
}

/// With a limit a run takes up the numbers after the last that was seen, up to the latest, but
/// none that is further away from the last than the limit. A first run takes up those of the
/// newest that the limit allows. Without a limit it is the latest alone. The last number that
/// there is counts as not seen.
pub proof fn law_candidates_are_those_within_the_limit(
    last: Option<u32>,
    latest: u32,
    limit: u32,
    r: Vec<u32>,
    num: u32,
)
    requires
        call_ensures(backfill_candidates, (last, latest, limit), r),
    ensures
        forall|i: int, j: int| 0 <= i < j < r@.len() ==> r@[i] < r@[j],
        limit == 0 ==> r@ == seq![latest],
        limit > 0 ==> {
            r@.contains(num) <==> match last {
                Some(n) => if n == 4294967295 {
                    num == n && num == latest
                } else {
                    n < num <= latest && num - n <= limit
                },
                None => num <= latest && latest - num < limit,
            }
        },
{
    if limit > 0 {
        let start = start_of(last, latest, limit);
        let count = count_of(start, latest, limit);
        if start <= num < start + count {
            assert(r@[num - start] == num);
        }
        if r@.contains(num) {
            let i = choose|i: int| 0 <= i < r@.len() && r@[i] == num;
            assert(num == start + i);
        }
    }
}

/// Does a run have the comic at its position in hand, and nothing done about it yet? The latest
/// comic is there already, any other has to be fetched, and past the last of them all is done.
pub open spec fn is_fresh(run: Run) -> bool {
    if run.pos == run.candidates@.len() {
        run.step == Step::Finished
    } else {
        let num = run.candidates@[run.pos as int];
        if num == run.latest.num {
            run.step == Step::CheckSeen(run.latest)
        } else {
            run.step == Step::Fetch(num)
        }
    }
}

/// A run starts at the first of the comics that it takes up, under the settings that it was given.
pub proof fn law_run_starts_at_the_first(
    config: &Config,
    latest: Comic,
    last: Option<u32>,
    run: Run,
    candidates: Vec<u32>,
)
    requires
        call_ensures(Run::start, (config, latest, last), run),
        call_ensures(backfill_candidates, (last, latest.num, config.backfill_limit), candidates),
    ensures
        run.candidates@ == candidates@,
        run.latest == latest,
        run.download == config.download,
        run.mail_attachment == config.mail_attachment,
        run.pos == 0,
        is_fresh(run),
        candidates@.len() == 0 <==> run.step is Finished,
{
}

/// Does the server's reply give the comic that was asked for?
pub open spec fn gives(event: Event, comic: Comic) -> bool {
    event == Event::Reply(ApiReply::Described(comic))
}

/// Whatever a run is told, it keeps its settings and its comics. It has the next comic in hand
/// just when it is done with the one before: because it was mailed, or recorded as missing, or
/// seen before, or because it could not be had, downloaded or mailed. Otherwise it keeps the one
/// that it has.
pub proof fn law_run_goes_on_when_done_with_a_comic(
    run: &mut Run,
    event: Event,
    left_out: Option<FetchError>,
)
    requires
        old(run).wf(),
        call_ensures(Run::advance, (run, event), left_out),
    ensures
        final(run).candidates@ == old(run).candidates@,
        final(run).latest == old(run).latest,
        final(run).download == old(run).download,
        final(run).mail_attachment == old(run).mail_attachment,
        is_done_with(old(run).step, event) ==> final(run).pos == old(run).pos + 1 && is_fresh(
            *final(run),
        ),
        !is_done_with(old(run).step, event) ==> final(run).pos == old(run).pos,
{
    assert(old(run).candidates.len() <= usize::MAX);
    lemma_next_is_well_formed(*old(run), event);
}

/// Is a run done with the comic in hand, once it is told this about that step?
pub open spec fn is_done_with(step: Step, event: Event) -> bool {
    match step {
        Step::Fetch(num) => event matches Event::Reply(reply) && reply != ApiReply::Status(404)
            && (reply matches ApiReply::Described(comic) ==> comic.num != num),
        Step::MarkMissing(_) => event is Done,
        Step::CheckSeen(_) => event == Event::Seen(true),
        Step::Download(_) => event is Failed,
        Step::Mail { .. } => event is Failed,
        Step::MarkMailed(_) => event is Done,
        _ => false,
    }
}

/// Each thing is done when the one before it is, and only then, and for the same comic: a comic
/// that was not seen before is recorded, then downloaded if that is wanted, then mailed. What was
/// downloaded and what was mailed goes on record.
pub proof fn law_one_thing_follows_another(
    run: &mut Run,
    event: Event,
    left_out: Option<FetchError>,
    comic: Comic,
    num: u32,
)
    requires
        old(run).wf(),
        call_ensures(Run::advance, (run, event), left_out),
    ensures
        final(run).step == Step::MarkMissing(num) <==> old(run).step == Step::Fetch(num) && event
            == Event::Reply(ApiReply::Status(404)),
        final(run).step == Step::CheckSeen(comic) <==> {
            ||| old(run).step == Step::Fetch(comic.num) && gives(event, comic)
            ||| is_done_with(old(run).step, event) && old(run).pos + 1 < old(run).candidates@.len()
                && old(run).candidates@[old(run).pos + 1] == comic.num && comic == old(run).latest
        },
        final(run).step == Step::MarkSeen(comic) <==> old(run).step == Step::CheckSeen(comic)
            && event == Event::Seen(false),
        final(run).step == Step::Download(comic) <==> old(run).step == Step::MarkSeen(comic)
            && event is Done && old(run).download,
        final(run).step == Step::MarkDownloaded(comic) <==> old(run).step == Step::Download(comic)
            && event is Done,
        final(run).step == (Step::Mail { comic, attach: false }) <==> {
            ||| old(run).step == Step::MarkSeen(comic) && event is Done && !old(run).download
            ||| old(run).step == Step::MarkDownloaded(comic) && event is Done
                && !old(run).mail_attachment
        },
        final(run).step == (Step::Mail { comic, attach: true }) <==> old(run).step
            == Step::MarkDownloaded(comic) && event is Done && old(run).mail_attachment,
        final(run).step == Step::MarkMailed(comic) <==> (old(run).step matches Step::Mail {
            comic: mailed,
            ..
        } && mailed == comic && event is Done),
{
    lemma_next_is_well_formed(*old(run), event);
}

/// A run ends early only if the database fails, or if it is told what does not answer its step.
/// That a comic cannot be had, downloaded or mailed is no reason to.
pub proof fn law_run_ends_early_only_for_the_database(
    run: &mut Run,
    event: Event,
    left_out: Option<FetchError>,
)
    requires
        old(run).wf(),
        call_ensures(Run::advance, (run, event), left_out),
    ensures
        final(run).step is Aborted <==> match old(run).step {
            Step::Fetch(_) => !(event is Reply),
            Step::CheckSeen(_) => !(event is Seen),
            Step::MarkMissing(_) => !(event is Done),
            Step::MarkSeen(_) => !(event is Done),
            Step::MarkDownloaded(_) => !(event is Done),
            Step::MarkMailed(_) => !(event is Done),
            Step::Download(_) => !(event is Done) && !(event is Failed),
            Step::Mail { .. } => !(event is Done) && !(event is Failed),
            Step::Finished => false,
            Step::Aborted => true,
        },
        final(run).step is Finished <==> old(run).step is Finished || is_done_with(
            old(run).step,
            event,
        ) && old(run).pos + 1 == old(run).candidates@.len(),
{
    lemma_next_is_well_formed(*old(run), event);
}

/// A run says why it leaves a comic out if the server's reply is the reason, and says what the
/// reply was.
pub proof fn law_run_says_why_a_comic_is_left_out(
    run: &mut Run,
    event: Event,
    left_out: Option<FetchError>,
    reply: ApiReply,
    num: u32,
)
    requires
        old(run).wf(),
        call_ensures(Run::advance, (run, event), left_out),
    ensures
        left_out is Some <==> old(run).step is Fetch && is_done_with(old(run).step, event),
        old(run).step == Step::Fetch(num) && event == Event::Reply(reply) && left_out is Some
            ==> match reply {
            ApiReply::Described(comic) => left_out->0 == (FetchError::WrongNumber {
                got: comic.num,
                wanted: num,
            }),
            ApiReply::Unreadable => left_out->0 == FetchError::Unreadable,
            ApiReply::Status(code) => left_out->0 == FetchError::Status(code),
            ApiReply::Unreachable => left_out->0 == FetchError::Unreachable,
        },
{
}

/// To tell a run one thing after the other is to play these events: the run that was told the
/// last of them is the one that the events lead to.
pub proof fn law_run_is_played_by_telling(
    run: Run,
    events: Seq<Event>,
    now: &mut Run,
    event: Event,
    left_out: Option<FetchError>,
)
    requires
        *old(now) == played(run, events),
        call_ensures(Run::advance, (now, event), left_out),
    ensures
        *final(now) == played(run, events.push(event)),
        played(run, Seq::<Event>::empty()) == run,
{
    assert(events.push(event).drop_last() =~= events);
}

/// Did the server give this comic, as it is, when it was asked for its number?
pub open spec fn was_given(run: Run, events: Seq<Event>, comic: Comic) -> bool {
    exists|i: int|
        {
            &&& 0 <= i < events.len()
            &&& #[trigger] gives(events[i], comic)
            &&& played(run, events.take(i)).step == Step::Fetch(comic.num)
        }
}

/// Whatever a run does, it does about the very comic that the server gave when it was asked for
/// this number, or about the latest comic as it was given at the start. The latest is never asked
/// for again.
pub proof fn law_comic_is_the_one_that_came(run: Run, events: Seq<Event>)
    requires
        run.wf(),
        run == run.taking_up(0),
    ensures
        comic_in(played(run, events).step) matches Some(comic) ==> {
            &&& comic.num == run.latest.num ==> comic == run.latest
            &&& comic.num != run.latest.num ==> was_given(run, events, comic)
        },
        played(run, events).step matches Step::Fetch(num) ==> num != run.latest.num,
        played(run, events).step matches Step::MarkMissing(num) ==> num != run.latest.num,
    decreases events.len(),
{
    if events.len() > 0 {
        let less = events.drop_last();
        let prev = played(run, less);
        law_comic_is_the_one_that_came(run, less);
        law_run_stays_well_formed(run, less);
        lemma_next_is_well_formed(prev, events.last());
        if let Some(comic) = comic_in(played(run, events).step) {
            if comic.num != run.latest.num {
                let i = if comic_in(prev.step) == Some(comic) {
                    choose|i: int|
                        {
                            &&& 0 <= i < less.len()
                            &&& #[trigger] gives(less[i], comic)
                            &&& played(run, less.take(i)).step == Step::Fetch(comic.num)
                        }
                } else {
                    events.len() - 1
                };
                assert(events.take(events.len() - 1) =~= less);
                if i < less.len() {
                    assert(events.take(i) =~= less.take(i));
                }
                assert(gives(events[i], comic));
            }
        }
    }
}

} // verus!
