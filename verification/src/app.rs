//! Application state and the decisions the window makes: which tab is open,
//! the queue that paces every CLI job, the quiz in progress, the settings
//! form, and how a job posting becomes a track. The window itself, the
//! database and the worker threads live around this module.

use std::collections::VecDeque;
use vstd::prelude::*;
use crate::text::{parse_int, parsed_int, text_eq, owned, concat, int_text, decimal, is_blank, trimmed, chars_of, trim_chars, string_of, names, push_str, join, join_strings};
use crate::mentor::{CliConfig, PlanRequest, week_subskills, week_summary};
use crate::quiz::{scope_content_day, scope_content_week, day_scope, week_scope};
use crate::roadmap::{RoadmapProgress, first_position, cleared_subjects};
use crate::verify::VerifyRequest;
use crate::github::byte_len;
use crate::models::{QuizQuestion, JobSkillJson, JobSpecJson, Day, DayStatus, WeeklyProject};
use crate::job::{match_subject, matched_subject, custom_subject_name, custom_name};

verus! {

broadcast use vstd::string::group_string_axioms;

// ---------------------------------------------------------------------------
// Tabs and views
// ---------------------------------------------------------------------------

#[derive(Debug, Clone, Copy, PartialEq, Eq, Structural)]
pub enum Tab {
    Study,
    Reviews,
    Analytics,
    Roadmap,
}

/// The settings key a tab is remembered under.
pub open spec fn tab_key(t: Tab) -> Seq<char> {
    match t {
        Tab::Study => "study"@,
        Tab::Reviews => "reviews"@,
        Tab::Analytics => "analytics"@,
        Tab::Roadmap => "roadmap"@,
    }
}

/// The tab a remembered key names; anything unknown opens Study.
pub open spec fn tab_from_key(s: Seq<char>) -> Tab {
    if s == "reviews"@ {
        Tab::Reviews
    } else if s == "analytics"@ {
        Tab::Analytics
    } else if s == "roadmap"@ {
        Tab::Roadmap
    } else {
        Tab::Study
    }
}

impl Tab {
    pub fn key(&self) -> (r: &'static str)
        ensures
            r@ == tab_key(*self),
    {
        match self {
            Tab::Study => "study",
            Tab::Reviews => "reviews",
            Tab::Analytics => "analytics",
            Tab::Roadmap => "roadmap",
        }
    }

    pub fn parse(s: &str) -> (r: Self)
        ensures
            r == tab_from_key(s@),
    {
        if text_eq(s, "reviews") {
            Tab::Reviews
        } else if text_eq(s, "analytics") {
            Tab::Analytics
        } else if text_eq(s, "roadmap") {
            Tab::Roadmap
        } else {
            Tab::Study
        }
    }
}

/// A remembered tab reopens as itself.
pub proof fn lemma_tab_round_trip(t: Tab)
    ensures
        tab_from_key(tab_key(t)) == t,
{
    reveal_strlit("study");
    reveal_strlit("reviews");
    reveal_strlit("analytics");
    reveal_strlit("roadmap");
    assert("study"@.len() != "reviews"@.len());
    assert("study"@.len() != "analytics"@.len());
    assert("study"@.len() != "roadmap"@.len());
    assert("analytics"@.len() != "reviews"@.len());
    assert("roadmap"@[1] != "reviews"@[1]);
    assert("roadmap"@.len() != "analytics"@.len());
}

#[derive(Debug, Clone, Copy, PartialEq, Eq, Structural)]
pub enum StudyView {
    Overview,
    Day,
    Weekly,
}

// ---------------------------------------------------------------------------
// The CLI job queue
// ---------------------------------------------------------------------------

/// A CLI job waiting its turn. Everything that shells out to the mentor CLI
/// goes through the queue, so a 20-day course fetches steadily instead of
/// launching twenty processes at once.
pub enum QueuedJob {
    Plan { request: PlanRequest },
    JobSkills { description: String },
    DayContent { day_id: i64, prompt: String },
    Quiz { plan_id: i64, scope: String, day_id: Option<i64>, week_number: Option<i64>, prompt: String },
    Verify { request: VerifyRequest },
}

/// A concurrency setting held to 1..=4.
pub open spec fn concurrency_limit(setting: i64) -> int {
    if setting < 1 {
        1
    } else if setting > 4 {
        4
    } else {
        setting as int
    }
}

/// Pending CLI work and how much of it is running now.
pub struct JobQueue {
    waiting: VecDeque<QueuedJob>,
    active: usize,
    limit: usize,
}

/// Free slots under a cap: none once `running` has reached it.
pub open spec fn room(running: nat, cap: nat) -> nat {
    if running < cap {
        (cap - running) as nat
    } else {
        0
    }
}

/// How many of `waiting` jobs start with `running` under way and `cap`
/// slots: as many as there is room for, first in line first.
pub open spec fn starts(waiting: nat, running: nat, cap: nat) -> nat {
    if waiting < room(running, cap) {
        waiting
    } else {
        room(running, cap)
    }
}

impl JobQueue {
    #[verifier::type_invariant]
    spec fn well_formed(self) -> bool {
        1 <= self.limit <= 4
    }

    /// The jobs waiting, first in line first.
    pub closed spec fn waiting_jobs(self) -> Seq<QueuedJob> {
        self.waiting@
    }

    /// How many started jobs have not finished.
    pub closed spec fn running(self) -> nat {
        self.active as nat
    }

    /// How many jobs may run at once.
    pub closed spec fn cap(self) -> nat {
        self.limit as nat
    }

    /// An empty queue that runs at most `max_concurrent` jobs at once
    /// (the setting held to 1..=4).
    pub fn new(max_concurrent: i64) -> (r: Self)
        ensures
            r.waiting_jobs().len() == 0,
            r.running() == 0,
            r.cap() == concurrency_limit(max_concurrent),
    {
        let limit: usize = if max_concurrent < 1 {
            1
        } else if max_concurrent > 4 {
            4
        } else {
            max_concurrent as usize
        };
        JobQueue { waiting: VecDeque::new(), active: 0, limit }
    }

    pub fn waiting_count(&self) -> (r: usize)
        ensures
            r == self.waiting_jobs().len(),
    {
        self.waiting.len()
    }

    pub fn running_count(&self) -> (r: usize)
        ensures
            r == self.running(),
    {
        self.active
    }

    pub fn limit(&self) -> (r: usize)
        ensures
            r == self.cap(),
    {
        self.limit
    }

    /// Change how many jobs may run at once (held to 1..=4). Jobs already
    /// running are left to finish; none starts until there is room.
    pub fn set_limit(&mut self, max_concurrent: i64)
        ensures
            final(self).cap() == concurrency_limit(max_concurrent),
            final(self).waiting_jobs() == old(self).waiting_jobs(),
            final(self).running() == old(self).running(),
    {
        self.limit = if max_concurrent < 1 {
            1
        } else if max_concurrent > 4 {
            4
        } else {
            max_concurrent as usize
        };
    }

    /// Queue a job behind the others without starting anything.
    pub fn push(&mut self, job: QueuedJob)
        ensures
            final(self).waiting_jobs() == old(self).waiting_jobs().push(job),
            final(self).running() == old(self).running(),
            final(self).cap() == old(self).cap(),
    {
        proof {
            use_type_invariant(&*self);
        }
        let mut w: VecDeque<QueuedJob> = VecDeque::new();
        std::mem::swap(&mut w, &mut self.waiting);
        w.push_back(job);
        std::mem::swap(&mut w, &mut self.waiting);
    }

    /// Start queued jobs, first in line first, until the cap is reached or
    /// nothing waits. The started jobs are returned for the caller to run.
    pub fn pump(&mut self) -> (started: Vec<QueuedJob>)
        ensures
            ({
                let k = starts(old(self).waiting_jobs().len(), old(self).running(), old(self).cap());
                &&& started@ == old(self).waiting_jobs().take(k as int)
                &&& final(self).waiting_jobs() == old(self).waiting_jobs().skip(k as int)
                &&& final(self).running() == old(self).running() + k
            }),
            final(self).cap() == old(self).cap(),
            final(self).waiting_jobs().len() == 0 || final(self).running() >= final(self).cap(),
            old(self).running() <= old(self).cap() ==> final(self).running() <= final(self).cap(),
    {
        proof {
            use_type_invariant(&*self);
        }
        let mut w: VecDeque<QueuedJob> = VecDeque::new();
        std::mem::swap(&mut w, &mut self.waiting);
        let ghost w0 = w@;
        let a0 = self.active;
        let limit = self.limit;
        let mut active = self.active;
        let mut started: Vec<QueuedJob> = Vec::new();
        while active < limit && w.len() > 0
            invariant
                1 <= limit <= 4,
                a0 <= active,
                a0 < limit ==> active <= limit,
                a0 >= limit ==> active == a0,
                started@.len() == active - a0,
                started@ == w0.take(started@.len() as int),
                w@ == w0.skip(started@.len() as int),
                started@.len() <= w0.len(),
            decreases w@.len(),
        {
            let job = w.pop_front();
            match job {
                Some(j) => {
                    let ghost k: int = started@.len() as int;
                    assert(j == w0[k]);
                    started.push(j);
                    assert(started@ =~= w0.take(k + 1));
                    assert(w@ =~= w0.skip(k + 1));
                    active = active + 1;
                },
                None => {},
            }
        }
        std::mem::swap(&mut w, &mut self.waiting);
        self.active = active;
        started
    }

    /// Queue a job and start what the cap allows.
    pub fn enqueue(&mut self, job: QueuedJob) -> (started: Vec<QueuedJob>)
        ensures
            ({
                let w = old(self).waiting_jobs().push(job);
                let k = starts(w.len(), old(self).running(), old(self).cap());
                &&& started@ == w.take(k as int)
                &&& final(self).waiting_jobs() == w.skip(k as int)
                &&& final(self).running() == old(self).running() + k
            }),
            final(self).cap() == old(self).cap(),
            old(self).running() <= old(self).cap() ==> final(self).running() <= final(self).cap(),
    {
        self.push(job);
        self.pump()
    }

    /// Free the slots of `finished` jobs that have ended and start whatever
    /// is next in line.
    pub fn finish(&mut self, finished: usize) -> (started: Vec<QueuedJob>)
        ensures
            ({
                let freed: nat = if old(self).running() < finished { 0 } else { (old(self).running() - finished) as nat };
                let w = old(self).waiting_jobs();
                let k: nat = if finished == 0 { 0 } else { starts(w.len(), freed, old(self).cap()) };
                &&& started@ == w.take(k as int)
                &&& final(self).waiting_jobs() == w.skip(k as int)
                &&& final(self).running() == freed + k
            }),
            final(self).cap() == old(self).cap(),
    {
        proof {
            use_type_invariant(&*self);
        }
        self.active = if self.active < finished {
            0
        } else {
            self.active - finished
        };
        if finished > 0 {
            self.pump()
        } else {
            proof {
                assert(self.waiting@.take(0) =~= Seq::<QueuedJob>::empty());
                assert(self.waiting@.skip(0) =~= self.waiting@);
            }
            Vec::new()
        }
    }

    /// Drop everything still waiting; a job already running finishes.
    /// Returns how many were dropped.
    pub fn clear(&mut self) -> (dropped: usize)
        ensures
            dropped == old(self).waiting_jobs().len(),
            final(self).waiting_jobs().len() == 0,
            final(self).running() == old(self).running(),
            final(self).cap() == old(self).cap(),
    {
        proof {
            use_type_invariant(&*self);
        }
        let dropped = self.waiting.len();
        let mut w: VecDeque<QueuedJob> = VecDeque::new();
        std::mem::swap(&mut w, &mut self.waiting);
        dropped
    }
}

// ---------------------------------------------------------------------------
// A job posting becomes a track
// ---------------------------------------------------------------------------

/// Item `i` comes before item `j`: a smaller priority number first, and on
/// a tie the one listed first.
pub open spec fn ranked_before(s: Seq<i64>, i: int, j: int) -> bool {
    s[i] < s[j] || (s[i] == s[j] && i < j)
}

/// The priorities of a posting's skills, in posting order.
pub open spec fn skill_priorities(skills: Seq<JobSkillJson>) -> Seq<i64> {
    skills.map_values(|k: JobSkillJson| k.priority)
}

/// Position `i` appears somewhere in `order`.
pub open spec fn listed_at(order: Seq<usize>, i: int) -> bool {
    exists|k: int| 0 <= k < order.len() && #[trigger] order[k] == i
}

/// `order` lists every position exactly once, by priority: what a stable
/// sort by priority gives.
pub open spec fn is_priority_order(s: Seq<i64>, order: Seq<usize>) -> bool {
    &&& order.len() == s.len()
    &&& forall|k: int| 0 <= k < order.len() ==> #[trigger] order[k] < s.len()
    &&& forall|k: int, l: int| 0 <= k < l < order.len() ==> ranked_before(s, #[trigger] order[k] as int, #[trigger] order[l] as int)
    &&& forall|i: int| 0 <= i < s.len() ==> #[trigger] listed_at(order, i)
}

/// The positions of items with these priorities in order: by priority, ties
/// kept in listed order.
pub fn priority_order(skills: &[i64]) -> (r: Vec<usize>)
    ensures
        is_priority_order(skills@, r@),
{
    let ghost s = skills@;
    let mut order: Vec<usize> = Vec::new();
    let mut i: usize = 0;
    while i < skills.len()
        invariant
            s == skills@,
            i <= s.len(),
            order@.len() == i,
            forall|k: int| 0 <= k < order@.len() ==> #[trigger] order@[k] < i,
            forall|k: int, l: int| 0 <= k < l < order@.len() ==> ranked_before(s, #[trigger] order@[k] as int, #[trigger] order@[l] as int),
            forall|j: int| 0 <= j < i ==> #[trigger] listed_at(order@, j),
        decreases s.len() - i,
    {
        let prio = skills[i];
        let mut p: usize = 0;
        while p < order.len() && skills[order[p]] <= prio
            invariant
                s == skills@,
                i < s.len(),
                prio == s[i as int],
                p <= order@.len(),
                forall|k: int| 0 <= k < order@.len() ==> #[trigger] order@[k] < i,
                forall|k: int| 0 <= k < p ==> s[(#[trigger] order@[k]) as int] <= prio,
            decreases order@.len() - p,
        {
            p = p + 1;
        }
        let ghost old_order = order@;
        proof {
            assert forall|l: int| p <= l < old_order.len() implies s[(#[trigger] old_order[l]) as int] > prio by {
                if l > p {
                    assert(ranked_before(s, old_order[p as int] as int, old_order[l] as int));
                }
            }
        }
        order.insert(p, i);
        proof {
            let o = order@;
            assert(o == old_order.insert(p as int, i));
            assert forall|k: int| 0 <= k < o.len() implies #[trigger] o[k] < i + 1 by {
                if k < p {
                    assert(o[k] == old_order[k]);
                } else if k > p {
                    assert(o[k] == old_order[k - 1]);
                }
            }
            assert forall|k: int, l: int| 0 <= k < l < o.len() implies ranked_before(s, #[trigger] o[k] as int, #[trigger] o[l] as int) by {
                if l < p {
                    assert(o[k] == old_order[k] && o[l] == old_order[l]);
                } else if l == p {
                    assert(o[k] == old_order[k]);
                    assert(s[old_order[k] as int] <= prio);
                } else if k < p {
                    assert(o[k] == old_order[k] && o[l] == old_order[l - 1]);
                } else if k == p {
                    assert(o[l] == old_order[l - 1]);
                    assert(s[old_order[l - 1] as int] > prio);
                } else {
                    assert(o[k] == old_order[k - 1] && o[l] == old_order[l - 1]);
                }
            }
            assert forall|j: int| 0 <= j < i + 1 implies #[trigger] listed_at(o, j) by {
                if j == i {
                    assert(o[p as int] == j);
                } else {
                    assert(listed_at(old_order, j));
                    let k = choose|k: int| 0 <= k < old_order.len() && #[trigger] old_order[k] == j;
                    if k < p {
                        assert(o[k] == j);
                    } else {
                        assert(o[k + 1] == j);
                    }
                }
            }
        }
        i = i + 1;
    }
    order
}

proof fn lemma_orders_agree(s: Seq<i64>, o1: Seq<usize>, o2: Seq<usize>, k: int)
    requires
        is_priority_order(s, o1),
        is_priority_order(s, o2),
        0 <= k <= s.len(),
    ensures
        forall|j: int| 0 <= j < k ==> o1[j] == o2[j],
    decreases k,
{
    if k > 0 {
        lemma_orders_agree(s, o1, o2, k - 1);
        let j = k - 1;
        let a = o1[j];
        let b = o2[j];
        if a != b {
            assert(listed_at(o2, a as int));
            let m = choose|m: int| 0 <= m < o2.len() && #[trigger] o2[m] == a as int;
            if m < j {
                assert(o1[m] == o2[m]);
                assert(ranked_before(s, o1[m] as int, o1[j] as int));
            }
            assert(m > j);
            assert(ranked_before(s, o2[j] as int, o2[m] as int));
            assert(listed_at(o1, b as int));
            let m2 = choose|m2: int| 0 <= m2 < o1.len() && #[trigger] o1[m2] == b as int;
            if m2 < j {
                assert(o1[m2] == o2[m2]);
                assert(ranked_before(s, o2[m2] as int, o2[j] as int));
            }
            assert(m2 > j);
            assert(ranked_before(s, o1[j] as int, o1[m2] as int));
        }
    }
}

/// There is one priority order: two orders of the same priorities agree.
pub proof fn lemma_priority_order_unique(s: Seq<i64>, o1: Seq<usize>, o2: Seq<usize>)
    requires
        is_priority_order(s, o1),
        is_priority_order(s, o2),
    ensures
        o1 == o2,
{
    lemma_orders_agree(s, o1, o2, s.len() as int);
    assert(o1 =~= o2);
}

/// The subject a skill becomes: the known subject it matches (flagged
/// `true`), else a tidied custom name (flagged `false`), or nothing when
/// the skill tidies to an empty name.
pub open spec fn pick_for(skill: Seq<char>, known: Seq<Seq<char>>) -> Option<(Seq<char>, bool)> {
    match matched_subject(skill, known) {
        Some(n) => Some((n, true)),
        None => if custom_name(skill).len() == 0 {
            None
        } else {
            Some((custom_name(skill), false))
        },
    }
}

/// The subjects picked for the first `n` skills in study order.
pub open spec fn picks(s: Seq<JobSkillJson>, order: Seq<usize>, known: Seq<Seq<char>>, n: int) -> Seq<(Seq<char>, bool)>
    decreases n,
{
    if n <= 0 || n > order.len() {
        seq![]
    } else {
        let before = picks(s, order, known, n - 1);
        match pick_for(s[order[n - 1] as int].name@, known) {
            Some(p) => before.push(p),
            None => before,
        }
    }
}

/// The picked subject names with repeats dropped, each kept where it first
/// appears.
pub open spec fn first_seen(xs: Seq<Seq<char>>) -> Seq<Seq<char>>
    decreases xs.len(),
{
    if xs.len() == 0 {
        seq![]
    } else if xs.drop_last().contains(xs.last()) {
        first_seen(xs.drop_last())
    } else {
        first_seen(xs.drop_last()).push(xs.last())
    }
}

/// How many picks are known subjects (`known == true`) or invented ones.
pub open spec fn count_kind(ps: Seq<(Seq<char>, bool)>, known: bool) -> nat
    decreases ps.len(),
{
    if ps.len() == 0 {
        0
    } else {
        count_kind(ps.drop_last(), known) + (if ps.last().1 == known { 1nat } else { 0nat })
    }
}

/// The name a job track gets.
pub open spec fn track_title(role: Seq<char>) -> Seq<char> {
    if role.len() == 0 {
        "Job track"@
    } else {
        role + " (job track)"@
    }
}

/// A posting turned into a track: the role and seniority trimmed, the
/// subjects in study order without repeats, how many skills matched a known
/// subject and how many became custom ones, and the track's name.
#[derive(Debug, Clone)]
pub struct JobTrack {
    pub role: String,
    pub seniority: String,
    pub subjects: Vec<String>,
    pub matched: usize,
    pub invented: usize,
    pub name: String,
}

proof fn lemma_first_seen_contains(xs: Seq<Seq<char>>, v: Seq<char>)
    ensures
        first_seen(xs).contains(v) <==> xs.contains(v),
    decreases xs.len(),
{
    if xs.len() > 0 {
        lemma_first_seen_contains(xs.drop_last(), v);
        if xs.contains(v) && !xs.drop_last().contains(v) {
            let k = choose|k: int| 0 <= k < xs.len() && xs[k] == v;
            if k < xs.len() - 1 {
                assert(xs.drop_last()[k] == v);
            }
            assert(xs.last() == v);
        }
        if xs.drop_last().contains(v) {
            let k = choose|k: int| 0 <= k < xs.drop_last().len() && xs.drop_last()[k] == v;
            assert(xs[k] == v);
        }
        if !xs.drop_last().contains(xs.last()) {
            let f = first_seen(xs.drop_last());
            if f.push(xs.last()).contains(v) && !f.contains(v) {
                let k = choose|k: int| 0 <= k < f.len() + 1 && f.push(xs.last())[k] == v;
                if k < f.len() {
                    assert(f[k] == v);
                }
                assert(xs[xs.len() - 1] == v);
            }
            if f.contains(v) {
                let k = choose|k: int| 0 <= k < f.len() && f[k] == v;
                assert(f.push(xs.last())[k] == v);
            }
            if v == xs.last() {
                assert(f.push(xs.last())[f.len() as int] == v);
            }
        }
    }
}

/// Whether `name` is one of `list`.
fn listed_name(list: &Vec<String>, name: &str) -> (r: bool)
    ensures
        r == names(list@).contains(name@),
{
    let mut i: usize = 0;
    while i < list.len()
        invariant
            i <= list@.len(),
            forall|j: int| 0 <= j < i ==> names(list@)[j] != name@,
        decreases list.len() - i,
    {
        if text_eq(list[i].as_str(), name) {
            assert(names(list@)[i as int] == name@);
            return true;
        }
        i = i + 1;
    }
    false
}

/// Turn an extracted posting into a track: each skill, in study order, is
/// matched onto a subject the app can teach or becomes a custom one, and a
/// subject named twice is kept where it first appears.
pub fn job_track(spec: &JobSpecJson, known: &[String]) -> (r: JobTrack)
    ensures
        r.role@ == trimmed(spec.role@),
        r.seniority@ == trimmed(spec.seniority@),
        r.name@ == track_title(trimmed(spec.role@)),
        exists|order: Seq<usize>| {
            &&& is_priority_order(skill_priorities(spec.skills@), order)
            &&& #[trigger] names(r.subjects@) == first_seen(picks(spec.skills@, order, names(known@), order.len() as int).map_values(|p: (Seq<char>, bool)| p.0))
            &&& r.matched == count_kind(picks(spec.skills@, order, names(known@), order.len() as int), true)
            &&& r.invented == count_kind(picks(spec.skills@, order, names(known@), order.len() as int), false)
        },
{
    let role = string_of(&trim_chars(&chars_of(spec.role.as_str())));
    let seniority = string_of(&trim_chars(&chars_of(spec.seniority.as_str())));
    let name = if role.as_str().is_empty() {
        owned("Job track")
    } else {
        concat(role.as_str(), " (job track)")
    };
    proof {
        reveal_strlit("Job track");
        reveal_strlit(" (job track)");
    }
    let mut priorities: Vec<i64> = Vec::new();
    let mut j: usize = 0;
    while j < spec.skills.len()
        invariant
            j <= spec.skills@.len(),
            priorities@ =~= skill_priorities(spec.skills@).take(j as int),
        decreases spec.skills.len() - j,
    {
        priorities.push(spec.skills[j].priority);
        j = j + 1;
    }
    assert(priorities@ =~= skill_priorities(spec.skills@));
    let order = priority_order(priorities.as_slice());
    let ghost s = spec.skills@;
    let ghost kn = names(known@);
    let mut subjects: Vec<String> = Vec::new();
    let mut matched: usize = 0;
    let mut invented: usize = 0;
    let mut k: usize = 0;
    while k < order.len()
        invariant
            s == spec.skills@,
            kn == names(known@),
            is_priority_order(skill_priorities(s), order@),
            k <= order@.len(),
            names(subjects@) == first_seen(picks(s, order@, kn, k as int).map_values(|p: (Seq<char>, bool)| p.0)),
            matched == count_kind(picks(s, order@, kn, k as int), true),
            invented == count_kind(picks(s, order@, kn, k as int), false),
            picks(s, order@, kn, k as int).len() <= k,
            matched <= k,
            invented <= k,
        decreases order@.len() - k,
    {
        let ghost before = picks(s, order@, kn, k as int);
        let ghost nb = before.map_values(|p: (Seq<char>, bool)| p.0);
        let idx = order[k];
        assert(idx < s.len());
        let skill = spec.skills[idx].name.as_str();
        let picked: Option<(String, bool)> = match match_subject(skill, known) {
            Some(n) => Some((n, true)),
            None => {
                let c = custom_subject_name(skill);
                if c.as_str().is_empty() {
                    None
                } else {
                    Some((c, false))
                }
            },
        };
        match picked {
            Some((n, flag)) => {
                let ghost after = before.push((n@, flag));
                assert(picks(s, order@, kn, k + 1) == after);
                assert(after.map_values(|p: (Seq<char>, bool)| p.0) =~= nb.push(n@));
                assert(after.drop_last() == before);
                if flag {
                    matched = matched + 1;
                } else {
                    invented = invented + 1;
                }
                proof {
                    lemma_first_seen_contains(nb, n@);
                    assert(nb.push(n@).drop_last() =~= nb);
                }
                if !listed_name(&subjects, n.as_str()) {
                    let ghost prev = subjects@;
                    subjects.push(n);
                    assert(names(subjects@) =~= names(prev).push(subjects@[prev.len() as int]@));
                }
            },
            None => {
                assert(picks(s, order@, kn, k + 1) == before);
            },
        }
        k = k + 1;
    }
    JobTrack { role, seniority, subjects, matched, invented, name }
}

// ---------------------------------------------------------------------------
// The quiz in progress
// ---------------------------------------------------------------------------

/// An in-progress quiz attempt.
pub struct QuizState {
    pub quiz_id: i64,
    pub plan_id: i64,
    pub title: String,
    pub questions: Vec<QuizQuestion>,
    pub chosen: Vec<Option<usize>>,
    pub submitted: bool,
    pub score: (i64, i64),
}

impl QuizState {
    /// A fresh attempt at a quiz on `subject`: titled "<subject> quiz", no
    /// answer chosen yet. `None` when the quiz has no questions.
    pub fn open(quiz_id: i64, plan_id: i64, subject: &str, questions: Vec<QuizQuestion>) -> (r: Option<Self>)
        ensures
            match r {
                Some(q) => {
                    &&& questions@.len() > 0
                    &&& q.quiz_id == quiz_id
                    &&& q.plan_id == plan_id
                    &&& q.title@ == subject@ + " quiz"@
                    &&& q.questions@ == questions@
                    &&& q.chosen@.len() == questions@.len()
                    &&& forall|i: int| 0 <= i < q.chosen@.len() ==> (#[trigger] q.chosen@[i]) is None
                    &&& !q.submitted
                    &&& q.score == (0i64, 0i64)
                },
                None => questions@.len() == 0,
            },
    {
        if questions.len() == 0 {
            return None;
        }
        let mut chosen: Vec<Option<usize>> = Vec::new();
        let mut i: usize = 0;
        while i < questions.len()
            invariant
                i <= questions@.len(),
                chosen@.len() == i,
                forall|j: int| 0 <= j < i ==> (#[trigger] chosen@[j]) is None,
            decreases questions.len() - i,
        {
            chosen.push(None);
            i = i + 1;
        }
        Some(QuizState {
            quiz_id,
            plan_id,
            title: concat(subject, " quiz"),
            questions,
            chosen,
            submitted: false,
            score: (0, 0),
        })
    }

    /// Pick option `option` for question `index`; nothing changes once the
    /// attempt is submitted or when the question is not there.
    pub fn pick(&mut self, index: usize, option: usize)
        ensures
            final(self).chosen@ == (if !old(self).submitted && index < old(self).chosen@.len() {
                old(self).chosen@.update(index as int, Some(option))
            } else {
                old(self).chosen@
            }),
            final(self).submitted == old(self).submitted,
            final(self).questions == old(self).questions,
            final(self).score == old(self).score,
    {
        if !self.submitted && index < self.chosen.len() {
            self.chosen.set(index, Some(option));
        }
    }

    /// How many questions have an answer picked.
    pub fn answered_count(&self) -> (r: usize)
        ensures
            r == picked_count(self.chosen@, self.chosen@.len() as int),
    {
        let mut n: usize = 0;
        let mut i: usize = 0;
        while i < self.chosen.len()
            invariant
                i <= self.chosen@.len(),
                n == picked_count(self.chosen@, i as int),
                n <= i,
            decreases self.chosen.len() - i,
        {
            if self.chosen[i].is_some() {
                n = n + 1;
            }
            i = i + 1;
        }
        n
    }

    /// The attempt can be submitted: not yet submitted, and every question
    /// answered.
    pub fn ready_to_submit(&self) -> (r: bool)
        ensures
            r == (!self.submitted && picked_count(self.chosen@, self.chosen@.len() as int) == self.questions@.len()),
    {
        !self.submitted && self.answered_count() == self.questions.len()
    }

    /// Mark the attempt submitted with its score.
    pub fn record_score(&mut self, correct: i64, total: i64)
        ensures
            final(self).submitted,
            final(self).score == (correct, total),
            final(self).quiz_id == old(self).quiz_id,
            final(self).plan_id == old(self).plan_id,
            final(self).title == old(self).title,
            final(self).questions == old(self).questions,
            final(self).chosen == old(self).chosen,
    {
        self.submitted = true;
        self.score = (correct, total);
    }
}

/// How many of the first `n` questions have an answer picked.
pub open spec fn picked_count(chosen: Seq<Option<usize>>, n: int) -> nat
    decreases n,
{
    if n <= 0 || n > chosen.len() {
        0
    } else {
        picked_count(chosen, n - 1) + (if chosen[n - 1] is Some { 1nat } else { 0nat })
    }
}

// ---------------------------------------------------------------------------
// Settings
// ---------------------------------------------------------------------------

/// Editable copy of the settings, applied on Save.
#[derive(Debug, Clone)]
pub struct SettingsForm {
    pub cli_path: String,
    pub prompt_flag: String,
    pub extra_args: String,
    pub git_path: String,
    pub target_hours: i64,
    pub minutes_per_day: i64,
    pub quiz_length: i64,
    pub heatmap_weeks: i64,
    pub unlock_threshold: i64,
}

/// The settings keys, in the order they are saved.
pub open spec fn setting_keys() -> Seq<Seq<char>> {
    seq![
        "cli_path"@, "cli_prompt_flag"@, "cli_extra_args"@, "git_path"@, "target_hours"@,
        "minutes_per_day"@, "quiz_length"@, "heatmap_weeks"@, "roadmap_unlock_threshold"@,
    ]
}

/// The value saved under each key of `setting_keys`, in the same order.
pub open spec fn setting_values(f: SettingsForm) -> Seq<Seq<char>> {
    seq![
        f.cli_path@, f.prompt_flag@, f.extra_args@, f.git_path@, decimal(f.target_hours),
        decimal(f.minutes_per_day), decimal(f.quiz_length), decimal(f.heatmap_weeks),
        decimal(f.unlock_threshold),
    ]
}

impl SettingsForm {
    /// How the CLI is invoked under these settings.
    pub fn cli_config(&self) -> (r: CliConfig)
        ensures
            r.cli_path@ == self.cli_path@,
            r.prompt_flag@ == self.prompt_flag@,
            r.extra_args@ == self.extra_args@,
            r.git_path@ == self.git_path@,
    {
        CliConfig {
            cli_path: self.cli_path.clone(),
            prompt_flag: self.prompt_flag.clone(),
            extra_args: self.extra_args.clone(),
            git_path: self.git_path.clone(),
        }
    }

    /// The key and value of every setting the form saves, in order.
    pub fn setting_pairs(&self) -> (r: Vec<(String, String)>)
        ensures
            r@.len() == setting_keys().len(),
            forall|i: int| 0 <= i < r@.len() ==> (#[trigger] r@[i]).0@ == setting_keys()[i] && r@[i].1@ == setting_values(*self)[i],
    {
        let mut r: Vec<(String, String)> = Vec::new();
        r.push((owned("cli_path"), self.cli_path.clone()));
        r.push((owned("cli_prompt_flag"), self.prompt_flag.clone()));
        r.push((owned("cli_extra_args"), self.extra_args.clone()));
        r.push((owned("git_path"), self.git_path.clone()));
        r.push((owned("target_hours"), int_text(self.target_hours)));
        r.push((owned("minutes_per_day"), int_text(self.minutes_per_day)));
        r.push((owned("quiz_length"), int_text(self.quiz_length)));
        r.push((owned("heatmap_weeks"), int_text(self.heatmap_weeks)));
        r.push((owned("roadmap_unlock_threshold"), int_text(self.unlock_threshold)));
        r
    }
}

// ---------------------------------------------------------------------------
// Smaller decisions of the window
// ---------------------------------------------------------------------------

/// The posting to read, trimmed; `None` (ask for the posting first) when the
/// trimmed text is under 40 bytes.
pub fn posting_text(input: &str) -> (r: Option<String>)
    ensures
        match r {
            Some(t) => t@ == trimmed(input@) && t@.len() > 0 && byte_len(t@) >= 40,
            None => byte_len(trimmed(input@)) < 40,
        },
{
    let t = string_of(&trim_chars(&chars_of(input)));
    if t.as_str().len() < 40 {
        None
    } else {
        proof {
            if t@.len() == 0 {
                assert(vstd::utf8::encode_utf8(t@) =~= Seq::<u8>::empty());
            }
        }
        Some(t)
    }
}

/// What stopping the practice timer does: log the minutes when there is at
/// least one, and mark the day started when it had not been.
#[derive(Debug, Clone, Copy, PartialEq, Eq, Structural)]
pub struct PracticeLog {
    pub log: bool,
    pub start_day: bool,
}

/// Day `i` is the session's day and has not been started.
pub open spec fn unstarted_day(days: Seq<Day>, day_id: i64, i: int) -> bool {
    days[i].id == day_id && days[i].status == DayStatus::NotStarted
}

/// What to do with a stopped session of `minutes` on day `day_id`.
pub fn practice_log(days: &[Day], day_id: i64, minutes: i64) -> (r: PracticeLog)
    ensures
        r.log == (minutes >= 1),
        r.start_day == (minutes >= 1 && exists|i: int| 0 <= i < days@.len() && #[trigger] unstarted_day(days@, day_id, i)),
{
    if minutes < 1 {
        return PracticeLog { log: false, start_day: false };
    }
    let mut i: usize = 0;
    while i < days.len()
        invariant
            i <= days@.len(),
            minutes >= 1,
            forall|j: int| 0 <= j < i ==> !#[trigger] unstarted_day(days@, day_id, j),
        decreases days.len() - i,
    {
        if days[i].id == day_id && days[i].status == DayStatus::NotStarted {
            assert(unstarted_day(days@, day_id, i as int));
            return PracticeLog { log: true, start_day: true };
        }
        i = i + 1;
    }
    PracticeLog { log: true, start_day: false }
}

/// A day whose lesson is still to be fetched: not edited by the learner and
/// with no content yet.
pub open spec fn needs_lesson(d: Day) -> bool {
    !d.content_edited && trimmed(d.content_md@).len() == 0
}

/// The positions, in order, of the first `n` days that need a lesson.
pub open spec fn lesson_positions(days: Seq<Day>, n: int) -> Seq<usize>
    decreases n,
{
    if n <= 0 || n > days.len() {
        seq![]
    } else if needs_lesson(days[n - 1]) {
        lesson_positions(days, n - 1).push((n - 1) as usize)
    } else {
        lesson_positions(days, n - 1)
    }
}

/// Which days of a new course get their lesson fetched: never one the
/// learner has edited or that already has content.
pub fn lessons_to_fetch(days: &[Day]) -> (r: Vec<usize>)
    ensures
        r@ == lesson_positions(days@, days@.len() as int),
{
    let mut r: Vec<usize> = Vec::new();
    let mut i: usize = 0;
    while i < days.len()
        invariant
            i <= days@.len(),
            r@ == lesson_positions(days@, i as int),
        decreases days.len() - i,
    {
        if !days[i].content_edited && is_blank(days[i].content_md.as_str()) {
            r.push(i);
        }
        i = i + 1;
    }
    r
}

/// Subjects already cleared ahead of `stack_id` on the active track: what a
/// new course for it builds on. Empty with no track, or when the subject is
/// not on it.
pub fn track_context(track: &Option<RoadmapProgress>, stack_id: i64) -> (r: Vec<String>)
    ensures
        match track {
            None => r@.len() == 0,
            Some(p) => if exists|i: int| first_position(p.entries@, stack_id, i) {
                names(r@) == cleared_subjects(p.entries@, choose|i: int| first_position(p.entries@, stack_id, i))
            } else {
                r@.len() == 0
            },
        },
{
    match track {
        None => Vec::new(),
        Some(p) => match p.index_of(stack_id) {
            Some(idx) => {
                proof {
                    let c = choose|i: int| first_position(p.entries@, stack_id, i);
                    if c < idx {
                        assert(p.entries@[c].stack_id == stack_id);
                    } else if c > idx {
                        assert(p.entries@[idx as int].stack_id == stack_id);
                    }
                }
                p.cleared_before(idx)
            },
            None => Vec::new(),
        },
    }
}

/// Position `i` holds the first day with id `id`.
pub open spec fn first_day(days: Seq<Day>, id: i64, i: int) -> bool {
    &&& 0 <= i < days.len()
    &&& days[i].id == id
    &&& forall|j: int| 0 <= j < i ==> (#[trigger] days[j]).id != id
}

/// Position `i` holds the first project set in week `week`.
pub open spec fn first_project(projects: Seq<WeeklyProject>, week: i64, i: int) -> bool {
    &&& 0 <= i < projects.len()
    &&& projects[i].week_number == week
    &&& forall|j: int| 0 <= j < i ==> (#[trigger] projects[j]).week_number != week
}

fn find_day(days: &[Day], id: i64) -> (r: Option<usize>)
    ensures
        match r {
            Some(i) => first_day(days@, id, i as int),
            None => forall|j: int| 0 <= j < days@.len() ==> (#[trigger] days@[j]).id != id,
        },
{
    let mut i: usize = 0;
    while i < days.len()
        invariant
            i <= days@.len(),
            forall|j: int| 0 <= j < i ==> (#[trigger] days@[j]).id != id,
        decreases days.len() - i,
    {
        if days[i].id == id {
            return Some(i);
        }
        i = i + 1;
    }
    None
}

fn find_project(projects: &[WeeklyProject], week: i64) -> (r: Option<usize>)
    ensures
        match r {
            Some(i) => first_project(projects@, week, i as int),
            None => forall|j: int| 0 <= j < projects@.len() ==> (#[trigger] projects@[j]).week_number != week,
        },
{
    let mut i: usize = 0;
    while i < projects.len()
        invariant
            i <= projects@.len(),
            forall|j: int| 0 <= j < i ==> (#[trigger] projects@[j]).week_number != week,
        decreases projects.len() - i,
    {
        if projects[i].week_number == week {
            return Some(i);
        }
        i = i + 1;
    }
    None
}

/// The week's project, if it has one.
pub open spec fn week_project(projects: Seq<WeeklyProject>, week: i64) -> Option<WeeklyProject> {
    if exists|i: int| first_project(projects, week, i) {
        Some(projects[choose|i: int| first_project(projects, week, i)])
    } else {
        None
    }
}

/// What a quiz of `scope` covers: a day's content for "day" with a day id,
/// a week's for "week" with a week number; `None` when the scope names
/// nothing (or the day is not in the course) and no quiz is asked for.
pub fn quiz_scope(scope: &str, day_id: Option<i64>, week: Option<i64>, days: &[Day], projects: &[WeeklyProject]) -> (r: Option<String>)
    ensures
        ({
            if scope@ == "day"@ && day_id is Some {
                match r {
                    Some(t) => exists|i: int| first_day(days@, day_id->0, i) && t@ == day_scope(#[trigger] days@[i]),
                    None => forall|j: int| 0 <= j < days@.len() ==> (#[trigger] days@[j]).id != day_id->0,
                }
            } else if scope@ == "week"@ && week is Some {
                r matches Some(t) && t@ == week_scope(days@, week->0, week_project(projects@, week->0))
            } else {
                r is None
            }
        }),
{
    if text_eq(scope, "day") {
        if let Some(id) = day_id {
            return match find_day(days, id) {
                Some(i) => Some(scope_content_day(&days[i])),
                None => None,
            };
        }
    }
    if text_eq(scope, "week") {
        if let Some(w) = week {
            let project = match find_project(projects, w) {
                Some(i) => {
                    proof {
                        let c = choose|c: int| first_project(projects@, w, c);
                        if c < i {
                            assert(projects@[c].week_number == w);
                        } else if c > i {
                            assert(projects@[i as int].week_number == w);
                        }
                    }
                    Some(&projects[i])
                },
                None => None,
            };
            return Some(scope_content_week(days, w, project));
        }
    }
    proof {
        reveal_strlit("day");
        reveal_strlit("week");
        assert("day"@.len() != "week"@.len());
    }
    None
}

/// The review asked for a week's project: its repository (trimmed), what
/// the week studied, its title and description, and its acceptance criteria
/// joined with "; ". `None` when no repository was entered.
pub fn verify_request(project: &WeeklyProject, github_input: &str, days: &[Day]) -> (r: Option<VerifyRequest>)
    ensures
        match r {
            Some(req) => {
                &&& trimmed(github_input@).len() != 0
                &&& req.weekly_project_id == project.id
                &&& req.github_url@ == trimmed(github_input@)
                &&& req.week_subskills@ == week_summary(days@, project.week_number)
                &&& req.description@ == project.title@ + " - "@ + project.description@
                &&& req.acceptance@ == join(names(project.acceptance@), "; "@)
            },
            None => trimmed(github_input@).len() == 0,
        },
{
    if is_blank(github_input) {
        return None;
    }
    let mut description = concat(project.title.as_str(), " - ");
    push_str(&mut description, project.description.as_str());
    Some(VerifyRequest {
        weekly_project_id: project.id,
        github_url: string_of(&trim_chars(&chars_of(github_input))),
        week_subskills: week_subskills(days, project.week_number),
        description,
        acceptance: join_strings(project.acceptance.as_slice(), "; "),
    })
}

// ---------------------------------------------------------------------------
// Finished jobs and saved settings
// ---------------------------------------------------------------------------

/// What kind of background job reported back.
#[derive(Debug, Clone, Copy, PartialEq, Eq, Structural)]
pub enum JobKind {
    Plan,
    DayContent,
    Quiz,
    Verify,
    JobSkills,
    UpdateCheck,
    UpdateInstall,
    CliTest,
}

/// Whether a job of this kind ran through the CLI queue and held one of its
/// slots; update checks, installs and the CLI test run beside the queue.
pub open spec fn holds_slot(kind: JobKind) -> bool {
    !(kind == JobKind::UpdateCheck || kind == JobKind::UpdateInstall || kind == JobKind::CliTest)
}

/// How many of the first `n` reports came from queued jobs.
pub open spec fn slot_count(kinds: Seq<JobKind>, n: int) -> nat
    decreases n,
{
    if n <= 0 || n > kinds.len() {
        0
    } else {
        slot_count(kinds, n - 1) + (if holds_slot(kinds[n - 1]) { 1nat } else { 0nat })
    }
}

pub fn holds_cli_slot(kind: JobKind) -> (r: bool)
    ensures
        r == holds_slot(kind),
{
    match kind {
        JobKind::UpdateCheck | JobKind::UpdateInstall | JobKind::CliTest => false,
        _ => true,
    }
}

/// How many queue slots a batch of finished jobs frees.
pub fn freed_slots(kinds: &[JobKind]) -> (r: usize)
    ensures
        r == slot_count(kinds@, kinds@.len() as int),
{
    let mut n: usize = 0;
    let mut i: usize = 0;
    while i < kinds.len()
        invariant
            i <= kinds@.len(),
            n == slot_count(kinds@, i as int),
            n <= i,
        decreases kinds.len() - i,
    {
        if holds_cli_slot(kinds[i]) {
            n = n + 1;
        }
        i = i + 1;
    }
    n
}

/// A numeric setting: the stored text read as an integer, or `default` when
/// nothing is stored or it does not read as one.
pub fn setting_number(stored: Option<&str>, default: i64) -> (r: i64)
    ensures
        r == match stored {
            Some(text) => match parsed_int(text@) {
                Some(n) => n,
                None => default,
            },
            None => default,
        },
{
    match stored {
        Some(text) => match parse_int(text) {
            Some(n) => n,
            None => default,
        },
        None => default,
    }
}

/// An on/off setting: on when the stored text, or `default` when nothing
/// is stored, is exactly "1".
pub fn setting_flag(stored: Option<&str>, default: &str) -> (r: bool)
    ensures
        r == match stored {
            Some(text) => text@ == "1"@,
            None => default@ == "1"@,
        },
{
    match stored {
        Some(text) => text_eq(text, "1"),
        None => text_eq(default, "1"),
    }
}

// ---------------------------------------------------------------------------
// A day's progress
// ---------------------------------------------------------------------------

/// Where a day stands: its status and whether its hands-on task is done.
#[derive(Debug, Clone, Copy, PartialEq, Eq, Structural)]
pub struct DayProgress {
    pub status: DayStatus,
    pub hands_on_done: bool,
}

/// What the learner does to a day.
#[derive(Debug, Clone, Copy, PartialEq, Eq, Structural)]
pub enum DayEvent {
    /// Pick a status from the list; "Done" is offered only once the
    /// hands-on task is ticked.
    ChooseStatus(DayStatus),
    /// Tick or untick the hands-on task; unticking it reopens a done day.
    TickHandsOn(bool),
    /// Log practice on the day, by hand or with the timer; that starts it.
    Practised,
}

/// The day after an event.
pub open spec fn day_after(p: DayProgress, e: DayEvent) -> DayProgress {
    match e {
        DayEvent::ChooseStatus(s) => if s == DayStatus::Done && !p.hands_on_done {
            p
        } else {
            DayProgress { status: s, hands_on_done: p.hands_on_done }
        },
        DayEvent::TickHandsOn(done) => DayProgress {
            status: if !done && p.status == DayStatus::Done { DayStatus::InProgress } else { p.status },
            hands_on_done: done,
        },
        DayEvent::Practised => DayProgress {
            status: if p.status == DayStatus::NotStarted { DayStatus::InProgress } else { p.status },
            hands_on_done: p.hands_on_done,
        },
    }
}

pub fn next_day_progress(p: DayProgress, e: DayEvent) -> (r: DayProgress)
    ensures
        r == day_after(p, e),
{
    match e {
        DayEvent::ChooseStatus(s) => if s == DayStatus::Done && !p.hands_on_done {
            p
        } else {
            DayProgress { status: s, hands_on_done: p.hands_on_done }
        },
        DayEvent::TickHandsOn(done) => DayProgress {
            status: if !done && p.status == DayStatus::Done { DayStatus::InProgress } else { p.status },
            hands_on_done: done,
        },
        DayEvent::Practised => DayProgress {
            status: if p.status == DayStatus::NotStarted { DayStatus::InProgress } else { p.status },
            hands_on_done: p.hands_on_done,
        },
    }
}

/// A day is done only with its hands-on task done, and no event changes
/// that; practice never moves a day backwards.
pub proof fn lemma_done_needs_hands_on(p: DayProgress, e: DayEvent)
    requires
        p.status == DayStatus::Done ==> p.hands_on_done,
    ensures
        day_after(p, e).status == DayStatus::Done ==> day_after(p, e).hands_on_done,
        e == DayEvent::Practised ==> day_after(p, e).status != DayStatus::NotStarted,
        e == DayEvent::Practised && p.status != DayStatus::NotStarted ==> day_after(p, e) == p,
{
}

/// The id of the day after (`forward`) or before the selected one, when
/// there is one; with nothing selected, or a selection not in the course,
/// the first day counts as selected.
pub fn neighbour_day(days: &[Day], selected: Option<i64>, forward: bool) -> (r: Option<i64>)
    ensures
        ({
            let at: int = match selected {
                Some(id) => if exists|i: int| first_day(days@, id, i) {
                    choose|i: int| first_day(days@, id, i)
                } else {
                    0
                },
                None => 0,
            };
            let target = if forward { at + 1 } else { at - 1 };
            if 0 <= target < days@.len() {
                r == Some(days@[target].id)
            } else {
                r is None
            }
        }),
{
    let at: usize = match selected {
        Some(id) => match find_day(days, id) {
            Some(i) => {
                proof {
                    let c = choose|c: int| first_day(days@, id, c);
                    if c < i {
                        assert(days@[c].id == id);
                    } else if c > i {
                        assert(days@[i as int].id == id);
                    }
                }
                i
            },
            None => 0,
        },
        None => 0,
    };
    if forward {
        if days.len() > 0 && at < days.len() - 1 {
            Some(days[at + 1].id)
        } else {
            None
        }
    } else if at > 0 && at - 1 < days.len() {
        Some(days[at - 1].id)
    } else {
        None
    }
}

// ---------------------------------------------------------------------------
// A course at a glance
// ---------------------------------------------------------------------------

/// How many of the first `n` days are done.
pub open spec fn done_count(days: Seq<Day>, n: int) -> nat
    decreases n,
{
    if n <= 0 || n > days.len() {
        0
    } else {
        done_count(days, n - 1) + (if days[n - 1].status == DayStatus::Done { 1nat } else { 0nat })
    }
}

/// The highest difficulty among the first `n` days that are done, or 0.
pub open spec fn reached(days: Seq<Day>, n: int) -> i64
    decreases n,
{
    if n <= 0 || n > days.len() {
        0
    } else if days[n - 1].status == DayStatus::Done && days[n - 1].difficulty > reached(days, n - 1) {
        days[n - 1].difficulty
    } else {
        reached(days, n - 1)
    }
}

/// Days done and the difficulty reached so far.
#[derive(Debug, Clone, Copy, PartialEq, Eq, Structural)]
pub struct CourseSummary {
    pub days_done: usize,
    pub difficulty_reached: i64,
}

pub fn course_summary(days: &[Day]) -> (r: CourseSummary)
    ensures
        r.days_done == done_count(days@, days@.len() as int),
        r.difficulty_reached == reached(days@, days@.len() as int),
{
    let mut done: usize = 0;
    let mut top: i64 = 0;
    let mut i: usize = 0;
    while i < days.len()
        invariant
            i <= days@.len(),
            done == done_count(days@, i as int),
            done <= i,
            top == reached(days@, i as int),
        decreases days.len() - i,
    {
        if days[i].status == DayStatus::Done {
            done = done + 1;
            if days[i].difficulty > top {
                top = days[i].difficulty;
            }
        }
        i = i + 1;
    }
    CourseSummary { days_done: done, difficulty_reached: top }
}

/// The subskills of a course's days, each once, where it first appears.
pub fn subskill_names(days: &[Day]) -> (r: Vec<String>)
    ensures
        names(r@) == first_seen(days@.map_values(|d: Day| d.subskill@)),
{
    let ghost all = days@.map_values(|d: Day| d.subskill@);
    let mut out: Vec<String> = Vec::new();
    let mut i: usize = 0;
    while i < days.len()
        invariant
            i <= days@.len(),
            all == days@.map_values(|d: Day| d.subskill@),
            names(out@) == first_seen(all.take(i as int)),
        decreases days.len() - i,
    {
        let ghost pre = all.take(i as int);
        let ghost cur = all.take(i + 1);
        assert(cur.drop_last() =~= pre);
        assert(cur.last() == days@[i as int].subskill@);
        proof {
            lemma_first_seen_contains(pre, days@[i as int].subskill@);
        }
        if !listed_name(&out, days[i].subskill.as_str()) {
            let s = days[i].subskill.clone();
            let ghost prev = out@;
            out.push(s);
            assert(names(out@) =~= names(prev).push(s@));
        }
        i = i + 1;
    }
    assert(all.take(days@.len() as int) =~= all);
    out
}

} // verus!
