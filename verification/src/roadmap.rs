//! Sequential progression along a roadmap: which subjects are cleared, which
//! are unlocked, and what to work on next.

use vstd::prelude::*;
use crate::text::names;

verus! {

/// Percentage of a subject's days that must be `done` before the roadmap
/// treats it as cleared and unlocks the next subject.
pub const DEFAULT_UNLOCK_THRESHOLD: i64 = 80;

/// What one subject on the track has done, as progress is computed from.
#[derive(Debug, Clone)]
pub struct SubjectCount {
    pub item_id: i64,
    pub subject: String,
    pub stack_id: i64,
    pub days_done: i64,
    pub days_total: i64,
    /// The share of its days that are done, as a whole percentage.
    pub percent: i64,
}

/// One subject on the track, with the progress that gates the next one.
#[derive(Debug, Clone)]
pub struct RoadmapEntry {
    pub item_id: i64,
    pub subject: String,
    pub stack_id: i64,
    pub days_done: i64,
    pub days_total: i64,
    /// False while a subject earlier on the track is still short of the
    /// threshold. The track is walked in order, so this is what locks it.
    pub unlocked: bool,
    /// Past the unlock threshold, so the subject after it opens.
    pub cleared: bool,
}

/// Per-item progress for a roadmap plus the index of the subject to work on next.
#[derive(Debug, Clone)]
pub struct RoadmapProgress {
    pub entries: Vec<RoadmapEntry>,
    pub current: Option<usize>,
}

/// A subject is cleared once it has a course and the share of its days done
/// reaches the threshold.
pub open spec fn is_cleared(c: SubjectCount, threshold: i64) -> bool {
    c.days_total > 0 && c.percent >= threshold
}

/// Every subject before position `i` is cleared.
pub open spec fn all_cleared_before(counts: Seq<SubjectCount>, threshold: i64, i: int) -> bool {
    forall|j: int| 0 <= j < i ==> is_cleared(#[trigger] counts[j], threshold)
}

/// `i` is the first subject on the track that is not cleared.
pub open spec fn first_uncleared(counts: Seq<SubjectCount>, threshold: i64, i: int) -> bool {
    0 <= i < counts.len() && !is_cleared(counts[i], threshold) && all_cleared_before(counts, threshold, i)
}

/// `p` is the progress of a track whose subjects, in order, stand at `counts`.
pub open spec fn progress_of(p: RoadmapProgress, counts: Seq<SubjectCount>, threshold: i64) -> bool {
    &&& p.entries@.len() == counts.len()
    &&& forall|i: int| 0 <= i < counts.len() ==> {
        let e = #[trigger] p.entries@[i];
        let c = counts[i];
        &&& e.item_id == c.item_id
        &&& e.subject@ == c.subject@
        &&& e.stack_id == c.stack_id
        &&& e.days_done == c.days_done
        &&& e.days_total == c.days_total
        &&& e.cleared == is_cleared(c, threshold)
        &&& e.unlocked == all_cleared_before(counts, threshold, i)
    }
    &&& match p.current {
        Some(i) => first_uncleared(counts, threshold, i as int),
        None => all_cleared_before(counts, threshold, counts.len() as int),
    }
}

/// Walk the track in order: each subject is unlocked while everything before
/// it is cleared, and the first subject not cleared is the one to work on.
pub fn progress(counts: &[SubjectCount], threshold: i64) -> (r: RoadmapProgress)
    ensures
        progress_of(r, counts@, threshold),
{
    let ghost cs = counts@;
    let mut entries: Vec<RoadmapEntry> = Vec::new();
    let mut current: Option<usize> = None;
    let mut unlocked = true;
    let mut i: usize = 0;
    while i < counts.len()
        invariant
            i <= counts.len(),
            cs == counts@,
            entries@.len() == i,
            unlocked == all_cleared_before(cs, threshold, i as int),
            forall|k: int| 0 <= k < i ==> {
                let e = #[trigger] entries@[k];
                let c = cs[k];
                &&& e.item_id == c.item_id
                &&& e.subject@ == c.subject@
                &&& e.stack_id == c.stack_id
                &&& e.days_done == c.days_done
                &&& e.days_total == c.days_total
                &&& e.cleared == is_cleared(c, threshold)
                &&& e.unlocked == all_cleared_before(cs, threshold, k)
            },
            match current {
                Some(k) => first_uncleared(cs, threshold, k as int),
                None => all_cleared_before(cs, threshold, i as int),
            },
        decreases counts.len() - i,
    {
        let c = &counts[i];
        let cleared = c.days_total > 0 && c.percent >= threshold;
        entries.push(RoadmapEntry {
            item_id: c.item_id,
            subject: c.subject.clone(),
            stack_id: c.stack_id,
            days_done: c.days_done,
            days_total: c.days_total,
            unlocked,
            cleared,
        });
        if !cleared && current.is_none() {
            current = Some(i);
        }
        if !cleared {
            unlocked = false;
        }
        proof {
            if let Some(k) = current {
                if k < i {
                    assert(first_uncleared(cs, threshold, k as int));
                }
            }
        }
        i = i + 1;
    }
    RoadmapProgress { entries, current }
}

/// `i` is the first entry of the track for subject `stack_id`.
pub open spec fn first_position(entries: Seq<RoadmapEntry>, stack_id: i64, i: int) -> bool {
    &&& 0 <= i < entries.len()
    &&& entries[i].stack_id == stack_id
    &&& forall|j: int| 0 <= j < i ==> (#[trigger] entries[j]).stack_id != stack_id
}

/// The subjects of the cleared entries among the first `n`, in track order.
pub open spec fn cleared_subjects(entries: Seq<RoadmapEntry>, n: int) -> Seq<Seq<char>>
    decreases n,
{
    if n <= 0 || entries.len() == 0 {
        seq![]
    } else if n > entries.len() {
        cleared_subjects(entries, entries.len() as int)
    } else if entries[n - 1].cleared {
        cleared_subjects(entries, n - 1).push(entries[n - 1].subject@)
    } else {
        cleared_subjects(entries, n - 1)
    }
}

impl RoadmapProgress {
    /// The subject to work on now: the first one not yet cleared.
    pub fn current_entry(&self) -> (r: Option<&RoadmapEntry>)
        ensures
            match self.current {
                Some(i) => if i < self.entries.len() {
                    r == Some(&self.entries@[i as int])
                } else {
                    r is None
                },
                None => r is None,
            },
    {
        match self.current {
            Some(i) => if i < self.entries.len() {
                Some(&self.entries[i])
            } else {
                None
            },
            None => None,
        }
    }

    /// Where a subject sits on the track, if it is on it at all.
    pub fn index_of(&self, stack_id: i64) -> (r: Option<usize>)
        ensures
            match r {
                Some(i) => first_position(self.entries@, stack_id, i as int),
                None => forall|j: int| 0 <= j < self.entries.len() ==> (#[trigger] self.entries@[j]).stack_id != stack_id,
            },
    {
        let mut i: usize = 0;
        while i < self.entries.len()
            invariant
                i <= self.entries.len(),
                forall|j: int| 0 <= j < i ==> (#[trigger] self.entries@[j]).stack_id != stack_id,
            decreases self.entries.len() - i,
        {
            if self.entries[i].stack_id == stack_id {
                return Some(i);
            }
            i = i + 1;
        }
        None
    }

    /// Subjects already cleared ahead of `index`. This is the ground a new
    /// course should build on rather than re-teach, which is what chains the
    /// track together instead of leaving each subject to start from scratch.
    pub fn cleared_before(&self, index: usize) -> (r: Vec<String>)
        ensures
            names(r@) == cleared_subjects(self.entries@, index as int),
    {
        let n = if index < self.entries.len() {
            index
        } else {
            self.entries.len()
        };
        let mut out: Vec<String> = Vec::new();
        let mut i: usize = 0;
        while i < n
            invariant
                i <= n,
                n <= self.entries.len(),
                n == index || n == self.entries.len(),
                names(out@) =~= cleared_subjects(self.entries@, i as int),
            decreases n - i,
        {
            if self.entries[i].cleared {
                let s = self.entries[i].subject.clone();
                let ghost prev = out@;
                out.push(s);
                assert(names(out@) =~= names(prev).push(s@));
            }
            i = i + 1;
        }
        out
    }
}

/// `p` is where `item_id` first occurs in `ids`.
pub open spec fn first_at(ids: Seq<i64>, item_id: i64, p: int) -> bool {
    0 <= p < ids.len() && ids[p] == item_id && forall|j: int| 0 <= j < p ==> ids[j] != item_id
}

/// The track order after moving `item_id` by `delta` places: the item and the
/// one at its target swap. `None` when the item is not on the track or the
/// target falls off either end, and nothing moves.
pub open spec fn moved_order(ids: Seq<i64>, item_id: i64, delta: i64) -> Option<Seq<i64>> {
    if exists|p: int| 0 <= p < ids.len() && ids[p] == item_id && forall|j: int| 0 <= j < p ==> ids[j] != item_id {
        let p = choose|p: int| 0 <= p < ids.len() && ids[p] == item_id && forall|j: int| 0 <= j < p ==> ids[j] != item_id;
        let t = p + delta;
        if t < 0 || t >= ids.len() {
            None
        } else {
            Some(ids.update(p, ids[t]).update(t, ids[p]))
        }
    } else {
        None
    }
}

/// Move an item one slot up or down: the order to renumber the track by, or
/// `None` when nothing moves.
pub fn move_item(ids: &[i64], item_id: i64, delta: i64) -> (r: Option<Vec<i64>>)
    requires
        ids.len() <= i64::MAX,
        forall|p: int| #[trigger] first_at(ids@, item_id, p) ==> p + delta <= i64::MAX,
    ensures
        match r {
            Some(v) => moved_order(ids@, item_id, delta) == Some(v@),
            None => moved_order(ids@, item_id, delta) is None,
        },
{
    let mut pos: usize = 0;
    while pos < ids.len()
        invariant
            pos <= ids.len(),
            forall|j: int| 0 <= j < pos ==> ids@[j] != item_id,
        ensures
            pos <= ids.len(),
            forall|j: int| 0 <= j < pos ==> ids@[j] != item_id,
            pos < ids.len() ==> ids@[pos as int] == item_id,
        decreases ids.len() - pos,
    {
        if ids[pos] == item_id {
            break;
        }
        pos = pos + 1;
    }
    if pos == ids.len() {
        return None;
    }
    let ghost chosen = choose|p: int| 0 <= p < ids.len() && ids@[p] == item_id && forall|j: int| 0 <= j < p ==> ids@[j] != item_id;
    proof {
        assert(0 <= pos < ids.len() && ids@[pos as int] == item_id);
        assert(first_at(ids@, item_id, pos as int));
        if chosen < pos {
            assert(ids@[chosen] != item_id);
        } else if chosen > pos {
            assert(ids@[pos as int] != item_id);
        }
    }
    let target = pos as i64 + delta;
    if target < 0 || target >= ids.len() as i64 {
        return None;
    }
    let t = target as usize;
    let mut order: Vec<i64> = Vec::new();
    let mut i: usize = 0;
    while i < ids.len()
        invariant
            i <= ids.len(),
            pos < ids.len(),
            t < ids.len(),
            order@ =~= ids@.update(pos as int, ids@[t as int]).update(t as int, ids@[pos as int]).take(i as int),
        decreases ids.len() - i,
    {
        let v = if i == t {
            ids[pos]
        } else if i == pos {
            ids[t]
        } else {
            ids[i]
        };
        order.push(v);
        i = i + 1;
    }
    Some(order)
}


/// The track opens one subject at a time: the first subject is always
/// unlocked, a subject is unlocked exactly when the one before it is unlocked
/// and cleared, a subject with no course yet is never cleared, and the subject
/// to work on now is unlocked, not cleared, and everything after it is locked.
pub proof fn lemma_track_unlocks_in_order(p: RoadmapProgress, counts: Seq<SubjectCount>, threshold: i64)
    requires
        progress_of(p, counts, threshold),
    ensures
        counts.len() > 0 ==> p.entries@[0].unlocked,
        forall|i: int| 0 <= i < counts.len() - 1 ==>
            (#[trigger] p.entries@[i + 1]).unlocked == (p.entries@[i].unlocked && p.entries@[i].cleared),
        forall|i: int| 0 <= i < counts.len() && counts[i].days_total <= 0 ==> !(#[trigger] p.entries@[i]).cleared,
        p.current matches Some(i) ==> {
            &&& p.entries@[i as int].unlocked
            &&& !p.entries@[i as int].cleared
            &&& forall|j: int| i < j < counts.len() ==> !(#[trigger] p.entries@[j]).unlocked
        },
{
    assert forall|i: int| 0 <= i < counts.len() - 1 implies
        (#[trigger] p.entries@[i + 1]).unlocked == (p.entries@[i].unlocked && p.entries@[i].cleared) by {
        let e = p.entries@[i];
        let f = p.entries@[i + 1];
        if f.unlocked {
            assert(is_cleared(counts[i], threshold));
            assert forall|j: int| 0 <= j < i implies is_cleared(#[trigger] counts[j], threshold) by {
                assert(all_cleared_before(counts, threshold, i + 1));
            }
        }
        if e.unlocked && e.cleared {
            assert forall|j: int| 0 <= j < i + 1 implies is_cleared(#[trigger] counts[j], threshold) by {
                if j < i {
                    assert(all_cleared_before(counts, threshold, i));
                }
            }
        }
    }
    if let Some(i) = p.current {
        assert forall|j: int| i < j < counts.len() implies !(#[trigger] p.entries@[j]).unlocked by {
            assert(!is_cleared(counts[i as int], threshold));
        }
    }
}

} // verus!
