//! The bookkeeping of a batch run: pairing the arguments into work items, the
//! steps of one page's task, and the tally of outcomes that gives the exit code.
use vstd::prelude::*;
use crate::cookie::views;

verus! {

broadcast use vstd::seq_lib::group_to_multiset_ensures;

/// The exit code of a run whose arguments do not pair up.
pub const UNPAIRED_EXIT_CODE: i32 = 1;

/// One page to convert: where it is, and where its PDF goes.
#[derive(Clone, Debug)]
pub struct URLPathPair {
    pub url: String,
    pub path: String,
}

pub open spec fn pair_views(v: Seq<URLPathPair>) -> Seq<(Seq<char>, Seq<char>)> {
    v.map_values(|p: URLPathPair| (p.url@, p.path@))
}

/// Consecutive arguments taken two at a time.
pub open spec fn pairs_of(raw: Seq<Seq<char>>) -> Seq<(Seq<char>, Seq<char>)> {
    Seq::new(raw.len() / 2, |k: int| (raw[2 * k], raw[2 * k + 1]))
}

/// An argument list of odd length: its last argument has no destination.
#[derive(Clone, Debug)]
pub struct UnpairedArgument {
    pub argument: String,
}

impl UnpairedArgument {
    /// Such a run ends at once, with a fixed nonzero exit code.
    pub fn exit_code(&self) -> (r: i32)
        ensures
            r == UNPAIRED_EXIT_CODE,
            r != 0,
    {
        UNPAIRED_EXIT_CODE
    }
}

/// Pairs the arguments into (location, destination) work items. An odd count
/// is refused, before any work item exists, with the argument that has no
/// destination.
pub fn pair_arguments(raw: &Vec<String>) -> (r: Result<Vec<URLPathPair>, UnpairedArgument>)
    ensures
        r is Ok <==> raw.len() % 2 == 0,
        r is Ok ==> pair_views(r->Ok_0@) == pairs_of(views(raw@)),
        r is Err ==> r->Err_0.argument@ == raw@.last()@,
{
    let n = raw.len();
    if n % 2 != 0 {
        return Err(UnpairedArgument { argument: raw[n - 1].clone() });
    }
    let ghost target = pairs_of(views(raw@));
    let mut pairs: Vec<URLPathPair> = Vec::new();
    let mut k: usize = 0;
    while k < n / 2
        invariant
            n == raw.len(),
            n % 2 == 0,
            k <= n / 2,
            target == pairs_of(views(raw@)),
            pair_views(pairs@) =~= target.take(k as int),
        decreases n / 2 - k,
    {
        let p = URLPathPair { url: raw[2 * k].clone(), path: raw[2 * k + 1].clone() };
        let ghost before = pairs@;
        pairs.push(p);
        assert(views(raw@)[2 * k as int] == raw@[2 * k as int]@);
        assert(views(raw@)[2 * k + 1] == raw@[2 * k + 1]@);
        assert(pair_views(pairs@) =~= pair_views(before).push((p.url@, p.path@)));
        k = k + 1;
    }
    assert(target.take(k as int) =~= target);
    Ok(pairs)
}

/// A location that names a local file becomes a `file://` URL; any other is
/// kept as it is.
pub fn normalize_location(location: String, is_file: bool) -> (r: String)
    ensures
        r@ == (if is_file {
            "file://"@ + location@
        } else {
            location@
        }),
{
    if is_file {
        let mut r = String::from_str("file://");
        r.append(location.as_str());
        r
    } else {
        location
    }
}

/// The steps of the task that converts one page, in the order they run.
#[derive(Clone, Copy, Debug, PartialEq, Eq, Structural)]
pub enum TaskStep {
    /// Open a page of the session at the location.
    OpenPage,
    /// Have the page match screen media instead of print.
    EmulateScreen,
    /// Measure the page's content and size the sheet to it.
    MeasureLayout,
    /// Render the page to the destination.
    Render,
    /// Close the page.
    ClosePage,
}

pub open spec fn task_steps_spec(screen_media: bool, mono: bool) -> Seq<TaskStep> {
    seq![TaskStep::OpenPage] + (if screen_media {
        seq![TaskStep::EmulateScreen]
    } else {
        Seq::empty()
    }) + (if mono {
        seq![TaskStep::MeasureLayout]
    } else {
        Seq::empty()
    }) + seq![TaskStep::Render, TaskStep::ClosePage]
}

/// The steps of one page's task: open, switch to screen media if asked,
/// measure in mono mode, render, close. The task stops at the first step that
/// fails.
pub fn task_steps(screen_media: bool, mono: bool) -> (r: Vec<TaskStep>)
    ensures
        r@ == task_steps_spec(screen_media, mono),
{
    let mut r: Vec<TaskStep> = Vec::new();
    r.push(TaskStep::OpenPage);
    if screen_media {
        r.push(TaskStep::EmulateScreen);
    }
    if mono {
        r.push(TaskStep::MeasureLayout);
    }
    r.push(TaskStep::Render);
    r.push(TaskStep::ClosePage);
    assert(r@ =~= task_steps_spec(screen_media, mono));
    r
}

/// What became of one work item.
#[derive(Clone, Debug)]
pub struct TaskOutcome {
    pub index: usize,
    pub success: bool,
    pub error: Option<String>,
}

impl TaskOutcome {
    /// The outcome of the item at `index`: a success unless an error is given.
    pub fn new(index: usize, error: Option<String>) -> (r: TaskOutcome)
        ensures
            r.index == index,
            r.success == (error is None),
            r.error == error,
    {
        let success = error.is_none();
        TaskOutcome { index, success, error }
    }
}

/// How many of the slots hold a failure.
pub open spec fn failed_count(s: Seq<Option<bool>>) -> nat
    decreases s.len(),
{
    if s.len() == 0 {
        0
    } else {
        failed_count(s.drop_last()) + if s.last() == Some(false) {
            1nat
        } else {
            0nat
        }
    }
}

proof fn lemma_failed_count_bound(s: Seq<Option<bool>>)
    ensures
        failed_count(s) <= s.len(),
    decreases s.len(),
{
    if s.len() > 0 {
        lemma_failed_count_bound(s.drop_last());
    }
}

proof fn lemma_failed_count_update(s: Seq<Option<bool>>, i: int, x: Option<bool>)
    requires
        0 <= i < s.len(),
    ensures
        failed_count(s.update(i, x)) + (if s[i] == Some(false) {
            1int
        } else {
            0int
        }) == failed_count(s) + (if x == Some(false) {
            1int
        } else {
            0int
        }),
    decreases s.len(),
{
    let t = s.update(i, x);
    if i == s.len() - 1 {
        assert(t.drop_last() =~= s.drop_last());
    } else {
        assert(t.drop_last() =~= s.drop_last().update(i, x));
        lemma_failed_count_update(s.drop_last(), i, x);
    }
}

/// Reporting an outcome: an item's first report fills its slot; a report for
/// an unknown item or one already reported changes nothing.
pub open spec fn record_spec(s: Seq<Option<bool>>, index: int, success: bool) -> Seq<
    Option<bool>,
> {
    if 0 <= index < s.len() && s[index] is None {
        s.update(index, Some(success))
    } else {
        s
    }
}

/// The outcomes of a run, one slot per work item, and the count of failures.
pub struct BatchTally {
    slots: Vec<Option<bool>>,
    failures: usize,
}

impl View for BatchTally {
    type V = Seq<Option<bool>>;

    closed spec fn view(&self) -> Seq<Option<bool>> {
        self.slots@
    }
}

impl BatchTally {
    pub closed spec fn wf(&self) -> bool {
        self.failures == failed_count(self.slots@)
    }

    /// A tally for `total` work items, none reported yet.
    pub fn new(total: usize) -> (r: BatchTally)
        ensures
            r.wf(),
            r@ == Seq::new(total as nat, |i: int| None::<bool>),
    {
        let mut slots: Vec<Option<bool>> = Vec::new();
        let mut i: usize = 0;
        while i < total
            invariant
                i <= total,
                slots@ =~= Seq::new(i as nat, |j: int| None::<bool>),
                failed_count(slots@) == 0,
            decreases total - i,
        {
            let ghost before = slots@;
            slots.push(None);
            assert(slots@.drop_last() =~= before);
            i = i + 1;
        }
        BatchTally { slots, failures: 0 }
    }

    /// Reports an outcome; returns whether it was taken (see `record_spec`).
    pub fn record(&mut self, outcome: &TaskOutcome) -> (accepted: bool)
        requires
            old(self).wf(),
        ensures
            final(self).wf(),
            accepted == (outcome.index < old(self)@.len() && old(self)@[outcome.index as int] is None),
            final(self)@ == record_spec(old(self)@, outcome.index as int, outcome.success),
    {
        let i = outcome.index;
        if i < self.slots.len() && self.slots[i].is_none() {
            proof {
                lemma_failed_count_update(self.slots@, i as int, Some(outcome.success));
                lemma_failed_count_bound(self.slots@.update(i as int, Some(outcome.success)));
            }
            self.slots.set(i, Some(outcome.success));
            if !outcome.success {
                self.failures = self.failures + 1;
            }
            true
        } else {
            false
        }
    }

    /// Whether every work item has reported.
    pub fn is_complete(&self) -> (r: bool)
        ensures
            r == (forall|i: int| 0 <= i < self@.len() ==> #[trigger] self@[i] is Some),
    {
        let mut i: usize = 0;
        while i < self.slots.len()
            invariant
                i <= self.slots@.len(),
                forall|j: int| 0 <= j < i ==> #[trigger] self.slots@[j] is Some,
            decreases self.slots@.len() - i,
        {
            if self.slots[i].is_none() {
                return false;
            }
            i = i + 1;
        }
        true
    }

    /// The exit code of the run: the number of failed items, never more than
    /// the number of items.
    pub fn exit_code(&self) -> (r: usize)
        requires
            self.wf(),
        ensures
            r == failed_count(self@),
            r <= self@.len(),
    {
        proof {
            lemma_failed_count_bound(self.slots@);
        }
        self.failures
    }
}

/// The slots after reporting the outcomes `os` (item index, success) in
/// order, from a tally of `n` items.
pub open spec fn tally_of(n: nat, os: Seq<(int, bool)>) -> Seq<Option<bool>>
    decreases os.len(),
{
    if os.len() == 0 {
        Seq::new(n, |i: int| None::<bool>)
    } else {
        let o = os.last();
        record_spec(tally_of(n, os.drop_last()), o.0, o.1)
    }
}

/// How many of the outcomes are failures.
pub open spec fn failures_in(os: Seq<(int, bool)>) -> nat
    decreases os.len(),
{
    if os.len() == 0 {
        0
    } else {
        failures_in(os.drop_last()) + if !os.last().1 {
            1nat
        } else {
            0nat
        }
    }
}

pub open spec fn distinct_in_range(n: nat, os: Seq<(int, bool)>) -> bool {
    &&& forall|k: int| 0 <= k < os.len() ==> 0 <= #[trigger] os[k].0 < n
    &&& forall|j: int, k: int| 0 <= j < k < os.len() ==> #[trigger] os[j].0 != #[trigger] os[k].0
}

/// Exactly one outcome for each of the `n` items.
pub open spec fn one_per_item(n: nat, os: Seq<(int, bool)>) -> bool {
    &&& os.len() == n
    &&& distinct_in_range(n, os)
    &&& forall|i: int| 0 <= i < n ==> #[trigger] has_outcome_for(os, i)
}

pub open spec fn has_outcome_for(os: Seq<(int, bool)>, i: int) -> bool {
    exists|k: int| 0 <= k < os.len() && #[trigger] os[k].0 == i
}

proof fn lemma_tally_slots(n: nat, os: Seq<(int, bool)>)
    requires
        distinct_in_range(n, os),
    ensures
        tally_of(n, os).len() == n,
        forall|k: int| 0 <= k < os.len() ==> tally_of(n, os)[#[trigger] os[k].0] == Some(os[k].1),
        forall|i: int|
            0 <= i < n && (forall|k: int| 0 <= k < os.len() ==> #[trigger] os[k].0 != i)
                ==> tally_of(n, os)[i] is None,
        failed_count(tally_of(n, os)) == failures_in(os),
    decreases os.len(),
{
    if os.len() == 0 {
        let t = tally_of(n, os);
        assert forall|i: int| 0 <= i <= n implies failed_count(t.take(i)) == 0 by {
            lemma_no_failures(t, i);
        }
        assert(t.take(n as int) =~= t);
    } else {
        let init = os.drop_last();
        let o = os.last();
        assert(distinct_in_range(n, init)) by {
            assert(forall|k: int| 0 <= k < init.len() ==> init[k] == os[k]);
        }
        lemma_tally_slots(n, init);
        let t = tally_of(n, init);
        assert forall|k: int| 0 <= k < init.len() implies #[trigger] init[k].0 != o.0 by {
            assert(os[k].0 != os[os.len() - 1].0);
        }
        assert(t[o.0] is None);
        lemma_failed_count_update(t, o.0, Some(o.1));
        let t2 = tally_of(n, os);
        assert(t2 == t.update(o.0, Some(o.1)));
        assert forall|k: int| 0 <= k < os.len() implies t2[#[trigger] os[k].0] == Some(os[k].1) by {
            if k < os.len() - 1 {
                assert(os[k] == init[k]);
            }
        }
        assert forall|i: int|
            0 <= i < n && (forall|k: int| 0 <= k < os.len() ==> #[trigger] os[k].0 != i) implies t2[i] is None by {
            assert(os[os.len() - 1].0 != i);
            assert forall|k: int| 0 <= k < init.len() implies #[trigger] init[k].0 != i by {
                assert(os[k].0 != i);
            }
        }
    }
}

proof fn lemma_no_failures(t: Seq<Option<bool>>, i: int)
    requires
        0 <= i <= t.len(),
        forall|j: int| 0 <= j < t.len() ==> t[j] is None,
    ensures
        failed_count(t.take(i)) == 0,
    decreases i,
{
    if i > 0 {
        assert(t.take(i).drop_last() =~= t.take(i - 1));
        lemma_no_failures(t, i - 1);
    }
}

/// With exactly one outcome per work item, every item ends up reported, and
/// the exit code, the number of failed items, is the number of failed
/// outcomes whatever order the outcomes came in: any reordering of them leaves
/// the same tally.
pub proof fn lemma_exit_code_order_independent(
    n: nat,
    os1: Seq<(int, bool)>,
    os2: Seq<(int, bool)>,
)
    requires
        one_per_item(n, os1),
        one_per_item(n, os2),
        os1.to_multiset() == os2.to_multiset(),
    ensures
        forall|i: int| 0 <= i < n ==> #[trigger] tally_of(n, os1)[i] is Some,
        tally_of(n, os1) == tally_of(n, os2),
        failed_count(tally_of(n, os1)) == failures_in(os1),
        failed_count(tally_of(n, os2)) == failures_in(os1),
{
    lemma_tally_slots(n, os1);
    lemma_tally_slots(n, os2);
    let t1 = tally_of(n, os1);
    let t2 = tally_of(n, os2);
    assert forall|i: int| 0 <= i < n implies #[trigger] t1[i] is Some && t1[i] == t2[i] by {
        assert(has_outcome_for(os1, i));
        let k1 = choose|k: int| 0 <= k < os1.len() && #[trigger] os1[k].0 == i;
        assert(t1[os1[k1].0] == Some(os1[k1].1));
        assert(os1.contains(os1[k1]));
        assert(os1.to_multiset().count(os1[k1]) > 0);
        assert(os2.contains(os1[k1]));
        let k2 = choose|k: int| 0 <= k < os2.len() && os2[k] == os1[k1];
        assert(t2[os2[k2].0] == Some(os2[k2].1));
    }
    assert(t1 =~= t2);
}

} // verus!
