use vstd::prelude::*;
use crate::pipeline::{plan_shards, plan_spec, plan_view, shard_views, RunError, Shard};

verus! {

/// Where a run over one source object stands.
#[derive(Clone, Copy, Debug, PartialEq, Eq, Structural)]
pub enum Stage {
    /// Waiting for the object's contents.
    Fetching,
    /// Waiting for this many shard writes to finish.
    Writing(usize),
    /// Waiting for the source object's deletion.
    Deleting,
    /// The run has reported its outcome.
    Finished,
}

/// What storage answered.
pub enum Event {
    Fetched(Vec<u8>),
    FetchFailed,
    /// Whether each shard write succeeded, in the order the shards were handed out.
    ShardsStored(Vec<bool>),
    Deleted,
    DeleteFailed,
}

/// What the caller does next.
pub enum Action {
    /// Store every shard, concurrently, and report how each write went.
    Store(Vec<Shard>),
    /// Delete the source object.
    DeleteSource,
    /// The run is over, with this outcome.
    Report(Result<(), RunError>),
    /// The event does not belong to this stage; nothing to do.
    Ignore,
}

pub enum EventView {
    Fetched(Seq<u8>),
    FetchFailed,
    ShardsStored(Seq<bool>),
    Deleted,
    DeleteFailed,
}

pub enum ActionView {
    Store(Seq<(Seq<u8>, Seq<u8>)>),
    DeleteSource,
    Report(Result<(), RunError>),
    Ignore,
}

pub open spec fn event_view(e: Event) -> EventView {
    match e {
        Event::Fetched(c) => EventView::Fetched(c@),
        Event::FetchFailed => EventView::FetchFailed,
        Event::ShardsStored(r) => EventView::ShardsStored(r@),
        Event::Deleted => EventView::Deleted,
        Event::DeleteFailed => EventView::DeleteFailed,
    }
}

pub open spec fn action_view(a: Action) -> ActionView {
    match a {
        Action::Store(s) => ActionView::Store(shard_views(s@)),
        Action::DeleteSource => ActionView::DeleteSource,
        Action::Report(r) => ActionView::Report(r),
        Action::Ignore => ActionView::Ignore,
    }
}

/// Every write of `n` shards succeeded.
pub open spec fn all_stored(results: Seq<bool>, n: nat) -> bool {
    results.len() == n && forall|i: int| 0 <= i < results.len() ==> #[trigger] results[i]
}

/// The next stage and action of a run over `source_key`.
pub open spec fn step_spec(source_key: Seq<u8>, stage: Stage, event: EventView) -> (Stage, ActionView) {
    match (stage, event) {
        (Stage::Fetching, EventView::Fetched(content)) => match plan_spec(source_key, content) {
            Err(e) => (Stage::Finished, ActionView::Report(Err(e))),
            Ok(shards) => if shards.len() == 0 {
                (Stage::Deleting, ActionView::DeleteSource)
            } else {
                (Stage::Writing(shards.len() as usize), ActionView::Store(shards))
            },
        },
        (Stage::Fetching, EventView::FetchFailed) => (Stage::Finished, ActionView::Report(Err(RunError::Fetch))),
        (Stage::Writing(n), EventView::ShardsStored(results)) => if all_stored(results, n as nat) {
            (Stage::Deleting, ActionView::DeleteSource)
        } else {
            (Stage::Finished, ActionView::Report(Err(RunError::Write)))
        },
        (Stage::Deleting, EventView::Deleted) => (Stage::Finished, ActionView::Report(Ok(()))),
        (Stage::Deleting, EventView::DeleteFailed) => (Stage::Finished, ActionView::Report(Err(RunError::Delete))),
        _ => (stage, ActionView::Ignore),
    }
}

/// Running a source object twice, while it is still there, cuts it into the
/// same shards, byte for byte, under the same keys both times.
pub proof fn lemma_rerun_same_shards(source_key: Seq<u8>, first: Seq<u8>, second: Seq<u8>)
    requires
        first == second,
    ensures
        step_spec(source_key, Stage::Fetching, EventView::Fetched(first))
            == step_spec(source_key, Stage::Fetching, EventView::Fetched(second)),
        plan_spec(source_key, first) == plan_spec(source_key, second),
{
}

/// The fetch brought an object that holds no usable record.
pub open spec fn fetched_nothing(source_key: Seq<u8>, event: EventView) -> bool {
    match event {
        EventView::Fetched(c) => plan_spec(source_key, c) == Ok::<Seq<(Seq<u8>, Seq<u8>)>, RunError>(Seq::empty()),
        _ => false,
    }
}

/// Every shard write that the stage waits for has succeeded.
pub open spec fn wrote_everything(stage: Stage, event: EventView) -> bool {
    match (stage, event) {
        (Stage::Writing(n), EventView::ShardsStored(rs)) => all_stored(rs, n as nat),
        _ => false,
    }
}

/// No partial cleanup: a run asks for the source object's deletion only
/// right after a fetch that yields no shard, or once every shard write has
/// succeeded.
pub proof fn lemma_delete_only_when_complete(source_key: Seq<u8>, stage: Stage, event: EventView)
    requires
        step_spec(source_key, stage, event).1 is DeleteSource,
    ensures
        (stage == Stage::Fetching && fetched_nothing(source_key, event)) || wrote_everything(stage, event),
{
    if stage == Stage::Fetching {
        if let EventView::Fetched(c) = event {
            if let Ok(s) = plan_spec(source_key, c) {
                assert(s =~= Seq::<(Seq<u8>, Seq<u8>)>::empty());
            }
        }
    }
}

fn all_true(results: &Vec<bool>) -> (r: bool)
    ensures
        r == forall|i: int| 0 <= i < results@.len() ==> #[trigger] results@[i],
{
    let mut i: usize = 0;
    while i < results.len()
        invariant
            0 <= i <= results@.len(),
            forall|k: int| 0 <= k < i ==> #[trigger] results@[k],
        decreases results@.len() - i,
    {
        if !results[i] {
            return false;
        }
        i = i + 1;
    }
    true
}

/// Decides what a run over `source_key` does once storage has answered with
/// `event`: shards are stored only after a successful fetch, and the source
/// is deleted only once every shard is stored (or there was none).
pub fn step(source_key: &[u8], stage: Stage, event: Event) -> (r: (Stage, Action))
    ensures
        (r.0, action_view(r.1)) == step_spec(source_key@, stage, event_view(event)),
{
    match (stage, event) {
        (Stage::Fetching, Event::Fetched(content)) => match plan_shards(source_key, content.as_slice()) {
            Err(e) => (Stage::Finished, Action::Report(Err(e))),
            Ok(shards) => {
                assert(plan_view(Ok(shards)) == plan_spec(source_key@, content@));
                if shards.len() == 0 {
                    (Stage::Deleting, Action::DeleteSource)
                } else {
                    let n = shards.len();
                    (Stage::Writing(n), Action::Store(shards))
                }
            },
        },
        (Stage::Fetching, Event::FetchFailed) => (Stage::Finished, Action::Report(Err(RunError::Fetch))),
        (Stage::Writing(n), Event::ShardsStored(results)) => if results.len() == n && all_true(&results) {
            (Stage::Deleting, Action::DeleteSource)
        } else {
            (Stage::Finished, Action::Report(Err(RunError::Write)))
        },
        (Stage::Deleting, Event::Deleted) => (Stage::Finished, Action::Report(Ok(()))),
        (Stage::Deleting, Event::DeleteFailed) => (Stage::Finished, Action::Report(Err(RunError::Delete))),
        (stage, _) => (stage, Action::Ignore),
    }
}

/// How many of `outcomes` are failures.
pub open spec fn failures(outcomes: Seq<Result<(), RunError>>) -> nat
    decreases outcomes.len(),
{
    if outcomes.len() == 0 {
        0
    } else {
        failures(outcomes.drop_last()) + if outcomes.last() is Err { 1nat } else { 0nat }
    }
}

proof fn lemma_failures_zero(outcomes: Seq<Result<(), RunError>>)
    ensures
        failures(outcomes) == 0 <==> forall|i: int| 0 <= i < outcomes.len() ==> #[trigger] outcomes[i] is Ok,
    decreases outcomes.len(),
{
    if outcomes.len() > 0 {
        lemma_failures_zero(outcomes.drop_last());
        assert(forall|i: int| 0 <= i < outcomes.len() - 1 ==> outcomes[i] == outcomes.drop_last()[i]);
    }
}

/// The outcome of a batch: `Ok` when every run succeeded, else the number of
/// runs that failed. No failure stops or undoes another run.
pub fn batch_outcome(outcomes: &Vec<Result<(), RunError>>) -> (r: Result<(), usize>)
    ensures
        r is Ok <==> forall|i: int| 0 <= i < outcomes@.len() ==> #[trigger] outcomes@[i] is Ok,
        r matches Err(n) ==> n == failures(outcomes@) && n > 0,
{
    let mut count: usize = 0;
    let mut i: usize = 0;
    while i < outcomes.len()
        invariant
            0 <= i <= outcomes@.len(),
            count == failures(outcomes@.subrange(0, i as int)),
            count <= i,
        decreases outcomes@.len() - i,
    {
        assert(outcomes@.subrange(0, i + 1).drop_last() =~= outcomes@.subrange(0, i as int));
        if outcomes[i].is_err() {
            count = count + 1;
        }
        i = i + 1;
    }
    assert(outcomes@.subrange(0, i as int) =~= outcomes@);
    proof {
        lemma_failures_zero(outcomes@);
    }
    if count == 0 {
        Ok(())
    } else {
        Err(count)
    }
}

} // verus!
