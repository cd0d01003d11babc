//! What is kept of a capture's discovers from one cycle to the next: the
//! last success, the failures since, and the history of publications.

use vstd::prelude::*;
use crate::model::{changes_view, clone_changes, ChangeView, Changes, ChangesView, DiscoverChange};

verus! {

/// Why a collection cannot be changed in place.
#[derive(Clone, Copy, Debug, PartialEq, Eq, Structural)]
pub enum ChangeReason {
    /// The key of the collection changed.
    KeyChange,
    /// The logical partitioning of the collection changed.
    PartitionChange,
}

/// A collection that a draft changes in a way that cannot be applied to
/// it in place.
#[derive(Debug, PartialEq, Eq)]
pub struct IncompatibleCollection {
    pub collection: String,
    /// Why the collection has to be re-created; empty if it need not be.
    pub requires_recreation: Vec<ChangeReason>,
}

/// The mathematical value of an [`IncompatibleCollection`].
pub struct IncompatibleView {
    pub collection: Seq<char>,
    pub requires_recreation: Seq<ChangeReason>,
}

impl View for IncompatibleCollection {
    type V = IncompatibleView;

    open spec fn view(&self) -> IncompatibleView {
        IncompatibleView {
            collection: self.collection@,
            requires_recreation: self.requires_recreation@,
        }
    }
}

/// The views of a sequence of incompatible collections.
pub open spec fn incompatible_view(collections: Seq<IncompatibleCollection>) -> Seq<
    IncompatibleView,
> {
    collections.map_values(|c: IncompatibleCollection| c@)
}

impl Clone for IncompatibleCollection {
    fn clone(&self) -> (r: IncompatibleCollection)
        ensures
            r@ == self@,
    {
        let mut reasons: Vec<ChangeReason> = Vec::new();
        let mut i: usize = 0;
        while i < self.requires_recreation.len()
            invariant
                i <= self.requires_recreation@.len(),
                reasons@ == self.requires_recreation@.take(i as int),
            decreases self.requires_recreation@.len() - i,
        {
            reasons.push(self.requires_recreation[i]);
            assert(self.requires_recreation@.take(i + 1) =~= self.requires_recreation@.take(
                i as int,
            ).push(self.requires_recreation@[i as int]));
            i += 1;
        }
        assert(self.requires_recreation@.take(self.requires_recreation@.len() as int)
            =~= self.requires_recreation@);
        IncompatibleCollection { collection: self.collection.clone(), requires_recreation: reasons }
    }
}

/// How a publication ended.
#[derive(Debug, PartialEq, Eq)]
pub enum JobStatus {
    /// The draft was built, tested and activated.
    Success,
    /// The draft could not be built. Where the reason is that collections
    /// cannot be changed in place, these are listed.
    BuildFailed { incompatible_collections: Vec<IncompatibleCollection> },
    /// The draft was built, and its tests failed.
    TestFailed,
    /// The draft could not be activated.
    PublishFailed,
    /// The draft held nothing to publish.
    EmptyDraft,
}

/// The mathematical value of a [`JobStatus`].
pub enum JobStatusView {
    Success,
    BuildFailed { incompatible_collections: Seq<IncompatibleView> },
    TestFailed,
    PublishFailed,
    EmptyDraft,
}

impl View for JobStatus {
    type V = JobStatusView;

    open spec fn view(&self) -> JobStatusView {
        match self {
            JobStatus::Success => JobStatusView::Success,
            JobStatus::BuildFailed { incompatible_collections } => JobStatusView::BuildFailed {
                incompatible_collections: incompatible_view(incompatible_collections@),
            },
            JobStatus::TestFailed => JobStatusView::TestFailed,
            JobStatus::PublishFailed => JobStatusView::PublishFailed,
            JobStatus::EmptyDraft => JobStatusView::EmptyDraft,
        }
    }
}

impl JobStatus {
    /// Whether the publication succeeded.
    pub fn is_success(&self) -> (r: bool)
        ensures
            r == (self@ is Success),
    {
        match self {
            JobStatus::Success => true,
            _ => false,
        }
    }

}

impl Clone for JobStatus {
    fn clone(&self) -> (r: JobStatus)
        ensures
            r@ == self@,
    {
        match self {
            JobStatus::Success => JobStatus::Success,
            JobStatus::BuildFailed { incompatible_collections } => {
                let mut copy: Vec<IncompatibleCollection> = Vec::new();
                let mut i: usize = 0;
                while i < incompatible_collections.len()
                    invariant
                        i <= incompatible_collections@.len(),
                        copy@.len() == i,
                        forall|j: int| 0 <= j < i ==> copy@[j]@ == incompatible_collections@[j]@,
                    decreases incompatible_collections@.len() - i,
                {
                    copy.push(incompatible_collections[i].clone());
                    i += 1;
                }
                assert(incompatible_view(copy@) =~= incompatible_view(incompatible_collections@));
                JobStatus::BuildFailed { incompatible_collections: copy }
            },
            JobStatus::TestFailed => JobStatus::TestFailed,
            JobStatus::PublishFailed => JobStatus::PublishFailed,
            JobStatus::EmptyDraft => JobStatus::EmptyDraft,
        }
    }
}

/// One error of a discover or of a publication.
#[derive(Debug, PartialEq, Eq)]
pub struct ErrorRecord {
    /// Where in the catalog the error lies.
    pub scope: String,
    /// The catalog entity that the error is about.
    pub catalog_name: String,
    /// What went wrong, in words.
    pub detail: String,
}

/// The mathematical value of an [`ErrorRecord`].
pub struct ErrorView {
    pub scope: Seq<char>,
    pub catalog_name: Seq<char>,
    pub detail: Seq<char>,
}

impl View for ErrorRecord {
    type V = ErrorView;

    open spec fn view(&self) -> ErrorView {
        ErrorView { scope: self.scope@, catalog_name: self.catalog_name@, detail: self.detail@ }
    }
}

/// The views of a sequence of errors.
pub open spec fn errors_view(errors: Seq<ErrorRecord>) -> Seq<ErrorView> {
    errors.map_values(|e: ErrorRecord| e@)
}

/// How one discover went.
#[derive(Debug, PartialEq, Eq)]
pub struct DiscoverOutcome {
    /// When the discover was made.
    pub ts: u64,
    pub added: Vec<DiscoverChange>,
    pub modified: Vec<DiscoverChange>,
    pub removed: Vec<DiscoverChange>,
    /// The errors of the discover itself.
    pub errors: Vec<ErrorRecord>,
    /// How the publication of the changes ended; `None` where nothing was
    /// published.
    pub publish_result: Option<JobStatus>,
}

/// The mathematical value of a [`DiscoverOutcome`].
pub struct OutcomeView {
    pub ts: u64,
    pub added: Seq<ChangeView>,
    pub modified: Seq<ChangeView>,
    pub removed: Seq<ChangeView>,
    pub errors: Seq<ErrorView>,
    pub publish_result: Option<JobStatusView>,
}

impl View for DiscoverOutcome {
    type V = OutcomeView;

    open spec fn view(&self) -> OutcomeView {
        OutcomeView {
            ts: self.ts,
            added: changes_view(self.added@),
            modified: changes_view(self.modified@),
            removed: changes_view(self.removed@),
            errors: errors_view(self.errors@),
            publish_result: match self.publish_result {
                Some(s) => Some(s@),
                None => None,
            },
        }
    }
}

/// The outcome of a discover at `ts` that found `changes`.
pub open spec fn outcome_of(
    ts: u64,
    changes: ChangesView,
    publish_result: Option<JobStatusView>,
) -> OutcomeView {
    OutcomeView {
        ts,
        added: changes.added,
        modified: changes.modified,
        removed: changes.removed,
        errors: Seq::empty(),
        publish_result,
    }
}

/// The outcome of a discover at `ts` that ended with an error.
pub open spec fn error_outcome(ts: u64, error: ErrorView) -> OutcomeView {
    OutcomeView {
        ts,
        added: Seq::empty(),
        modified: Seq::empty(),
        removed: Seq::empty(),
        errors: seq![error],
        publish_result: None,
    }
}

impl DiscoverOutcome {
    /// The outcome of a discover at `ts` that found `changes`, with the
    /// result of their publication if there was one.
    pub fn of(ts: u64, changes: &Changes, publish_result: Option<JobStatus>) -> (r: DiscoverOutcome)
        ensures
            r@ == outcome_of(
                ts,
                changes@,
                match publish_result {
                    Some(s) => Some(s@),
                    None => None,
                },
            ),
    {
        let r = DiscoverOutcome {
            ts,
            added: clone_changes(&changes.added),
            modified: clone_changes(&changes.modified),
            removed: clone_changes(&changes.removed),
            errors: Vec::new(),
            publish_result,
        };
        assert(errors_view(r.errors@) =~= Seq::<ErrorView>::empty());
        r
    }

    /// The outcome of a discover at `ts` that ended with `error`.
    pub fn of_error(ts: u64, error: ErrorRecord) -> (r: DiscoverOutcome)
        ensures
            r@ == error_outcome(ts, error@),
    {
        let mut errors: Vec<ErrorRecord> = Vec::new();
        errors.push(error);
        let r = DiscoverOutcome {
            ts,
            added: Vec::new(),
            modified: Vec::new(),
            removed: Vec::new(),
            errors,
            publish_result: None,
        };
        assert(errors_view(r.errors@) =~= seq![error@]);
        assert(changes_view(r.added@) =~= Seq::<ChangeView>::empty());
        assert(changes_view(r.modified@) =~= Seq::<ChangeView>::empty());
        assert(changes_view(r.removed@) =~= Seq::<ChangeView>::empty());
        r
    }
}

/// The failures since the last success.
#[derive(Debug, PartialEq, Eq)]
pub struct FailureRecord {
    /// How many discovers in a row have failed.
    pub count: u32,
    /// When the first of them was made.
    pub first_ts: u64,
    /// How the last of them went.
    pub last_outcome: DiscoverOutcome,
}

/// The mathematical value of a [`FailureRecord`].
pub struct FailureView {
    pub count: nat,
    pub first_ts: u64,
    pub last_outcome: OutcomeView,
}

impl View for FailureRecord {
    type V = FailureView;

    open spec fn view(&self) -> FailureView {
        FailureView {
            count: self.count as nat,
            first_ts: self.first_ts,
            last_outcome: self.last_outcome@,
        }
    }
}

/// What is kept of the discovers of one capture.
#[derive(Debug, PartialEq, Eq)]
pub struct AutoDiscoverStatus {
    /// The time between two discovers, in milliseconds, where it is set
    /// for this capture alone.
    pub interval: Option<u64>,
    /// The last discover that did not fail, whether or not it found
    /// anything.
    pub last_success: Option<DiscoverOutcome>,
    /// The failures since; `None` where the last discover did not fail.
    pub failure: Option<FailureRecord>,
}

/// The mathematical value of an [`AutoDiscoverStatus`].
pub struct StatusView {
    pub interval: Option<u64>,
    pub last_success: Option<OutcomeView>,
    pub failure: Option<FailureView>,
}

impl View for AutoDiscoverStatus {
    type V = StatusView;

    open spec fn view(&self) -> StatusView {
        StatusView {
            interval: self.interval,
            last_success: match self.last_success {
                Some(o) => Some(o@),
                None => None,
            },
            failure: match self.failure {
                Some(f) => Some(f@),
                None => None,
            },
        }
    }
}

impl StatusView {
    /// The status of a capture that has not been discovered yet.
    pub open spec fn initial() -> StatusView {
        StatusView { interval: None, last_success: None, failure: None }
    }

    /// The status after a discover that did not fail: the outcome is the
    /// last success, and the failures are forgotten.
    pub open spec fn succeeded(self, outcome: OutcomeView) -> StatusView {
        StatusView { interval: self.interval, last_success: Some(outcome), failure: None }
    }

    /// The status after a failed discover: one failure more, the first of
    /// them at the time it was, and the outcome as the last one. The last
    /// success stays.
    pub open spec fn failed(self, outcome: OutcomeView) -> StatusView {
        StatusView {
            interval: self.interval,
            last_success: self.last_success,
            failure: Some(
                match self.failure {
                    Some(f) => FailureView {
                        count: f.count + 1,
                        first_ts: f.first_ts,
                        last_outcome: outcome,
                    },
                    None => FailureView { count: 1, first_ts: outcome.ts, last_outcome: outcome },
                },
            ),
        }
    }

    /// Whether one more failure can be counted.
    pub open spec fn can_fail(self) -> bool {
        match self.failure {
            Some(f) => f.count < u32::MAX,
            None => true,
        }
    }

    /// When the last discover was made, if there was one.
    pub open spec fn last_attempt(self) -> Option<u64> {
        match (self.last_success, self.failure) {
            (Some(s), Some(f)) => Some(
                if s.ts >= f.last_outcome.ts {
                    s.ts
                } else {
                    f.last_outcome.ts
                },
            ),
            (Some(s), None) => Some(s.ts),
            (None, Some(f)) => Some(f.last_outcome.ts),
            (None, None) => None,
        }
    }
}

/// The failure count never goes down while discovers fail, and the next
/// success forgets it: after a failure the count is one above what it
/// was, or 1 where there was none, and after a success there is no
/// failure.
pub proof fn lemma_failure_count(status: StatusView, outcome: OutcomeView)
    ensures
        status.failed(outcome).failure is Some,
        status.failure matches Some(f) ==> status.failed(outcome).failure->0.count > f.count,
        status.failure is None ==> status.failed(outcome).failure->0.count == 1,
        status.failed(outcome).failed(outcome).failure->0.count > status.failed(
            outcome,
        ).failure->0.count,
        status.failed(outcome).succeeded(outcome).failure is None,
        status.failed(outcome).last_success == status.last_success,
{
}

impl AutoDiscoverStatus {
    /// The status of a capture that has not been discovered yet.
    pub fn new() -> (r: AutoDiscoverStatus)
        ensures
            r@ == StatusView::initial(),
    {
        AutoDiscoverStatus { interval: None, last_success: None, failure: None }
    }

    /// Records a discover that did not fail.
    pub fn record_success(&mut self, outcome: DiscoverOutcome)
        ensures
            final(self)@ == old(self)@.succeeded(outcome@),
    {
        self.last_success = Some(outcome);
        self.failure = None;
    }

    /// Whether one more failure can be counted.
    pub fn can_fail(&self) -> (r: bool)
        ensures
            r == self@.can_fail(),
    {
        match &self.failure {
            Some(f) => f.count < u32::MAX,
            None => true,
        }
    }

    /// Records a failed discover.
    pub fn record_failure(&mut self, outcome: DiscoverOutcome)
        requires
            old(self)@.can_fail(),
        ensures
            final(self)@ == old(self)@.failed(outcome@),
    {
        let (count, first_ts) = match &self.failure {
            Some(f) => (f.count + 1, f.first_ts),
            None => (1, outcome.ts),
        };
        self.failure = Some(FailureRecord { count, first_ts, last_outcome: outcome });
    }

    /// When the last discover was made, if there was one.
    pub fn last_attempt(&self) -> (r: Option<u64>)
        ensures
            r == self@.last_attempt(),
    {
        match (&self.last_success, &self.failure) {
            (Some(s), Some(f)) => Some(
                if s.ts >= f.last_outcome.ts {
                    s.ts
                } else {
                    f.last_outcome.ts
                },
            ),
            (Some(s), None) => Some(s.ts),
            (None, Some(f)) => Some(f.last_outcome.ts),
            (None, None) => None,
        }
    }
}

/// One publication as the history keeps it.
#[derive(Debug, PartialEq, Eq)]
pub struct PublicationHistoryEntry {
    pub id: u64,
    /// When the publication was made.
    pub created: u64,
    /// When it was done.
    pub completed: u64,
    /// What it was for, in words.
    pub detail: String,
    pub result: JobStatus,
    pub errors: Vec<ErrorRecord>,
}

/// The mathematical value of a [`PublicationHistoryEntry`].
pub struct EntryView {
    pub id: u64,
    pub created: u64,
    pub completed: u64,
    pub detail: Seq<char>,
    pub result: JobStatusView,
    pub errors: Seq<ErrorView>,
}

impl View for PublicationHistoryEntry {
    type V = EntryView;

    open spec fn view(&self) -> EntryView {
        EntryView {
            id: self.id,
            created: self.created,
            completed: self.completed,
            detail: self.detail@,
            result: self.result@,
            errors: errors_view(self.errors@),
        }
    }
}

/// The views of a sequence of history entries.
pub open spec fn history_view(history: Seq<PublicationHistoryEntry>) -> Seq<EntryView> {
    history.map_values(|e: PublicationHistoryEntry| e@)
}

/// The history with one more entry: the new entry first, then the
/// entries that were there, as far as `limit` entries go.
pub open spec fn history_with(history: Seq<EntryView>, entry: EntryView, limit: nat) -> Seq<
    EntryView,
> {
    let all = seq![entry] + history;
    if all.len() <= limit {
        all
    } else {
        all.take(limit as int)
    }
}

/// Puts an entry in front of the history and lets go of the oldest
/// entries beyond `limit`.
pub fn push_history(
    history: &mut Vec<PublicationHistoryEntry>,
    entry: PublicationHistoryEntry,
    limit: usize,
)
    ensures
        history_view(final(history)@) == history_with(
            history_view(old(history)@),
            entry@,
            limit as nat,
        ),
{
    let ghost before = history_view(history@);
    history.insert(0, entry);
    assert(history_view(history@) =~= seq![entry@] + before);
    if history.len() > limit {
        history.truncate(limit);
        assert(history_view(history@) =~= (seq![entry@] + before).take(limit as int));
    }
}

impl Clone for ErrorRecord {
    fn clone(&self) -> (r: ErrorRecord)
        ensures
            r@ == self@,
    {
        ErrorRecord {
            scope: self.scope.clone(),
            catalog_name: self.catalog_name.clone(),
            detail: self.detail.clone(),
        }
    }
}

/// A copy of a list of errors.
pub fn clone_errors(errors: &Vec<ErrorRecord>) -> (r: Vec<ErrorRecord>)
    ensures
        errors_view(r@) == errors_view(errors@),
{
    let mut r: Vec<ErrorRecord> = Vec::new();
    let mut i: usize = 0;
    while i < errors.len()
        invariant
            i <= errors@.len(),
            r@.len() == i,
            forall|j: int| 0 <= j < i ==> r@[j]@ == errors@[j]@,
        decreases errors@.len() - i,
    {
        r.push(errors[i].clone());
        i += 1;
    }
    assert(errors_view(r@) =~= errors_view(errors@));
    r
}

impl Clone for DiscoverOutcome {
    fn clone(&self) -> (r: DiscoverOutcome)
        ensures
            r@ == self@,
    {
        DiscoverOutcome {
            ts: self.ts,
            added: clone_changes(&self.added),
            modified: clone_changes(&self.modified),
            removed: clone_changes(&self.removed),
            errors: clone_errors(&self.errors),
            publish_result: match &self.publish_result {
                Some(s) => Some(s.clone()),
                None => None,
            },
        }
    }
}

impl Clone for FailureRecord {
    fn clone(&self) -> (r: FailureRecord)
        ensures
            r@ == self@,
    {
        FailureRecord {
            count: self.count,
            first_ts: self.first_ts,
            last_outcome: self.last_outcome.clone(),
        }
    }
}

impl Clone for AutoDiscoverStatus {
    fn clone(&self) -> (r: AutoDiscoverStatus)
        ensures
            r@ == self@,
    {
        AutoDiscoverStatus {
            interval: self.interval,
            last_success: match &self.last_success {
                Some(o) => Some(o.clone()),
                None => None,
            },
            failure: match &self.failure {
                Some(f) => Some(f.clone()),
                None => None,
            },
        }
    }
}

impl Clone for PublicationHistoryEntry {
    fn clone(&self) -> (r: PublicationHistoryEntry)
        ensures
            r@ == self@,
    {
        PublicationHistoryEntry {
            id: self.id,
            created: self.created,
            completed: self.completed,
            detail: self.detail.clone(),
            result: self.result.clone(),
            errors: clone_errors(&self.errors),
        }
    }
}

/// A copy of a history.
pub fn clone_history(history: &Vec<PublicationHistoryEntry>) -> (r: Vec<PublicationHistoryEntry>)
    ensures
        history_view(r@) == history_view(history@),
{
    let mut r: Vec<PublicationHistoryEntry> = Vec::new();
    let mut i: usize = 0;
    while i < history.len()
        invariant
            i <= history@.len(),
            r@.len() == i,
            forall|j: int| 0 <= j < i ==> r@[j]@ == history@[j]@,
        decreases history@.len() - i,
    {
        r.push(history[i].clone());
        i += 1;
    }
    assert(history_view(r@) =~= history_view(history@));
    r
}

} // verus!
