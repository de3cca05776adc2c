//! The layout daemon's reconciliation decisions.
//!
//! The caller sleeps between rounds, observes the compositor, computes the plan,
//! applies commands and writes the state file; after each of those steps it asks
//! this module what health to publish and whether the plan's commands are due.
//! A changed plan gets a deadline that geometry churn and repeated acknowledgements
//! do not reset, and commands are retried at most once per interval.

use vstd::prelude::*;

use crate::model::{views, LayoutRequest, Placement, WorkspacePlan};
use crate::runtime::text_of;
use crate::text::concat;

verus! {

/// Milliseconds a changed plan may take to converge before it is reported as an error.
pub const CONVERGENCE_DEADLINE_MS: u64 = 5000;

/// Milliseconds between two applications of a plan's commands.
pub const RETRY_INTERVAL_MS: u64 = 1000;

/// The daemon's overall health as published.
#[derive(Clone, Copy, Debug, PartialEq, Eq, Structural)]
pub enum Health {
    Starting,
    Healthy,
    Degraded,
}

/// How far the compositor has come towards the plan.
#[derive(Clone, Copy, Debug, PartialEq, Eq, Structural)]
pub enum Reconciliation {
    Pending,
    Healthy,
    Error,
}

impl Health {
    pub fn as_str(&self) -> (r: &'static str)
        ensures
            r@ == match self {
                Health::Starting => "starting"@,
                Health::Healthy => "healthy"@,
                Health::Degraded => "degraded"@,
            },
    {
        match self {
            Health::Starting => "starting",
            Health::Healthy => "healthy",
            Health::Degraded => "degraded",
        }
    }
}

impl Reconciliation {
    pub fn as_str(&self) -> (r: &'static str)
        ensures
            r@ == match self {
                Reconciliation::Pending => "pending"@,
                Reconciliation::Healthy => "healthy"@,
                Reconciliation::Error => "error"@,
            },
    {
        match self {
            Reconciliation::Pending => "pending",
            Reconciliation::Healthy => "healthy",
            Reconciliation::Error => "error",
        }
    }
}

/// What the daemon publishes about itself.
#[derive(Debug)]
pub struct HealthReport {
    pub health: Health,
    pub adapter_connected: bool,
    pub reconciliation: Reconciliation,
    pub managed_windows: usize,
    pub floating_windows: usize,
    pub last_error: Option<String>,
}

/// The content of a report.
pub open spec fn report_key(r: HealthReport) -> (
    Health,
    bool,
    Reconciliation,
    usize,
    usize,
    Option<Seq<char>>,
) {
    (
        r.health,
        r.adapter_connected,
        r.reconciliation,
        r.managed_windows,
        r.floating_windows,
        text_of(r.last_error),
    )
}

/// A report with content `key` is published once: it is written, and becomes the
/// last published one, unless the last published report already says the same.
pub open spec fn published_as(
    before: Option<HealthReport>,
    after: Option<HealthReport>,
    written: Option<HealthReport>,
    key: (Health, bool, Reconciliation, usize, usize, Option<Seq<char>>),
) -> bool {
    if before matches Some(p) && report_key(p) == key {
        written is None && after == before
    } else {
        &&& written matches Some(w) && report_key(w) == key
        &&& after matches Some(a) && report_key(a) == key
    }
}

/// Two layout requests ask for the same thing.
pub open spec fn same_request(a: LayoutRequest, b: LayoutRequest) -> bool {
    match (a, b) {
        (LayoutRequest::Maximize, LayoutRequest::Maximize) => true,
        (LayoutRequest::Snap { region: r }, LayoutRequest::Snap { region: q }) => r@ == q@,
        _ => false,
    }
}

/// Two placements put the same window at the same place in the same way.
pub open spec fn same_placement(a: Placement, b: Placement) -> bool {
    a.id@ == b.id@ && a.rect == b.rect && same_request(a.request, b.request)
}

/// Two plans agree in every placement and in their floating and ignored windows.
pub open spec fn same_plan(a: WorkspacePlan, b: WorkspacePlan) -> bool {
    &&& a.placements@.len() == b.placements@.len()
    &&& forall|i: int|
        0 <= i < a.placements@.len() ==> same_placement(
            #[trigger] a.placements@[i],
            b.placements@[i],
        )
    &&& views(a.floating@) == views(b.floating@)
    &&& views(a.ignored@) == views(b.ignored@)
}

/// The message of a plan that missed its deadline.
pub open spec fn overdue_message(mismatch: Option<Seq<char>>) -> Seq<char> {
    "layout did not converge within 5 seconds: "@ + match mismatch {
        Some(m) => m,
        None => "commands await verification"@,
    }
}

/// What one round decided: the report to write, if any, and whether the plan's
/// commands are applied now.
#[derive(Debug)]
pub struct Step {
    pub publish: Option<HealthReport>,
    pub apply: bool,
}

/// The reconciliation state carried from round to round.
pub struct Reconciler {
    pub last_plan: Option<WorkspacePlan>,
    pub pending_since: Option<u64>,
    pub last_attempt: Option<u64>,
    pub force_apply: bool,
    pub managed_windows: usize,
    pub floating_windows: usize,
    pub published: Option<HealthReport>,
}

/// The plan differs from the last one.
pub open spec fn plan_changed(last: Option<WorkspacePlan>, plan: WorkspacePlan) -> bool {
    !(last matches Some(p) && same_plan(p, plan))
}

/// The plan's commands must be applied before the round can be healthy: the plan is
/// new, or the last application failed or was never acknowledged.
pub open spec fn round_forces(state: Reconciler, plan: WorkspacePlan) -> bool {
    plan_changed(state.last_plan, plan) || state.force_apply
}

/// The round is converged: its commands were acknowledged and the compositor
/// reports no difference from the plan.
pub open spec fn round_converged(
    state: Reconciler,
    plan: WorkspacePlan,
    mismatch: Option<Seq<char>>,
) -> bool {
    !round_forces(state, plan) && mismatch is None
}

/// When the plan started to wait for convergence: now for a new plan, else when it
/// started before, else now.
pub open spec fn round_started(state: Reconciler, plan: WorkspacePlan, now: u64) -> u64 {
    if plan_changed(state.last_plan, plan) {
        now
    } else {
        match state.pending_since {
            Some(t) => t,
            None => now,
        }
    }
}

/// The last application of this plan's commands, if any.
pub open spec fn round_previous_attempt(state: Reconciler, plan: WorkspacePlan) -> Option<u64> {
    if plan_changed(state.last_plan, plan) {
        None
    } else {
        state.last_attempt
    }
}

/// The wait for convergence after the round: none once converged.
pub open spec fn round_pending_since(
    state: Reconciler,
    plan: WorkspacePlan,
    mismatch: Option<Seq<char>>,
    now: u64,
) -> Option<u64> {
    if round_converged(state, plan, mismatch) {
        None
    } else {
        Some(round_started(state, plan, now))
    }
}

/// The commands are applied this round: the round has not converged and no attempt
/// was made within the retry interval.
pub open spec fn round_applies(
    state: Reconciler,
    plan: WorkspacePlan,
    mismatch: Option<Seq<char>>,
    now: u64,
) -> bool {
    !round_converged(state, plan, mismatch) && match round_previous_attempt(state, plan) {
        Some(t) => now >= t + RETRY_INTERVAL_MS,
        None => true,
    }
}

/// The last application after the round.
pub open spec fn round_last_attempt(
    state: Reconciler,
    plan: WorkspacePlan,
    mismatch: Option<Seq<char>>,
    now: u64,
) -> Option<u64> {
    if round_applies(state, plan, mismatch, now) {
        Some(now)
    } else {
        round_previous_attempt(state, plan)
    }
}

/// What the round reports: healthy once converged; otherwise pending, or an error
/// naming the first difference once the deadline has passed.
pub open spec fn round_report(
    state: Reconciler,
    plan: WorkspacePlan,
    mismatch: Option<Seq<char>>,
    now: u64,
) -> (Health, bool, Reconciliation, usize, usize, Option<Seq<char>>) {
    let managed = plan.placements@.len() as usize;
    let floating = plan.floating@.len() as usize;
    if round_converged(state, plan, mismatch) {
        (Health::Healthy, true, Reconciliation::Healthy, managed, floating, None)
    } else if now >= round_started(state, plan, now) + CONVERGENCE_DEADLINE_MS {
        (
            Health::Degraded,
            true,
            Reconciliation::Error,
            managed,
            floating,
            Some(overdue_message(mismatch)),
        )
    } else {
        (Health::Starting, true, Reconciliation::Pending, managed, floating, None)
    }
}

fn copy_text(s: &Option<String>) -> (r: Option<String>)
    ensures
        text_of(r) == text_of(*s),
{
    match s {
        Some(t) => Some(t.clone()),
        None => None,
    }
}

fn copy_report(r: &HealthReport) -> (c: HealthReport)
    ensures
        report_key(c) == report_key(*r),
{
    HealthReport {
        health: r.health,
        adapter_connected: r.adapter_connected,
        reconciliation: r.reconciliation,
        managed_windows: r.managed_windows,
        floating_windows: r.floating_windows,
        last_error: copy_text(&r.last_error),
    }
}

fn same_report_exec(a: &HealthReport, b: &HealthReport) -> (r: bool)
    ensures
        r == (report_key(*a) == report_key(*b)),
{
    let errors = match (&a.last_error, &b.last_error) {
        (None, None) => true,
        (Some(x), Some(y)) => *x == *y,
        _ => false,
    };
    a.health == b.health && a.adapter_connected == b.adapter_connected && a.reconciliation
        == b.reconciliation && a.managed_windows == b.managed_windows && a.floating_windows
        == b.floating_windows && errors
}

fn same_strings(a: &Vec<String>, b: &Vec<String>) -> (r: bool)
    ensures
        r == (views(a@) == views(b@)),
{
    if a.len() != b.len() {
        proof {
            assert(views(a@).len() != views(b@).len());
        }
        return false;
    }
    let mut i: usize = 0;
    while i < a.len()
        invariant
            a@.len() == b@.len(),
            i <= a@.len(),
            forall|j: int| 0 <= j < i ==> a@[j]@ == b@[j]@,
        decreases a@.len() - i,
    {
        if !(a[i] == b[i]) {
            proof {
                assert(views(a@)[i as int] != views(b@)[i as int]);
            }
            return false;
        }
        i += 1;
    }
    assert(views(a@) =~= views(b@));
    true
}

fn same_plan_exec(a: &WorkspacePlan, b: &WorkspacePlan) -> (r: bool)
    ensures
        r == same_plan(*a, *b),
{
    if a.placements.len() != b.placements.len() {
        return false;
    }
    let mut i: usize = 0;
    while i < a.placements.len()
        invariant
            a.placements@.len() == b.placements@.len(),
            i <= a.placements@.len(),
            forall|j: int|
                0 <= j < i ==> same_placement(#[trigger] a.placements@[j], b.placements@[j]),
        decreases a.placements@.len() - i,
    {
        let p = &a.placements[i];
        let q = &b.placements[i];
        let requests = match (&p.request, &q.request) {
            (LayoutRequest::Maximize, LayoutRequest::Maximize) => true,
            (LayoutRequest::Snap { region: r }, LayoutRequest::Snap { region: s }) => *r == *s,
            _ => false,
        };
        let same = p.id == q.id && p.rect.x == q.rect.x && p.rect.y == q.rect.y && p.rect.width
            == q.rect.width && p.rect.height == q.rect.height && requests;
        if !same {
            assert(!same_placement(a.placements@[i as int], b.placements@[i as int]));
            return false;
        }
        i += 1;
    }
    same_strings(&a.floating, &b.floating) && same_strings(&a.ignored, &b.ignored)
}

fn copy_strings(v: &Vec<String>) -> (r: Vec<String>)
    ensures
        r@ == v@,
{
    let mut r: Vec<String> = Vec::new();
    let mut i: usize = 0;
    while i < v.len()
        invariant
            i <= v@.len(),
            r@ == v@.take(i as int),
        decreases v@.len() - i,
    {
        r.push(v[i].clone());
        assert(v@.take(i + 1) =~= v@.take(i as int).push(v@[i as int]));
        i += 1;
    }
    assert(v@.take(v@.len() as int) =~= v@);
    r
}

fn copy_plan(p: &WorkspacePlan) -> (r: WorkspacePlan)
    ensures
        same_plan(r, *p),
{
    let mut placements: Vec<Placement> = Vec::new();
    let mut i: usize = 0;
    while i < p.placements.len()
        invariant
            i <= p.placements@.len(),
            placements@.len() == i,
            forall|j: int|
                0 <= j < i ==> same_placement(#[trigger] placements@[j], p.placements@[j]),
        decreases p.placements@.len() - i,
    {
        let q = &p.placements[i];
        let request = match &q.request {
            LayoutRequest::Maximize => LayoutRequest::Maximize,
            LayoutRequest::Snap { region } => LayoutRequest::Snap { region: region.clone() },
        };
        placements.push(Placement { id: q.id.clone(), rect: q.rect, request });
        i += 1;
    }
    WorkspacePlan {
        placements,
        floating: copy_strings(&p.floating),
        ignored: copy_strings(&p.ignored),
    }
}

impl Reconciler {
    /// The state before the first round: nothing planned, nothing published, and the
    /// first plan applied at once.
    pub fn new() -> (r: Self)
        ensures
            r.last_plan is None,
            r.pending_since is None,
            r.last_attempt is None,
            r.force_apply,
            r.managed_windows == 0,
            r.floating_windows == 0,
            r.published is None,
    {
        Reconciler {
            last_plan: None,
            pending_since: None,
            last_attempt: None,
            force_apply: true,
            managed_windows: 0,
            floating_windows: 0,
            published: None,
        }
    }

    fn publish(&mut self, next: HealthReport) -> (r: Option<HealthReport>)
        ensures
            published_as(old(self).published, final(self).published, r, report_key(next)),
            final(self).last_plan == old(self).last_plan,
            final(self).pending_since == old(self).pending_since,
            final(self).last_attempt == old(self).last_attempt,
            final(self).force_apply == old(self).force_apply,
            final(self).managed_windows == old(self).managed_windows,
            final(self).floating_windows == old(self).floating_windows,
    {
        let unchanged = match &self.published {
            Some(p) => same_report_exec(p, &next),
            None => false,
        };
        if unchanged {
            None
        } else {
            let written = copy_report(&next);
            self.published = Some(next);
            Some(written)
        }
    }

    /// The compositor could not be observed, or refused the commands: the daemon is
    /// degraded, keeps its last window counts, and applies the plan again next time.
    pub fn adapter_failed(&mut self, message: String, connected: bool) -> (r: Option<HealthReport>)
        ensures
            final(self).force_apply,
            published_as(
                old(self).published,
                final(self).published,
                r,
                (
                    Health::Degraded,
                    connected,
                    Reconciliation::Error,
                    old(self).managed_windows,
                    old(self).floating_windows,
                    Some(message@),
                ),
            ),
            final(self).last_plan == old(self).last_plan,
            final(self).pending_since == old(self).pending_since,
            final(self).last_attempt == old(self).last_attempt,
            final(self).managed_windows == old(self).managed_windows,
            final(self).floating_windows == old(self).floating_windows,
    {
        self.force_apply = true;
        let next = HealthReport {
            health: Health::Degraded,
            adapter_connected: connected,
            reconciliation: Reconciliation::Error,
            managed_windows: self.managed_windows,
            floating_windows: self.floating_windows,
            last_error: Some(message),
        };
        self.publish(next)
    }

    /// The plan's commands were all accepted: they are not applied again until the
    /// plan changes, the compositor drifts from it, or a retry falls due.
    pub fn applied(&mut self)
        ensures
            !final(self).force_apply,
            final(self).last_plan == old(self).last_plan,
            final(self).pending_since == old(self).pending_since,
            final(self).last_attempt == old(self).last_attempt,
            final(self).managed_windows == old(self).managed_windows,
            final(self).floating_windows == old(self).floating_windows,
            final(self).published == old(self).published,
    {
        self.force_apply = false;
    }

    /// One round after a successful observation, at `now` milliseconds, with the plan
    /// and its first convergence failure, if any (see `round_report`).
    pub fn plan_observed(&mut self, plan: &WorkspacePlan, mismatch: Option<String>, now: u64) -> (r:
        Step)
        ensures
            final(self).managed_windows == plan.placements@.len(),
            final(self).floating_windows == plan.floating@.len(),
            final(self).force_apply == round_forces(*old(self), *plan),
            plan_changed(old(self).last_plan, *plan) ==> (final(self).last_plan matches Some(q)
                && same_plan(q, *plan)),
            !plan_changed(old(self).last_plan, *plan)
                ==> final(self).last_plan == old(self).last_plan,
            final(self).pending_since == round_pending_since(*old(self), *plan, text_of(mismatch), now),
            final(self).last_attempt == round_last_attempt(*old(self), *plan, text_of(mismatch), now),
            r.apply == round_applies(*old(self), *plan, text_of(mismatch), now),
            published_as(
                old(self).published,
                final(self).published,
                r.publish,
                round_report(*old(self), *plan, text_of(mismatch), now),
            ),
    {
        self.managed_windows = plan.placements.len();
        self.floating_windows = plan.floating.len();
        let changed = match &self.last_plan {
            Some(p) => !same_plan_exec(p, plan),
            None => true,
        };
        if changed {
            self.last_plan = Some(copy_plan(plan));
            self.pending_since = Some(now);
            self.last_attempt = None;
            self.force_apply = true;
        }
        let converged = !self.force_apply && mismatch.is_none();
        if converged {
            self.pending_since = None;
            let next = HealthReport {
                health: Health::Healthy,
                adapter_connected: true,
                reconciliation: Reconciliation::Healthy,
                managed_windows: self.managed_windows,
                floating_windows: self.floating_windows,
                last_error: None,
            };
            let publish = self.publish(next);
            return Step { publish, apply: false };
        }
        let started = match self.pending_since {
            Some(t) => t,
            None => now,
        };
        self.pending_since = Some(started);
        let overdue = now >= started && now - started >= CONVERGENCE_DEADLINE_MS;
        let next = if overdue {
            let detail = match &mismatch {
                Some(m) => m.clone(),
                None => "commands await verification".to_owned(),
            };
            HealthReport {
                health: Health::Degraded,
                adapter_connected: true,
                reconciliation: Reconciliation::Error,
                managed_windows: self.managed_windows,
                floating_windows: self.floating_windows,
                last_error: Some(
                    concat("layout did not converge within 5 seconds: ", detail.as_str()),
                ),
            }
        } else {
            HealthReport {
                health: Health::Starting,
                adapter_connected: true,
                reconciliation: Reconciliation::Pending,
                managed_windows: self.managed_windows,
                floating_windows: self.floating_windows,
                last_error: None,
            }
        };
        let publish = self.publish(next);
        let due = match self.last_attempt {
            Some(t) => now >= t && now - t >= RETRY_INTERVAL_MS,
            None => true,
        };
        if due {
            self.last_attempt = Some(now);
        }
        Step { publish, apply: due }
    }
}

} // verus!

verus! {

/// An acknowledgement is not convergence: while the compositor still differs from
/// the plan, no round reports the daemon or its reconciliation as healthy.
pub proof fn lemma_difference_is_never_healthy(
    state: Reconciler,
    plan: WorkspacePlan,
    mismatch: Seq<char>,
    now: u64,
)
    ensures
        round_report(state, plan, Some(mismatch), now).0 != Health::Healthy,
        round_report(state, plan, Some(mismatch), now).2 != Reconciliation::Healthy,
{
}

/// Churn does not reset the deadline: a round of the same plan that has not
/// converged keeps the time the plan started waiting.
pub proof fn lemma_churn_keeps_the_deadline(
    state: Reconciler,
    plan: WorkspacePlan,
    mismatch: Option<Seq<char>>,
    now: u64,
    started: u64,
)
    requires
        !plan_changed(state.last_plan, plan),
        state.pending_since == Some(started),
        !round_converged(state, plan, mismatch),
    ensures
        round_pending_since(state, plan, mismatch, now) == Some(started),
{
}

/// A plan still unconverged once the deadline has passed since it started waiting is
/// reported as a connected, degraded error that names the first difference.
pub proof fn lemma_overdue_plan_is_an_error(
    state: Reconciler,
    plan: WorkspacePlan,
    mismatch: Option<Seq<char>>,
    now: u64,
    started: u64,
)
    requires
        !plan_changed(state.last_plan, plan),
        state.pending_since == Some(started),
        !round_converged(state, plan, mismatch),
        now >= started + CONVERGENCE_DEADLINE_MS,
    ensures
        round_report(state, plan, mismatch, now) == (
            Health::Degraded,
            true,
            Reconciliation::Error,
            plan.placements@.len() as usize,
            plan.floating@.len() as usize,
            Some(overdue_message(mismatch)),
        ),
{
}

/// Recovery: once the plan's commands were accepted and the compositor reports no
/// difference, the round is healthy, clears the error, ends the wait and applies
/// nothing.
pub proof fn lemma_accepted_and_matching_is_healthy(state: Reconciler, plan: WorkspacePlan, now: u64)
    requires
        !plan_changed(state.last_plan, plan),
        !state.force_apply,
    ensures
        round_report(state, plan, None, now) == (
            Health::Healthy,
            true,
            Reconciliation::Healthy,
            plan.placements@.len() as usize,
            plan.floating@.len() as usize,
            None::<Seq<char>>,
        ),
        round_pending_since(state, plan, None, now) is None,
        !round_applies(state, plan, None, now),
{
}

/// Retries are spaced: within the retry interval after an attempt, the same plan's
/// commands are not applied again.
pub proof fn lemma_retries_are_spaced(
    state: Reconciler,
    plan: WorkspacePlan,
    mismatch: Option<Seq<char>>,
    now: u64,
    attempt: u64,
)
    requires
        !plan_changed(state.last_plan, plan),
        state.last_attempt == Some(attempt),
        now < attempt + RETRY_INTERVAL_MS,
    ensures
        !round_applies(state, plan, mismatch, now),
{
}

/// A new plan is applied at once and starts waiting for convergence now.
pub proof fn lemma_new_plan_applies_at_once(
    state: Reconciler,
    plan: WorkspacePlan,
    mismatch: Option<Seq<char>>,
    now: u64,
)
    requires
        plan_changed(state.last_plan, plan),
    ensures
        round_applies(state, plan, mismatch, now),
        round_pending_since(state, plan, mismatch, now) == Some(now),
{
}

} // verus!
