use pelagian_shell::daemon::{Health, Reconciler, Reconciliation};
use pelagian_shell::{plan, Output, WorkspacePlan};

fn solo_plan() -> WorkspacePlan {
    WorkspacePlan {
        placements: plan(
            Output {
                width: 1920,
                height: 1080,
            },
            &["1".to_owned()],
        ),
        floating: Vec::new(),
        ignored: Vec::new(),
    }
}

fn mismatch() -> Option<String> {
    Some("window 1 has not reached its planned geometry/state".to_owned())
}

#[test]
fn ack_without_convergence_times_out_despite_churn_then_recovers() {
    let plan = solo_plan();
    let mut reconciler = Reconciler::new();

    let first = reconciler.plan_observed(&plan, mismatch(), 0);
    assert!(first.apply);
    let pending = first.publish.unwrap();
    assert_eq!(pending.reconciliation, Reconciliation::Pending);
    assert_eq!(pending.health, Health::Starting);
    reconciler.applied();

    // The compositor acknowledged, but the geometry keeps changing without converging.
    let mut now = 0;
    let mut timed_out = None;
    while now < 7000 {
        now += 100;
        let step = reconciler.plan_observed(&plan, mismatch(), now);
        if step.apply {
            reconciler.applied();
        }
        if let Some(report) = step.publish {
            assert_ne!(report.reconciliation, Reconciliation::Healthy, "ACK is not convergence");
            if report.reconciliation == Reconciliation::Error {
                timed_out = Some((now, report));
                break;
            }
        }
    }
    let (when, report) = timed_out.expect("geometry churn reset the deadline");
    assert_eq!(when, 5000);
    assert_eq!(report.health, Health::Degraded);
    assert!(report.adapter_connected);
    assert!(report.last_error.unwrap().contains("did not converge"));

    let healthy = reconciler.plan_observed(&plan, None, when + 100);
    assert!(!healthy.apply);
    let report = healthy.publish.unwrap();
    assert_eq!(report.reconciliation, Reconciliation::Healthy);
    assert_eq!(report.health, Health::Healthy);
    assert_eq!(report.last_error, None);
    assert!(reconciler.plan_observed(&plan, None, when + 200).publish.is_none());

    let drifted = reconciler.plan_observed(&plan, mismatch(), when + 300);
    assert_eq!(
        drifted.publish.unwrap().reconciliation,
        Reconciliation::Pending
    );
    // The last attempt was less than a second ago.
    assert!(!drifted.apply);
    let recovered = reconciler.plan_observed(&plan, None, when + 400);
    assert_eq!(
        recovered.publish.unwrap().reconciliation,
        Reconciliation::Healthy
    );
}

#[test]
fn commands_are_retried_at_most_once_per_second() {
    let plan = solo_plan();
    let mut reconciler = Reconciler::new();
    assert!(reconciler.plan_observed(&plan, mismatch(), 1000).apply);
    reconciler.adapter_failed("view disappeared".to_owned(), true);
    assert!(!reconciler.plan_observed(&plan, mismatch(), 1500).apply);
    assert!(!reconciler.plan_observed(&plan, mismatch(), 1999).apply);
    assert!(reconciler.plan_observed(&plan, mismatch(), 2000).apply);
}

#[test]
fn a_failed_observation_reports_disconnected_degraded_health() {
    let mut reconciler = Reconciler::new();
    let report = reconciler
        .adapter_failed("cannot connect to Labwc IPC".to_owned(), false)
        .unwrap();
    assert_eq!(report.health.as_str(), "degraded");
    assert!(!report.adapter_connected);
    assert_eq!(report.reconciliation.as_str(), "error");
    assert!(report.last_error.unwrap().contains("connect"));
    // The same failure again is not republished.
    assert!(reconciler
        .adapter_failed("cannot connect to Labwc IPC".to_owned(), false)
        .is_none());
    assert!(reconciler.force_apply);
}

#[test]
fn a_new_plan_is_applied_at_once_and_restarts_the_deadline() {
    let mut reconciler = Reconciler::new();
    let one = solo_plan();
    reconciler.plan_observed(&one, mismatch(), 0);
    reconciler.applied();
    let two = WorkspacePlan {
        placements: plan(
            Output {
                width: 1920,
                height: 1080,
            },
            &["1".to_owned(), "2".to_owned()],
        ),
        floating: vec!["3".to_owned()],
        ignored: Vec::new(),
    };
    let step = reconciler.plan_observed(&two, mismatch(), 4900);
    assert!(step.apply);
    assert_eq!(reconciler.managed_windows, 2);
    assert_eq!(reconciler.floating_windows, 1);
    assert_eq!(reconciler.pending_since, Some(4900));
    let later = reconciler.plan_observed(&two, mismatch(), 6000);
    assert!(later.publish.is_none());
}
