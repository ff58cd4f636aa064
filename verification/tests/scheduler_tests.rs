//! Scheduler tests: run-time ordering, first-in-first-out ties, equality
//! semantics, and popping exactly the due jobs.

use ultra_edr::scheduler::{ScheduledJob, Scheduler};

fn job(run_at: u64, job_type: &str) -> ScheduledJob {
    ScheduledJob {
        run_at,
        job_type: job_type.to_string(),
    }
}

#[test]
fn jobs_come_out_in_run_at_order() {
    let mut s = Scheduler::new();
    s.schedule(job(30, "c"));
    s.schedule(job(10, "a"));
    s.schedule(job(20, "b"));
    let due = s.pop_due(100);
    let types: Vec<&str> = due.iter().map(|j| j.job_type.as_str()).collect();
    assert_eq!(types, ["a", "b", "c"]);
    assert_eq!(s.len(), 0);
}

#[test]
fn equal_run_times_keep_insertion_order() {
    let mut s = Scheduler::new();
    s.schedule(job(5, "first"));
    s.schedule(job(5, "second"));
    s.schedule(job(5, "third"));
    let due = s.pop_due(5);
    let types: Vec<&str> = due.iter().map(|j| j.job_type.as_str()).collect();
    assert_eq!(types, ["first", "second", "third"]);
}

#[test]
fn pop_due_takes_only_elapsed_jobs() {
    let mut s = Scheduler::new();
    s.schedule(job(10, "early"));
    s.schedule(job(50, "late"));
    s.schedule(job(30, "mid"));
    let due = s.pop_due(30);
    let types: Vec<&str> = due.iter().map(|j| j.job_type.as_str()).collect();
    assert_eq!(types, ["early", "mid"]);
    assert_eq!(s.len(), 1);
    let rest = s.pop_due(u64::MAX);
    assert_eq!(rest.len(), 1);
    assert_eq!(rest[0].job_type, "late");
}

#[test]
fn pop_due_on_empty_returns_nothing() {
    let mut s = Scheduler::new();
    assert!(s.pop_due(1000).is_empty());
}

#[test]
fn job_equality_is_run_at_and_type() {
    assert_eq!(job(5, "x"), job(5, "x"));
    assert_ne!(job(5, "x"), job(5, "y"));
    assert_ne!(job(5, "x"), job(6, "x"));
}

#[test]
fn jobs_order_by_run_at_alone() {
    assert!(job(5, "z") < job(6, "a"));
    assert!(job(7, "a") > job(6, "z"));
    assert_eq!(
        job(5, "a").partial_cmp(&job(5, "b")),
        Some(std::cmp::Ordering::Equal)
    );
}

#[test]
fn tick_pops_everything_already_due() {
    let mut s = Scheduler::new();
    s.schedule(job(0, "past"));
    s.schedule(job(u64::MAX, "far future"));
    let due = s.tick();
    assert_eq!(due.len(), 1);
    assert_eq!(due[0].job_type, "past");
    assert_eq!(s.len(), 1);
}
