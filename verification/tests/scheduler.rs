use simsweep::agents::{Agent, AgentError, Agents};
use simsweep::simulations::{advance_block, looper};
use std::cell::RefCell;
use std::rc::Rc;

type Log = Rc<RefCell<Vec<(usize, &'static str)>>>;

struct Recorder {
    id: usize,
    log: Log,
    fail_at: Option<(usize, &'static str)>,
    calls: usize,
}

impl Recorder {
    fn new(id: usize, log: Log) -> Recorder {
        Recorder { id, log, fail_at: None, calls: 0 }
    }

    fn record(&mut self, phase: &'static str) -> Result<(), AgentError> {
        self.calls += 1;
        self.log.borrow_mut().push((self.id, phase));
        if let Some((at, failing_phase)) = self.fail_at {
            if self.calls == at && failing_phase == phase {
                return Err(AgentError { message: String::from("agent failure") });
            }
        }
        Ok(())
    }
}

impl Agent for Recorder {
    fn startup(&mut self) -> Result<(), AgentError> {
        self.record("startup")
    }

    fn priority_step(&mut self) -> Result<(), AgentError> {
        self.record("priority_step")
    }

    fn step(&mut self) -> Result<(), AgentError> {
        self.record("step")
    }
}

/// An agent that overrides nothing: every phase defaults to a no-op
/// success.
struct Passive;

impl Agent for Passive {}

#[test]
fn two_agents_three_ticks_follow_the_lifecycle_order() {
    let log: Log = Rc::new(RefCell::new(Vec::new()));
    let agents = Agents::new()
        .add(Recorder::new(0, log.clone()))
        .add(Recorder::new(1, log.clone()));
    assert!(looper(agents, 3).0.is_ok());
    let mut expected: Vec<(usize, &'static str)> = vec![(0, "startup"), (1, "startup")];
    for _ in 0..3 {
        expected.push((0, "priority_step"));
        expected.push((1, "priority_step"));
        expected.push((0, "step"));
        expected.push((1, "step"));
    }
    assert_eq!(*log.borrow(), expected);
}

#[test]
fn startup_error_aborts_before_any_tick() {
    let log: Log = Rc::new(RefCell::new(Vec::new()));
    let mut failing = Recorder::new(0, log.clone());
    failing.fail_at = Some((1, "startup"));
    let agents = Agents::new().add(failing).add(Recorder::new(1, log.clone()));
    let r = looper(agents, 3).0;
    assert!(r.is_err());
    assert_eq!(r.unwrap_err().message, "agent failure");
    assert_eq!(*log.borrow(), vec![(0, "startup")]);
}

#[test]
fn step_error_aborts_remaining_ticks() {
    let log: Log = Rc::new(RefCell::new(Vec::new()));
    let mut failing = Recorder::new(1, log.clone());
    // startup, then priority_step of tick one, then its step: the third
    // call of this agent fails
    failing.fail_at = Some((3, "step"));
    let agents = Agents::new().add(Recorder::new(0, log.clone())).add(failing);
    assert!(looper(agents, 5).0.is_err());
    let expected: Vec<(usize, &'static str)> = vec![
        (0, "startup"),
        (1, "startup"),
        (0, "priority_step"),
        (1, "priority_step"),
        (0, "step"),
        (1, "step"),
    ];
    assert_eq!(*log.borrow(), expected);
}

#[test]
fn zero_ticks_run_only_the_startup_pass() {
    let log: Log = Rc::new(RefCell::new(Vec::new()));
    let agents = Agents::new()
        .add(Recorder::new(0, log.clone()))
        .add(Recorder::new(1, log.clone()));
    assert!(looper(agents, 0).0.is_ok());
    assert_eq!(*log.borrow(), vec![(0, "startup"), (1, "startup")]);
}

#[test]
fn default_capabilities_are_no_op_successes() {
    let agents = Agents::new().add(Passive);
    assert!(looper(agents, 4).0.is_ok());
}

#[test]
fn empty_collection_completes_immediately() {
    assert!(looper(Agents::new(), 10).0.is_ok());
}

#[test]
fn collection_preserves_insertion_count() {
    let mut agents = Agents::new().add(Passive).add(Passive).add(Passive);
    assert_eq!(agents.iter_mut().len(), 3);
}

#[test]
fn advance_block_steps_number_and_timestamp() {
    assert_eq!(advance_block(0, 12), (1, 12));
    assert_eq!(advance_block(5, 10), (6, 60));
}
