use std::cell::RefCell;
use std::sync::mpsc::channel;
use std::time::Duration;

use eye_lib::change::Change;
use eye_lib::context::Context;
use eye_lib::metric::Metric;
use eye_lib::runner;
use eye_lib::runner::Runner;
use eye_lib::watcher::{Error, Message, Watcher};

/// A runner that replays a fixed script of outcomes, one per call, and keeps
/// failing with `ProcessNotFound` once the script runs out.
struct Script {
    outcomes: RefCell<Vec<Result<String, runner::Error>>>,
}

impl Script {
    fn new(outcomes: Vec<Result<String, runner::Error>>) -> Script {
        Script { outcomes: RefCell::new(outcomes) }
    }
}

impl Runner for Script {
    fn execute(&self, _process_name: &str, _metric: &Metric) -> Result<String, runner::Error> {
        let mut outcomes = self.outcomes.borrow_mut();
        if outcomes.is_empty() {
            Err(runner::Error::ProcessNotFound)
        } else {
            outcomes.remove(0)
        }
    }
}

fn context(one_iteration: bool) -> Context {
    Context::new(
        String::from("myproc"),
        Metric::Cpu,
        Duration::from_millis(100),
        one_iteration,
    )
}

fn values(events: &[Message]) -> Vec<String> {
    events
        .iter()
        .filter_map(|m| match m {
            Ok(Change(v)) => Some(v.clone()),
            Err(_) => None,
        })
        .collect()
}

#[test]
fn emits_once_per_run_of_distinct_values() {
    let (sender, receiver) = channel();
    let script = Script::new(vec![
        Ok(String::from("1")),
        Ok(String::from("1")),
        Ok(String::from("2")),
        Ok(String::from("2")),
        Ok(String::from("1")),
    ]);
    let mut watcher = Watcher::new(context(false), sender, script);
    for _ in 0..5 {
        assert!(watcher.step());
    }
    drop(watcher);
    let events: Vec<Message> = receiver.iter().collect();
    assert_eq!(values(&events), vec!["1", "2", "1"]);
    assert_eq!(events.len(), 3);
}

#[test]
fn one_shot_emits_exactly_one_change_and_stops() {
    let (sender, receiver) = channel();
    let script = Script::new(vec![
        Ok(String::from("a")),
        Ok(String::from("b")),
        Ok(String::from("c")),
    ]);
    let mut watcher = Watcher::new(context(true), sender, script);
    assert!(!watcher.step());
    drop(watcher);
    let events: Vec<Message> = receiver.iter().collect();
    assert_eq!(events.len(), 1);
    assert_eq!(values(&events), vec!["a"]);
}

#[test]
fn failure_short_circuits_after_distinct_changes() {
    let (sender, receiver) = channel();
    let script = Script::new(vec![
        Ok(String::from("3")),
        Ok(String::from("3")),
        Ok(String::from("4")),
        Err(runner::Error::CommandExecutionError),
    ]);
    let mut watcher = Watcher::new(context(false), sender, script);
    let mut steps = 0;
    while watcher.step() {
        steps += 1;
        assert!(steps < 10);
    }
    assert_eq!(steps, 3);
    drop(watcher);
    let events: Vec<Message> = receiver.iter().collect();
    assert_eq!(events.len(), 3);
    assert_eq!(values(&events), vec!["3", "4"]);
    assert!(matches!(
        events[2],
        Err(Error::CommandExecutionError(runner::Error::CommandExecutionError))
    ));
}

#[test]
fn consumer_disconnect_stops_silently() {
    let (sender, receiver) = channel();
    drop(receiver);
    let script = Script::new(vec![Ok(String::from("1.0")), Ok(String::from("2.0"))]);
    let mut watcher = Watcher::new(context(false), sender, script);
    assert!(!watcher.step());
}

#[test]
fn unchanged_value_emits_nothing_and_keeps_running() {
    let (sender, receiver) = channel();
    let script = Script::new(vec![Ok(String::from("5")), Ok(String::from("5"))]);
    let mut watcher = Watcher::new(context(false), sender, script);
    assert!(watcher.step());
    assert!(watcher.step());
    drop(watcher);
    let events: Vec<Message> = receiver.iter().collect();
    assert_eq!(events.len(), 1);
    assert_eq!(values(&events), vec!["5"]);
}

#[test]
fn end_to_end_scenario() {
    let (sender, receiver) = channel();
    let script = Script::new(vec![
        Ok(String::from("1.0")),
        Ok(String::from("1.0")),
        Ok(String::from("2.0")),
        Err(runner::Error::ProcessNotFound),
    ]);
    let mut watcher = Watcher::new(context(false), sender, script);
    let mut steps = 1;
    while watcher.step() {
        steps += 1;
        assert!(steps < 10);
    }
    assert_eq!(steps, 4);
    drop(watcher);
    let events: Vec<Message> = receiver.iter().collect();
    assert_eq!(events.len(), 3);
    assert_eq!(values(&events), vec!["1.0", "2.0"]);
    assert!(matches!(
        events[2],
        Err(Error::CommandExecutionError(runner::Error::ProcessNotFound))
    ));
}

#[test]
fn watch_error_message_wraps_the_cause() {
    let e = Error::CommandExecutionError(runner::Error::ProcessNotFound);
    assert_eq!(e.message(), "Error during command execution : No process found for given name");
}
