use std::time::Duration;

use eye_lib::context::Context;
use eye_lib::metric::Metric;

#[test]
fn context_keeps_its_configuration() {
    let c = Context::new(
        String::from("myproc"),
        Metric::ResidentMemory,
        Duration::from_millis(250),
        true,
    );
    assert_eq!(c.process_name, "myproc");
    assert!(matches!(c.metric, Metric::ResidentMemory));
    assert_eq!(c.interval, Duration::from_millis(250));
    assert!(c.one_iteration);
}

#[test]
fn context_clone_keeps_the_interval() {
    let c = Context::new(
        String::from("myproc"),
        Metric::Cpu,
        Duration::from_millis(100),
        false,
    );
    let d = c.clone();
    assert_eq!(d.interval, c.interval);
    assert_eq!(d.process_name, c.process_name);
    assert!(!d.one_iteration);
}
