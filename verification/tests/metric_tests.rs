use eye_lib::metric::{Metric, MetricError};

#[test]
fn parses_cpu() {
    let m = Metric::from_str("cpu");
    assert!(matches!(m, Ok(Metric::Cpu)));
}

#[test]
fn parses_res() {
    let m = Metric::from_str("res");
    assert!(matches!(m, Ok(Metric::ResidentMemory)));
}

#[test]
fn rejects_unknown_metric_name() {
    let m = Metric::from_str("disk");
    match m {
        Err(MetricError::UnknownMetricName(name)) => assert_eq!(name, "disk"),
        _ => panic!("expected an unknown-metric failure"),
    }
}

#[test]
fn unknown_metric_message_names_the_metric() {
    let e = MetricError::UnknownMetricName(String::from("disk"));
    assert_eq!(e.message(), "No known metric for name 'disk'");
}

#[test]
fn cpu_column_is_two() {
    assert_eq!(Metric::Cpu.column(), 2);
}

#[test]
fn resident_memory_column_is_five() {
    assert_eq!(Metric::ResidentMemory.column(), 5);
}
