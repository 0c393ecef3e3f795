use eye_lib::metric::Metric;
use eye_lib::runner::{find_metric, find_process_line, sample, Error};
use eye_lib::text::{fields, segments, str_eq};

const LISTING: &str = "USER  PID  %CPU  %MEM  VSZ  RSS  TTY  STAT  START  TIME  COMMAND\n\
root   123  4.0   0.3   100  52   ?    Ss    Jan01  0:01  /usr/sbin/acpid\n\
root   124  7.5   1.2   200  99   ?    Ss    Jan01  0:02  myproc\n\
root   125  9.9   2.4   300  11   ?    Ss    Jan01  0:03  myproc\n";

#[test]
fn irregular_spacing_yields_correct_fields() {
    let line = "user   123  4.0  a  b  c  d  e  f  g  /usr/sbin/acpid";
    let f = fields(line);
    assert_eq!(f[0], "user");
    assert_eq!(f[1], "123");
    assert_eq!(f[2], "4.0");
    assert_eq!(f[10], "/usr/sbin/acpid");
    assert_eq!(f.len(), 11);
}

#[test]
fn irregular_spacing_yields_correct_metric_field() {
    let line = "user   123  4.0  a  b  c  d  e  f  g  /usr/sbin/acpid";
    assert_eq!(find_metric(line, &Metric::Cpu), Some(String::from("4.0")));
}

#[test]
fn tabs_separate_fields_like_spaces() {
    let f = fields("a\tb c");
    assert_eq!(f, vec![String::from("a"), String::from("b"), String::from("c")]);
    assert_eq!(find_metric("a\tb c", &Metric::Cpu), Some(String::from("c")));
}

#[test]
fn tab_separated_identity_field_matches() {
    let raw = "a b c d e f g h i j\tk";
    let line = find_process_line(raw, "k").expect("the tab-separated row should match");
    assert_eq!(line, raw);
}

#[test]
fn carriage_return_terminated_lines_match() {
    let raw = "h1 h2\r\na b c d e f g h i j myproc\r\n";
    let line = find_process_line(raw, "myproc").expect("the row should match despite \\r\\n");
    assert_eq!(sample(raw, "myproc", &Metric::Cpu), Ok(String::from("c")));
    assert_eq!(fields(&line).len(), 11);
}

#[test]
fn leading_and_trailing_spaces_add_no_fields() {
    let f = fields("  a   b  ");
    assert_eq!(f, vec![String::from("a"), String::from("b")]);
}

#[test]
fn fields_of_empty_line_are_empty() {
    assert_eq!(fields("").len(), 0);
    assert_eq!(fields("     ").len(), 0);
}

#[test]
fn segments_keep_empty_lines() {
    let s = segments("a\n\nb\n", '\n');
    assert_eq!(
        s,
        vec![String::from("a"), String::from(""), String::from("b"), String::from("")]
    );
}

#[test]
fn str_eq_is_exact() {
    assert!(str_eq("myproc", "myproc"));
    assert!(!str_eq("myproc", "myproc2"));
    assert!(!str_eq("myproc2", "myproc"));
    assert!(str_eq("", ""));
}

#[test]
fn finds_first_matching_line() {
    let line = find_process_line(LISTING, "myproc").expect("a row should match");
    let f = fields(&line);
    assert_eq!(f[1], "124");
}

#[test]
fn match_is_exact_not_substring() {
    assert_eq!(find_process_line(LISTING, "acpid"), None);
    assert_eq!(find_process_line(LISTING, "mypro"), None);
}

#[test]
fn missing_process_is_not_found() {
    assert_eq!(find_process_line(LISTING, "ghost"), None);
}

#[test]
fn short_line_has_no_metric_field() {
    assert_eq!(find_metric("a b", &Metric::Cpu), None);
    assert_eq!(find_metric("a b c", &Metric::ResidentMemory), None);
    assert_eq!(find_metric("a b c", &Metric::Cpu), Some(String::from("c")));
}

#[test]
fn samples_cpu_of_first_match() {
    assert_eq!(sample(LISTING, "myproc", &Metric::Cpu), Ok(String::from("7.5")));
}

#[test]
fn samples_resident_memory_of_first_match() {
    assert_eq!(sample(LISTING, "myproc", &Metric::ResidentMemory), Ok(String::from("99")));
}

#[test]
fn sampling_missing_process_fails() {
    assert_eq!(sample(LISTING, "ghost", &Metric::Cpu), Err(Error::ProcessNotFound));
}

#[test]
fn sampling_empty_output_finds_no_process() {
    assert_eq!(sample("", "myproc", &Metric::Cpu), Err(Error::ProcessNotFound));
}

#[test]
fn sampling_is_idempotent_on_unchanged_listing() {
    let first = sample(LISTING, "myproc", &Metric::Cpu);
    let second = sample(LISTING, "myproc", &Metric::Cpu);
    assert_eq!(first, second);
}

#[test]
fn error_from_byte_is_process_not_found() {
    assert_eq!(Error::from(5u8), Error::ProcessNotFound);
    let e: Error = 0u8.into();
    assert_eq!(e, Error::ProcessNotFound);
}

#[test]
fn error_messages() {
    assert_eq!(Error::CommandExecutionError.message(), "Error during command execution");
    assert_eq!(
        Error::CommandOutputUtf8DecodeError.message(),
        "Error during command execution output utf8 decode"
    );
    assert_eq!(Error::ProcessNotFound.message(), "No process found for given name");
    assert_eq!(Error::CommandOutputFormatError.message(), "Command output format error");
}
