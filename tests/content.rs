use joinerator::content::{
    Attempts, ClipboardConsumer, ClipboardProvider, ClipboardSingleton, ContentError, InputSource, LoopStep,
    NullConsumer, OutputTarget, StdinProvider, StringProvider, input_source, next_step, output_target,
};
use joinerator::repertoire::{Error, RepertoireFormat, repertoire_format};

#[test]
fn string_provider_hands_out_in_order() {
    let mut p = StringProvider::new(vec!["one".to_string(), "two".to_string()]);
    assert_eq!(p.has_more(), Ok(true));
    assert_eq!(p.provide(), Ok("one".to_string()));
    assert_eq!(p.has_more(), Ok(true));
    assert_eq!(p.provide(), Ok("two".to_string()));
    assert_eq!(p.has_more(), Ok(false));
    assert_eq!(p.provide(), Err(ContentError::NoMoreData));
    assert_eq!(ContentError::NoMoreData.message(), "No more data.");
}

#[test]
fn null_consumer_accepts_everything() {
    let mut c = NullConsumer::new();
    assert_eq!(c.consume("anything".to_string()), Ok(()));
    let _ = ClipboardProvider::new();
    let _ = ClipboardConsumer::new();
}

#[test]
fn stdin_state_keeps_read_ahead() {
    let mut s = StdinProvider::new();
    assert_eq!(s.take_buffer(), "");
    s.keep_buffer("first line\n".to_string());
    assert_eq!(s.take_buffer(), "first line\n");
    assert_eq!(s.take_buffer(), "");
}

#[test]
fn clipboard_changes_are_detected() {
    let mut c = ClipboardSingleton::new();
    assert!(!c.has_changed(&String::new()));
    assert_eq!(c.get_data("input".to_string()), "input");
    assert!(!c.has_changed(&"input".to_string()));
    assert!(c.has_changed(&"other".to_string()));
    c.set_data("output".to_string());
    assert!(!c.has_changed(&"output".to_string()));
    assert!(c.has_changed(&"input".to_string()));
}

#[test]
fn attempts_run_out() {
    let mut a = Attempts::new(2);
    assert!(a.next());
    assert!(a.next());
    assert!(a.next());
    assert!(!a.next());
    assert!(!a.next());
    let mut once = Attempts::new(0);
    assert!(once.next());
    assert!(!once.next());
}

#[test]
fn loop_steps() {
    assert_eq!(next_step(true, false), LoopStep::Continue);
    assert_eq!(next_step(true, true), LoopStep::Continue);
    assert_eq!(next_step(false, true), LoopStep::Poll);
    assert_eq!(next_step(false, false), LoopStep::Stop);
}

#[test]
fn sources_and_targets_by_name() {
    assert_eq!(input_source("stdin"), Some(InputSource::Stdin));
    assert_eq!(input_source("clipboard"), Some(InputSource::Clipboard));
    assert_eq!(input_source("args"), Some(InputSource::Arguments));
    assert_eq!(input_source("arguments"), Some(InputSource::Arguments));
    assert_eq!(input_source("file"), None);
    assert_eq!(output_target("stdout"), Some(OutputTarget::Stdout));
    assert_eq!(output_target("null"), Some(OutputTarget::Null));
    assert_eq!(output_target("clipboard"), Some(OutputTarget::Clipboard));
    assert_eq!(output_target("stderr"), None);
}

#[test]
fn repertoire_file_types() {
    assert_eq!(repertoire_format(Some("yml"), "rep_a.yml").ok(), Some(RepertoireFormat::Yaml));
    assert_eq!(repertoire_format(Some("yaml"), "rep_a.yaml").ok(), Some(RepertoireFormat::Yaml));
    match repertoire_format(None, "rep_a") {
        Err(Error::DeserializeError { reason }) => {
            assert_eq!(reason, "unable to determine the file type of 'rep_a'")
        }
        _ => panic!("a file without an extension is refused"),
    }
    match repertoire_format(Some("json"), "rep_a.json") {
        Err(e) => assert_eq!(e.to_string(), "unable to deserialize the file type of 'rep_a.json'"),
        _ => panic!("a json file is refused"),
    }
}
