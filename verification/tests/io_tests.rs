use mp4util::io::{InputSource, OutputSink};

#[test]
fn test_input_source_from_arg_with_file() {
    let source = InputSource::from_arg(Some("test.mp4".to_string()), false);
    assert!(matches!(source, Some(InputSource::File(_))));
}

#[test]
fn test_input_source_from_arg_with_dash() {
    let source = InputSource::from_arg(Some("-".to_string()), false);
    assert!(matches!(source, Some(InputSource::Stdin)));
}

#[test]
fn test_output_sink_from_arg_with_file() {
    let sink = OutputSink::from_arg(Some("output.mp4".to_string()), false, false);
    assert!(matches!(sink, Ok(OutputSink::File(_))));
}

#[test]
fn test_input_source_from_arg_without_arg() {
    assert!(matches!(InputSource::from_arg(None, false), Some(InputSource::Stdin)));
    assert!(InputSource::from_arg(None, true).is_none());
}

#[test]
fn test_output_sink_refuses_terminal() {
    assert!(OutputSink::from_arg(None, false, true).is_err());
    assert!(matches!(OutputSink::from_arg(None, true, true), Ok(OutputSink::Stdout)));
    assert!(matches!(OutputSink::from_arg(Some("-".to_string()), false, true), Err(_)));
}

#[test]
fn test_descriptions() {
    let file = InputSource::from_arg(Some("in.mp4".to_string()), false).unwrap();
    assert_eq!(file.description(), "in.mp4");
    let stdin = InputSource::from_arg(Some("-".to_string()), false).unwrap();
    assert_eq!(stdin.description(), "stdin");
    let out = OutputSink::from_arg(Some("out.mp4".to_string()), false, false).unwrap();
    assert_eq!(out.description(), "out.mp4");
    assert!(out.is_file());
    let stdout = OutputSink::from_arg(None, true, true).unwrap();
    assert_eq!(stdout.description(), "stdout");
    assert!(!stdout.is_file());
}
