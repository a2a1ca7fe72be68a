use tissue::session::{
    invocation_arguments, output_script, split_message, split_submission, step, SessionEvent,
    SessionState,
};
use tissue::Input;

fn parse_all(parts: &[String]) -> Vec<Option<f64>> {
    parts.iter().map(|part| part.parse().ok()).collect()
}

#[test]
fn round_trip_sum() {
    // Two numeric descriptors and the sum function: the submission message
    // must reach the function as exactly its two values, and the output
    // update must carry their sum's textual form.
    let parts = split_submission("234.289,235.6", 2).unwrap();
    assert_eq!(parts, vec!["234.289".to_string(), "235.6".to_string()]);
    let arguments = invocation_arguments(parse_all(&parts)).unwrap();
    assert_eq!(arguments, vec![234.289_f64, 235.6_f64]);
    let y: f64 = arguments.iter().sum();
    let script = output_script(&format!("{}", y));
    assert_eq!(script, "document.getElementById('output').value = 469.889");
}

#[test]
fn malformed_submission_tolerated() {
    // A non-numeric value text drops the invocation without closing the
    // session, and a later valid submission still succeeds.
    let parts = split_submission("abc,1.0", 2).unwrap();
    let outcome = invocation_arguments(parse_all(&parts));
    assert!(outcome.is_none());
    assert_eq!(
        step(SessionState::Running, &SessionEvent::MessageReceived),
        SessionState::Running
    );
    let parts = split_submission("2.0,3.0", 2).unwrap();
    let arguments = invocation_arguments(parse_all(&parts)).unwrap();
    assert_eq!(arguments, vec![2.0_f64, 3.0_f64]);
}

#[test]
fn arity_mismatch_tolerated() {
    // Fewer value texts than descriptors, and more, both drop the submission
    // without closing the session.
    assert!(split_submission("1.0,2.0", 3).is_none());
    assert!(split_submission("1.0,2.0,3.0,4.0", 3).is_none());
    assert!(split_submission("1.0,2.0,3.0", 3).is_some());
    assert_eq!(
        step(SessionState::Running, &SessionEvent::MessageReceived),
        SessionState::Running
    );
}

#[test]
fn slider_bounds_descriptive_only() {
    // Constructing a slider descriptor never raises an error, and a
    // submission outside its bounds is still accepted: the host never
    // re-validates the range. This is intentional.
    let slider = Input::Slider {
        min: "0".to_string(),
        max: "10".to_string(),
        step: "1".to_string(),
        initial_value: "5".to_string(),
    };
    let document = tissue::markup::generate(&vec![slider]);
    assert!(document.contains("min=\"0\" max=\"10\" step=\"1\""));
    let parts = split_submission("42", 1).unwrap();
    let arguments = invocation_arguments(parse_all(&parts)).unwrap();
    assert_eq!(arguments, vec![42.0_f64]);
}

#[test]
fn session_termination() {
    // A close request, and only a close request, ends the session.
    assert_eq!(
        step(SessionState::Running, &SessionEvent::CloseRequested),
        SessionState::Closed
    );
    assert_eq!(
        step(SessionState::Running, &SessionEvent::Started),
        SessionState::Running
    );
    assert_eq!(
        step(SessionState::Running, &SessionEvent::Other),
        SessionState::Running
    );
    assert_eq!(
        step(SessionState::Running, &SessionEvent::MessageReceived),
        SessionState::Running
    );
    assert_eq!(
        step(SessionState::Closed, &SessionEvent::Other),
        SessionState::Closed
    );
}

#[test]
fn split_edges() {
    assert_eq!(split_message(""), vec!["".to_string()]);
    assert_eq!(
        split_message("a,,b"),
        vec!["a".to_string(), "".to_string(), "b".to_string()]
    );
    assert_eq!(split_message("1.0,"), vec!["1.0".to_string(), "".to_string()]);
    assert_eq!(split_message("7"), vec!["7".to_string()]);
}

#[test]
fn empty_message_has_one_value_text() {
    // The empty message splits into a single empty value text, so it matches
    // a one-descriptor form by arity and is then dropped at the parse step.
    let parts = split_submission("", 1).unwrap();
    assert_eq!(parts, vec!["".to_string()]);
    assert!(invocation_arguments(parse_all(&parts)).is_none());
    assert!(split_submission("", 2).is_none());
}

#[test]
fn output_script_exact() {
    assert_eq!(
        output_script("469.889"),
        "document.getElementById('output').value = 469.889"
    );
    assert_eq!(output_script(""), "document.getElementById('output').value = ");
}

#[test]
fn invocation_arguments_edge_cases() {
    let empty: Vec<Option<f64>> = Vec::new();
    assert_eq!(invocation_arguments(empty), Some(Vec::new()));
    assert_eq!(invocation_arguments(vec![None::<f64>]), None);
    assert_eq!(
        invocation_arguments(vec![Some(1.5_f64), Some(-2.0_f64)]),
        Some(vec![1.5_f64, -2.0_f64])
    );
}
