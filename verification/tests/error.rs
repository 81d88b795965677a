use status_agent::error::AgentError;

#[test]
fn message_of_a_failed_connect() {
    assert_eq!(AgentError::Connect.message(), "Failed to connect to server");
}

#[test]
fn message_of_a_refused_handshake() {
    let error = AgentError::Auth { response: b"no".to_vec() };
    assert_eq!(error.message(), "Authentication failed");
}

#[test]
fn message_of_a_transport_failure_is_its_detail() {
    let error = AgentError::Transport { detail: "Broken pipe (os error 32)".to_string() };
    assert_eq!(error.message(), "Broken pipe (os error 32)");
}

#[test]
fn message_of_a_metric_failure_is_its_detail() {
    let error = AgentError::Metric { detail: "Failed to read file '/proc/stat'".to_string() };
    assert_eq!(error.message(), "Failed to read file '/proc/stat'");
}

#[test]
fn raw_response_is_held_by_a_refused_handshake_only() {
    let response = b"denied\n".to_vec();
    assert_eq!(AgentError::Auth { response: response.clone() }.raw_response(), Some(&response));
    assert_eq!(AgentError::Connect.raw_response(), None);
    assert_eq!(AgentError::Transport { detail: "x".to_string() }.raw_response(), None);
    assert_eq!(AgentError::Metric { detail: "x".to_string() }.raw_response(), None);
}
