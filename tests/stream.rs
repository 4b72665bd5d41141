use promptbox::error::{error_from_model, map_model_response_err, Error, ModelError};
use promptbox::ollama::{
    classify_line, trim_text,
    collect_fragments, context_limit_from_parameters, context_limit_from_value, next_fragment,
    split_lines, OllamaResponse,
};

fn chunk(text: &str, done: bool) -> OllamaResponse {
    OllamaResponse { response: text.to_string(), done }
}

#[test]
fn three_lines_give_two_fragments() {
    let chunks = vec![chunk("Hel", false), chunk("lo", false), chunk("", true)];
    assert_eq!(collect_fragments(&chunks), vec!["Hel".to_string(), "lo".to_string()]);
    assert_eq!(next_fragment(&chunks[2]), (None, true));
    assert_eq!(next_fragment(&chunks[0]), (Some("Hel".to_string()), false));
}

#[test]
fn fragments_join_to_full_text() {
    let chunks = vec![
        chunk("The ", false),
        chunk("", false),
        chunk("quick ", false),
        chunk("fox", true),
        chunk("ignored", false),
    ];
    let frags = collect_fragments(&chunks);
    assert_eq!(frags.concat(), "The quick fox");
    assert!(frags.iter().all(|f| !f.is_empty()));
}

#[test]
fn context_limit_declared() {
    let params = "stop \"[INST]\"\nnum_ctx                        131072\nrope_frequency_base 1e+06";
    assert_eq!(context_limit_from_parameters(params), Ok(131072));
}

#[test]
fn context_limit_default_when_absent() {
    assert_eq!(context_limit_from_parameters("stop \"</s>\"\ntemperature 0.7"), Ok(2048));
    assert_eq!(context_limit_from_parameters(""), Ok(2048));
}

#[test]
fn context_limit_malformed() {
    assert_eq!(context_limit_from_parameters("num_ctx lots"), Err(ModelError::Deserialize));
    assert_eq!(context_limit_from_parameters("num_ctx"), Err(ModelError::Deserialize));
    assert_eq!(context_limit_from_value("-4"), Err(ModelError::Deserialize));
    assert_eq!(context_limit_from_value("4096"), Ok(4096));
}

#[test]
fn lines_are_split_at_newlines() {
    assert_eq!(split_lines("a\n\nb"), vec!["a".to_string(), String::new(), "b".to_string()]);
    assert_eq!(split_lines(""), vec![String::new()]);
}

#[test]
fn errors_are_normalised() {
    assert_eq!(
        map_model_response_err(Some(404), "not found".to_string()),
        ModelError::Status { code: 404, body: "not found".to_string() }
    );
    assert_eq!(
        map_model_response_err(None, "refused".to_string()),
        ModelError::Transport("refused".to_string())
    );
    assert_eq!(error_from_model(ModelError::Deserialize), Error::BackendProtocolFailure);
    assert_eq!(
        error_from_model(ModelError::Model("oom".to_string())),
        Error::BackendModelFailure("oom".to_string())
    );
}

#[test]
fn reported_errors_are_model_failures() {
    assert_eq!(
        classify_line(None, None, Some("model not found".to_string())),
        Err(ModelError::Model("model not found".to_string()))
    );
    assert_eq!(classify_line(Some("x".to_string()), None, None), Err(ModelError::Deserialize));
    assert_eq!(
        classify_line(Some("x".to_string()), Some(true), None),
        Ok(OllamaResponse { response: "x".to_string(), done: true })
    );
}

#[test]
fn trimming_removes_unicode_white_space() {
    assert_eq!(trim_text(" \t 42\u{3000}\n"), "42");
    assert_eq!(trim_text("a b"), "a b");
    assert_eq!(trim_text("  "), "");
    assert_eq!(context_limit_from_parameters("num_ctx\u{a0}\u{a0}512\r"), Ok(512));
}
