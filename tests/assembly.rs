use promptbox::option::{overwrite_from_option, overwrite_option_from_option, update_if_none};
use promptbox::prompt::{prepare_template, template_references_extra};

#[test]
fn extras_are_appended_when_not_bound() {
    let r = prepare_template(
        "Body",
        &Some("Pre".to_string()),
        &Some("Post".to_string()),
        &vec!["one".to_string(), "two".to_string()],
        &Some("piped".to_string()),
        false,
    );
    assert_eq!(r.template, "Pre\n\nBody\n\none\n\ntwo\n\npiped\n\nPost");
    assert_eq!(r.extra, None);
    assert_eq!(r.head, "Pre\n\nBody\n\n");
    assert_eq!(r.free, "one\n\ntwo\n\npiped");
    assert_eq!(r.tail, "\n\nPost");
}

#[test]
fn extras_are_bound_when_referenced() {
    let r = prepare_template("Body {{extra}}", &None, &None, &vec!["one".to_string()], &Some(String::new()), true);
    assert_eq!(r.template, "Body {{extra}}");
    assert_eq!(r.extra, Some("one".to_string()));
    assert_eq!(r.free, "");
}

#[test]
fn no_extras_leave_template_alone() {
    let r = prepare_template("Body", &None, &None, &vec![], &None, false);
    assert_eq!(r.template, "Body");
}

#[test]
fn option_folding() {
    let mut v = 1;
    overwrite_from_option(&mut v, &None);
    assert_eq!(v, 1);
    overwrite_from_option(&mut v, &Some(5));
    assert_eq!(v, 5);
    let mut o = Some("a".to_string());
    overwrite_option_from_option(&mut o, &None);
    assert_eq!(o, Some("a".to_string()));
    overwrite_option_from_option(&mut o, &Some("b".to_string()));
    assert_eq!(o, Some("b".to_string()));
    let mut u: Option<u32> = None;
    update_if_none(&mut u, &Some(3));
    assert_eq!(u, Some(3));
    update_if_none(&mut u, &Some(4));
    assert_eq!(u, Some(3));
}

use promptbox::model::{resolve_model_settings, ModelSettings};

fn settings(model: Option<&str>, host: Option<&str>, top_k: Option<u32>) -> ModelSettings {
    ModelSettings {
        model: model.map(String::from),
        host: host.map(String::from),
        top_k,
        max_tokens: None,
        context_limit: None,
    }
}

#[test]
fn flags_win_over_template_over_config() {
    let config = settings(Some("base"), Some("http://config"), Some(10));
    let template = settings(Some("tmpl"), None, None);
    let cli = settings(None, Some("http://cli"), None);
    let r = resolve_model_settings(&config, &template, &cli);
    assert_eq!(r, settings(Some("tmpl"), Some("http://cli"), Some(10)));
    assert_eq!(r.host_or_default(), "http://cli");
    assert_eq!(settings(None, None, None).host_or_default(), "http://localhost:11434");
}

#[test]
fn extra_is_found_as_a_whole_name() {
    assert!(template_references_extra("Notes: {{ extra }}"));
    assert!(template_references_extra("extra"));
    assert!(!template_references_extra("An extraordinary {{topic}}"));
    assert!(!template_references_extra("{{ my_extra }}"));
    assert!(!template_references_extra("ext"));
}
