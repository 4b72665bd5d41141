use promptbox::args::{arg_action, option_required, parse_template_args, ArgAction, Binding};
use promptbox::error::Error;
use promptbox::template::{
    FileData, ImageData, OptionType, PromptOption, RawValue, Scalar, Value,
};

fn opt(name: &str, option_type: OptionType) -> PromptOption {
    PromptOption {
        name: name.to_string(),
        option_type,
        array: false,
        optional: false,
        default: None,
        description: String::new(),
    }
}

fn text(s: &str) -> RawValue {
    RawValue::Text(s.to_string())
}

fn bind(options: Vec<PromptOption>, supplied: Vec<Vec<RawValue>>) -> Result<Binding, Error> {
    parse_template_args(&options, &supplied)
}

#[test]
fn required_topic_missing_then_supplied() {
    let options = vec![opt("topic", OptionType::String)];
    assert_eq!(
        bind(options.clone(), vec![vec![]]),
        Err(Error::MissingRequiredOption("topic".to_string()))
    );
    let b = bind(options, vec![vec![text("rust")]]).unwrap();
    assert_eq!(
        b.context,
        vec![("topic".to_string(), Value::Scalar(Scalar::String("rust".to_string())))]
    );
    assert!(b.images.is_empty());
}

#[test]
fn missing_required_integer_is_named() {
    let options = vec![opt("a", OptionType::Bool), opt("count", OptionType::Integer)];
    assert_eq!(
        bind(options, vec![vec![], vec![]]),
        Err(Error::MissingRequiredOption("count".to_string()))
    );
}

#[test]
fn first_failing_option_wins() {
    let options = vec![opt("x", OptionType::Integer), opt("y", OptionType::String)];
    assert_eq!(
        bind(options, vec![vec![text("abc")], vec![]]),
        Err(Error::ArgParseFailure("x".to_string()))
    );
}

#[test]
fn omitted_flag_is_false() {
    let options = vec![opt("verbose", OptionType::Bool)];
    let b = bind(options, vec![vec![]]).unwrap();
    assert_eq!(b.context, vec![("verbose".to_string(), Value::Scalar(Scalar::Bool(false)))]);
}

#[test]
fn given_flag_is_true() {
    let options = vec![opt("verbose", OptionType::Bool)];
    let b = bind(options, vec![vec![text("true")]]).unwrap();
    assert_eq!(b.context, vec![("verbose".to_string(), Value::Scalar(Scalar::Bool(true)))]);
}

#[test]
fn bad_bool_text_fails() {
    let options = vec![opt("verbose", OptionType::Bool)];
    assert_eq!(
        bind(options, vec![vec![text("yes")]]),
        Err(Error::ArgParseFailure("verbose".to_string()))
    );
}

#[test]
fn binding_twice_gives_same_context() {
    let mut list = opt("tags", OptionType::String);
    list.array = true;
    let options = vec![opt("n", OptionType::Integer), list, opt("f", OptionType::Bool)];
    let supplied = vec![vec![text("-12")], vec![text("a"), text("b")], vec![]];
    let a = parse_template_args(&options, &supplied);
    let b = parse_template_args(&options, &supplied);
    assert_eq!(a, b);
    let a = a.unwrap();
    assert_eq!(a.context.len(), 3);
    assert_eq!(a.context[0].1, Value::Scalar(Scalar::Integer(-12)));
    assert_eq!(
        a.context[1].1,
        Value::Array(vec![Scalar::String("a".to_string()), Scalar::String("b".to_string())])
    );
}

#[test]
fn integer_limits() {
    let options = vec![opt("n", OptionType::Integer)];
    let b = bind(options.clone(), vec![vec![text("-9223372036854775808")]]).unwrap();
    assert_eq!(b.context[0].1, Value::Scalar(Scalar::Integer(i64::MIN)));
    let b = bind(options.clone(), vec![vec![text("+9223372036854775807")]]).unwrap();
    assert_eq!(b.context[0].1, Value::Scalar(Scalar::Integer(i64::MAX)));
    assert_eq!(
        bind(options.clone(), vec![vec![text("9223372036854775808")]]),
        Err(Error::ArgParseFailure("n".to_string()))
    );
    assert_eq!(
        bind(options, vec![vec![text("-")]]),
        Err(Error::ArgParseFailure("n".to_string()))
    );
}

#[test]
fn number_text_is_checked() {
    let options = vec![opt("t", OptionType::Number)];
    let b = bind(options.clone(), vec![vec![text("-0.75")]]).unwrap();
    assert_eq!(b.context[0].1, Value::Scalar(Scalar::Number("-0.75".to_string())));
    assert_eq!(
        bind(options.clone(), vec![vec![text("1.2.3")]]),
        Err(Error::ArgParseFailure("t".to_string()))
    );
    assert_eq!(
        bind(options.clone(), vec![vec![text(".")]]),
        Err(Error::ArgParseFailure("t".to_string()))
    );
    for good in ["1.5e-3", "2E10", "+.5", "7.", "inf", "-Infinity", "NaN"] {
        let b = bind(options.clone(), vec![vec![text(good)]]).unwrap();
        assert_eq!(b.context[0].1, Value::Scalar(Scalar::Number(good.to_string())));
    }
    for bad in ["1e", "e5", "1e5e2", "1.2e+", "1,5", "infin", "nana"] {
        assert_eq!(
            bind(options.clone(), vec![vec![text(bad)]]),
            Err(Error::ArgParseFailure("t".to_string()))
        );
    }
}

#[test]
fn empty_string_is_rejected() {
    let options = vec![opt("s", OptionType::String)];
    assert_eq!(
        bind(options, vec![vec![text("")]]),
        Err(Error::ArgParseFailure("s".to_string()))
    );
}

#[test]
fn scalar_given_twice_is_rejected() {
    let options = vec![opt("s", OptionType::String)];
    assert_eq!(
        bind(options, vec![vec![text("a"), text("b")]]),
        Err(Error::ArgParseFailure("s".to_string()))
    );
}

#[test]
fn defaults_and_empty_values() {
    let mut with_default = opt("lang", OptionType::String);
    with_default.default = Some(Value::Scalar(Scalar::String("en".to_string())));
    let mut optional = opt("note", OptionType::String);
    optional.optional = true;
    let mut list = opt("items", OptionType::Integer);
    list.array = true;
    list.optional = true;
    let b = bind(vec![with_default, optional, list], vec![vec![], vec![], vec![]]).unwrap();
    assert_eq!(
        b.context,
        vec![
            ("lang".to_string(), Value::Scalar(Scalar::String("en".to_string()))),
            ("note".to_string(), Value::Null),
            ("items".to_string(), Value::Array(vec![])),
        ]
    );
}

#[test]
fn files_stay_in_context_and_images_go_aside() {
    let file = FileData {
        filename: "a.txt".to_string(),
        path: "docs/a.txt".to_string(),
        contents: "hello".to_string(),
    };
    let image = ImageData { path: "p.png".to_string(), data: vec![1, 2, 3] };
    let mut optional_image = opt("pic", OptionType::Image);
    optional_image.optional = true;
    let options = vec![opt("doc", OptionType::File), optional_image];
    let b = bind(
        options.clone(),
        vec![vec![RawValue::File(file.clone())], vec![RawValue::Image(image.clone())]],
    )
    .unwrap();
    assert_eq!(b.context, vec![("doc".to_string(), Value::Scalar(Scalar::File(file.clone())))]);
    assert_eq!(b.images, vec![image]);
    assert_eq!(
        bind(options, vec![vec![RawValue::File(file.clone())], vec![text("p.png")]]),
        Err(Error::ArgParseFailure("pic".to_string()))
    );
}

#[test]
fn argument_surface_of_options() {
    let mut list = opt("l", OptionType::Bool);
    list.array = true;
    assert_eq!(arg_action(&list), ArgAction::Append);
    assert_eq!(arg_action(&opt("b", OptionType::Bool)), ArgAction::SetTrue);
    assert_eq!(arg_action(&opt("s", OptionType::String)), ArgAction::SetOne);
    assert!(option_required(&opt("s", OptionType::String)));
    assert!(!option_required(&opt("b", OptionType::Bool)));
    let mut d = opt("d", OptionType::Integer);
    d.default = Some(Value::Scalar(Scalar::Integer(3)));
    assert!(!option_required(&d));
}
