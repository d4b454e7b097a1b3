use markings::Args;
use markings::Error;
use markings::Opts;
use markings::State;
use markings::Template;

#[test]
fn scan_in_order() {
    let keys = Template::find_keys("${this} is a ${test} ${with some keys}").unwrap();
    assert_eq!(
        keys,
        vec![
            "this".to_string(),
            "test".to_string(),
            "with some keys".to_string()
        ]
    );
}

#[test]
fn scan_unclosed_marker() {
    let err = Template::find_keys("${a").unwrap_err();
    assert_eq!(err, Error::MismatchedBraces { open: 1, close: 0 });
}

#[test]
fn scan_nested_marker() {
    let err = Template::find_keys("${${x}}").unwrap_err();
    assert_eq!(err, Error::NestedTemplate { pos: 2 });
}

#[test]
fn scan_nested_brace() {
    let err = Template::find_keys("${a{b}").unwrap_err();
    assert_eq!(err, Error::NestedTemplate { pos: 3 });
}

#[test]
fn scan_stray_close_is_text() {
    let keys = Template::find_keys("a}b").unwrap();
    assert_eq!(keys, Vec::<String>::new());
}

#[test]
fn scan_empty_key() {
    let keys = Template::find_keys("${}").unwrap();
    assert_eq!(keys, vec!["".to_string()]);
}

#[test]
fn parse_rejects_duplicates() {
    let err = Template::parse("${one} and ${two} and ${one}", Opts::default()).unwrap_err();
    assert_eq!(err, Error::DuplicateKeys);
}

#[test]
fn parse_rejects_empty() {
    let err = Template::parse("", Opts::default()).unwrap_err();
    assert_eq!(err, Error::EmptyTemplate);

    let err = Template::parse("no markers here", Opts::default()).unwrap_err();
    assert_eq!(err, Error::EmptyTemplate);
}

#[test]
fn apply_rejects_unmatched_argument() {
    let template = Template::parse("${foo} ${bar} ${baz}", Opts::default()).unwrap();
    let parts = Args::new().with("foo", "false").with("unknown", "true");
    let err = template.apply(&parts).unwrap_err();
    assert_eq!(err, Error::OptionalKeys);
}

#[test]
fn round_trip_resolves_every_key() {
    let template = Template::parse("start ${a} middle ${b} end", Opts::default()).unwrap();
    let parts = Args::new().with("a", "one").with("b", "two");
    let out = template.apply(&parts).unwrap();
    assert_eq!(out, "start one middle two end");
    assert!(!out.contains("${a}"));
    assert!(!out.contains("${b}"));
}

#[test]
fn identity_template_ignores_args() {
    let template =
        Template::parse("plain text", Opts::default().empty_template().build()).unwrap();
    let parts = Args::new().with("anything", "at all");
    assert_eq!("plain text", template.apply(&parts).unwrap());
}

#[test]
fn clone_then_apply_matches() {
    let template = Template::parse("${x} or ${y}", Opts::default()).unwrap();
    let copy = template.clone();
    let parts = Args::new().with("x", "1").with("y", "2");
    let a = template.apply(&parts).unwrap();
    let b = copy.apply(&parts).unwrap();
    assert_eq!(a, b);
}

#[test]
fn duplicate_marker_resolved_by_one_argument() {
    let template = Template::parse(
        "${one} and ${two} and ${one}",
        Opts::default().duplicate_keys().build(),
    )
    .unwrap();
    let parts = Args::new().with("one", "1").with("two", "2");
    assert_eq!("1 and 2 and 1", template.apply(&parts).unwrap());
}

#[test]
fn state_remove_counts_every_occurrence() {
    let mut state = State::new(vec!["a".to_string(), "b".to_string(), "a".to_string()]);
    assert_eq!(state.remove("a"), Some(("a".to_string(), 2)));
    assert_eq!(state.remove("a"), None);
    assert!(state.has_keys());
    assert_eq!(state.remove("b"), Some(("b".to_string(), 1)));
    assert!(!state.has_keys());
}

#[test]
fn args_counts() {
    let args = Args::new();
    assert!(args.is_empty());
    assert_eq!(args.len(), 0);
    let args = args.with("k", "v").with("k", "w").with("j", "u");
    assert!(!args.is_empty());
    assert_eq!(args.len(), 2);
}

#[test]
fn opts_toggles_flip() {
    let opts = Opts::default();
    assert_eq!(opts, Opts::default().build());
    let flipped = Opts::default()
        .optional_keys()
        .duplicate_keys()
        .empty_template()
        .build();
    assert_ne!(opts, flipped);
    let back = flipped
        .optional_keys()
        .duplicate_keys()
        .empty_template()
        .build();
    assert_eq!(opts, back);
}
