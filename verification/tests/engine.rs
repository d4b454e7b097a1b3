use markings::Args;
use markings::Opts;
use markings::State;
use markings::Template;

#[test]
fn duplicate_key() {
    let args = Args::new()
        .with("a", "true")
        .with("a", "false")
        .with("a", "true");

    let v: Vec<(String, String)> = args.iter().clone();
    assert_eq!(v, vec![("a".to_string(), "true".to_string())]);
}

#[test]
fn duplicates() {
    let state = State::new(vec!["a".to_string(), "b".to_string(), "c".to_string()]);
    assert!(!state.has_duplicates());

    let state = State::new(vec![
        "a".to_string(),
        "b".to_string(),
        "a".to_string(),
        "c".to_string(),
    ]);
    assert!(state.has_duplicates());
}

#[test]
fn basic() {
    let p = Template::parse("${a} ${b}${c}", Default::default()).unwrap();
    let a = Args::new().with("a", "0").with("b", "1").with("c", "2");
    let t = p.apply(&a).unwrap();
    assert_eq!(t, "0 12");
}

#[test]
fn apply_iter() {
    let mut base = (b'a'..=b'z')
        .map(|c| format!("${{{}}}", c as char))
        .collect::<Vec<_>>()
        .join(" ");

    for c in b'a'..=b'z' {
        let t = Template::parse(&base, Default::default()).unwrap();
        let a = Args::new().with(
            &format!("{}", c as char),
            &format!("{} = {}", c as char, c),
        );
        base = t.apply(&a).unwrap();
    }

    let expected = "a = 97 b = 98 c = 99 d = 100 e = 101 \
                    f = 102 g = 103 h = 104 i = 105 j = 106 \
                    k = 107 l = 108 m = 109 n = 110 o = 111 \
                    p = 112 q = 113 r = 114 s = 115 t = 116 \
                    u = 117 v = 118 w = 119 x = 120 y = 121 \
                    z = 122";

    assert_eq!(base, expected);
}

#[test]
fn owned_key() {
    let args: Args = Args::new().with("foo", "42");
    assert_eq!(args.len(), 1);
}

#[test]
fn with_args() {
    let template = "you've reached a max of ${max} credits, \
                    out of ${total} total credits with ${success} \
                    successes and ${failure} failures. and I've \
                    'collected' ${overall_total} credits from all of \
                    the failures.";

    let t = Template::parse(&template, Default::default()).unwrap();
    let parts = Args::new()
        .with("max", "218,731")
        .with("total", "706,917")
        .with("success", "169")
        .with("failure", "174")
        .with("overall_total", "1,629,011");

    let expected = "you've reached a max of 218,731 credits, \
                    out of 706,917 total credits with 169 \
                    successes and 174 failures. and I've \
                    'collected' 1,629,011 credits from all of \
                    the failures.";

    assert_eq!(t.apply(&parts).unwrap(), expected);
}

#[test]
fn empty_template() {
    let input = "";
    Template::parse(&input, Default::default()).unwrap_err();

    let template = Template::parse(&input, Opts::default().empty_template().build()).unwrap();
    assert!(template.is_empty());
    assert_eq!(input, template.apply(&Args::new()).unwrap());

    let input = "foobar baz quux {{something}}";
    Template::parse(&input, Default::default()).unwrap_err();

    let template = Template::parse(&input, Opts::default().empty_template().build()).unwrap();
    assert!(template.is_empty());
    assert_eq!(input, template.apply(&Args::new()).unwrap());
}

#[test]
fn duplicate_keys() {
    let input = "${one} and ${two} and ${one}";
    Template::parse(&input, Default::default()).unwrap_err();

    let input = "${one} and ${two} and ${one}";
    let template = Template::parse(&input, Opts::default().duplicate_keys().build()).unwrap();
    let parts = Args::new().with("one", "1").with("two", "2");
    assert_eq!("1 and 2 and 1", template.apply(&parts).unwrap());
}

#[test]
fn optional_keys() {
    let input = "${foo} ${bar} ${baz}";

    let parts = Args::new().with("foo", "false").with("unknown", "true");

    let template = Template::parse(&input, Default::default()).unwrap();
    template.apply(&parts).unwrap_err();

    let template = Template::parse(&input, Opts::default().optional_keys().build()).unwrap();
    assert_eq!("false ${bar} ${baz}", template.apply(&parts).unwrap());
}

#[test]
fn empty_template_replace() {
    let template =
        Template::parse("${short_name}", Opts::default().empty_template().build()).unwrap();
    let parts = Args::new().with("short_name", "1");
    assert_eq!("1", template.apply(&parts).unwrap());
}

#[test]
fn args_owned() {
    let args = Args::new().with("foo", "42").with("bar", "false");
    let template = Template::parse("${foo} ${bar}", Default::default()).unwrap();
    let s = template.apply(&args).unwrap();
    assert_eq!(s, "42 false");
}
