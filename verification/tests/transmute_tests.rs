use messaging_core::transmute::{
    parse_args, parse_request, stringify_possible_transmutations, transmute, StdioRequest,
    TransmutationKind,
};

#[test]
fn interactive_lines_are_read_word_by_word() {
    match parse_request("slugify Some   Text here") {
        StdioRequest::Apply { kind_name, text } => {
            assert_eq!(kind_name, "slugify");
            assert_eq!(text, "Some Text here");
        }
        _ => panic!("expected an apply request"),
    }
    assert!(matches!(parse_request("exit"), StdioRequest::Exit));
    assert!(matches!(parse_request("exit now"), StdioRequest::Exit));
    assert!(matches!(parse_request("   "), StdioRequest::Empty));
    match parse_request("uppercase") {
        StdioRequest::Apply { kind_name, text } => {
            assert_eq!(kind_name, "uppercase");
            assert_eq!(text, "");
        }
        _ => panic!("expected an apply request"),
    }
}

#[test]
fn lowercase_transmutation() {
    let result = transmute(
        "Rust: Where 'match' is a date night for enums!",
        TransmutationKind::Lowercase,
    );
    assert_eq!(result, "rust: where 'match' is a date night for enums!");
}

#[test]
fn uppercase_transmutation() {
    let result = transmute(
        "Rust: Where lifetimes outlast relationships!",
        TransmutationKind::Uppercase,
    );
    assert_eq!(result, "RUST: WHERE LIFETIMES OUTLAST RELATIONSHIPS!");
}

#[test]
fn no_space_transmutation() {
    let result = transmute(
        "Rust: Making pointers point less stressfully!",
        TransmutationKind::NoSpaces,
    );
    assert_eq!(result, "Rust:Makingpointerspointlessstressfully!");
}

#[test]
fn slugify_transmutation() {
    let result = transmute(
        "Rust: Where code 'borrows' but never forgets!",
        TransmutationKind::Slugify,
    );
    assert_eq!(result, "rust-where-code-borrows-but-never-forgets");
}

#[test]
fn camelcase_transmutation() {
    let result = transmute(
        "Why did the Rustacean start a band? Because they knew how to play the 'Result' harmoniously, with no 'panic' in the performance!",
        TransmutationKind::Camelcase,
    );
    assert_eq!(result, "WhyDidTheRustaceanStartABandBecauseTheyKnewHowToPlayTheResultHarmoniouslyWithNoPanicInThePerformance");
}

#[test]
fn reverse_talk_transmutation() {
    let result = transmute(
        "Rust: Where 'match' is the only game that never ends!",
        TransmutationKind::ReverseTalk,
    );
    assert_eq!(
        result,
        ":tsuR erehW 'hctam' si eht ylno emag taht reven !sdne"
    );
}

#[test]
fn kinds_parse_from_their_names() {
    for kind in TransmutationKind::all_variants() {
        let name = kind.to_string();
        assert_eq!(TransmutationKind::from_str(&name), Some(kind));
    }
    assert_eq!(TransmutationKind::from_str("rot13"), None);
}

#[test]
fn supported_kinds_are_listed() {
    assert_eq!(
        stringify_possible_transmutations(),
        "[lowercase, uppercase, no-spaces, slugify, camelcase, reverse-talk]"
    );
}

#[test]
fn arguments_select_the_kind() {
    let args: Vec<String> = vec!["prog".into(), "slugify".into()];
    assert_eq!(parse_args(&args).unwrap(), TransmutationKind::Slugify);

    let none: Vec<String> = vec!["prog".into()];
    let err = parse_args(&none).unwrap_err();
    assert!(err.message().contains("provide transmutation kind"));

    let bad: Vec<String> = vec!["prog".into(), "rot13".into()];
    let err = parse_args(&bad).unwrap_err();
    assert!(err.message().contains("rot13"));
}
