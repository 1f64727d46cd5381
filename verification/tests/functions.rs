use poster::functions::{
    evaluate, evaluate_with, parse, FunctionIdentifier, ParseError, Sample, RANDOM_LIMIT,
};

fn sample(seconds: u64, high: u64, low: u64) -> Sample {
    Sample { seconds, high, low }
}

#[test]
fn parses_builtin_names() {
    for (text, identifier) in [
        ("timestamp", FunctionIdentifier::Timestamp),
        ("timestamp()", FunctionIdentifier::Timestamp),
        ("random", FunctionIdentifier::Random),
        ("random()", FunctionIdentifier::Random),
        ("uuid", FunctionIdentifier::Uuid),
        ("uuid()", FunctionIdentifier::Uuid),
    ] {
        let spec = parse(text).unwrap();
        assert_eq!(spec.identifier, identifier);
        assert!(spec.arguments.is_empty());
    }
}

#[test]
fn parses_arguments() {
    let spec = parse("random(1,100)").unwrap();
    assert_eq!(spec.identifier, FunctionIdentifier::Random);
    assert_eq!(spec.arguments, vec!["1".to_string(), "100".to_string()]);
    let spec = parse("random( 1 , ,x)").unwrap();
    assert_eq!(spec.arguments, vec![" 1 ".to_string(), " ".to_string(), "x".to_string()]);
    let spec = parse("uuid(,)").unwrap();
    assert_eq!(spec.arguments, vec!["".to_string(), "".to_string()]);
    let spec = parse("timestamp(a)").unwrap();
    assert_eq!(spec.arguments, vec!["a".to_string()]);
}

#[test]
fn unknown_name_is_an_error() {
    for text in ["", "now", "Timestamp", "timestamp ", " timestamp", "time stamp()", "()", "rand(1)"] {
        assert_eq!(parse(text).unwrap_err(), ParseError::UnknownFunction);
    }
}

#[test]
fn wrong_brackets_are_an_error() {
    for text in [
        "timestamp(",
        "timestamp)",
        "timestamp())",
        "timestamp(()",
        "timestamp()x",
        "timestamp(a)(b)",
        "timestamp(a(b))",
        ")timestamp(",
        "(",
        ")",
        "nothing(",
    ] {
        assert_eq!(parse(text).unwrap_err(), ParseError::Malformed);
    }
}

#[test]
fn timestamp_is_the_clock_in_decimal() {
    assert_eq!(evaluate_with(FunctionIdentifier::Timestamp, &sample(0, 7, 9)), "0");
    assert_eq!(evaluate_with(FunctionIdentifier::Timestamp, &sample(1700000000, 7, 9)), "1700000000");
    assert_eq!(
        evaluate_with(FunctionIdentifier::Timestamp, &sample(u64::MAX, 0, 0)),
        "18446744073709551615"
    );
}

#[test]
fn random_stays_below_its_limit() {
    assert_eq!(RANDOM_LIMIT, 2147483647);
    assert_eq!(evaluate_with(FunctionIdentifier::Random, &sample(0, 0, 0)), "0");
    assert_eq!(evaluate_with(FunctionIdentifier::Random, &sample(0, 2147483646, 0)), "2147483646");
    assert_eq!(evaluate_with(FunctionIdentifier::Random, &sample(0, 2147483647, 0)), "0");
    assert_eq!(evaluate_with(FunctionIdentifier::Random, &sample(0, 2147483657, 5)), "10");
    assert_eq!(evaluate_with(FunctionIdentifier::Random, &sample(0, u64::MAX, 5)), "3");
}

#[test]
fn uuid_has_version_and_variant() {
    assert_eq!(
        evaluate_with(FunctionIdentifier::Uuid, &sample(0, 0, 0)),
        "00000000-0000-4000-8000-000000000000"
    );
    assert_eq!(
        evaluate_with(FunctionIdentifier::Uuid, &sample(0, u64::MAX, u64::MAX)),
        "ffffffff-ffff-4fff-bfff-ffffffffffff"
    );
    assert_eq!(
        evaluate_with(FunctionIdentifier::Uuid, &sample(5, 0x0123456789abcdef, 0xfedcba9876543210)),
        "01234567-89ab-4def-bedc-ba9876543210"
    );
    assert_eq!(
        evaluate_with(FunctionIdentifier::Uuid, &sample(5, 0, 0x1000_0000_0000_0000)),
        "00000000-0000-4000-9000-000000000000"
    );
}

#[test]
fn evaluate_reads_the_machine() {
    let now: u64 = evaluate(FunctionIdentifier::Timestamp).parse().unwrap();
    assert!(now > 1_600_000_000);
    let random: u64 = evaluate(FunctionIdentifier::Random).parse().unwrap();
    assert!(random < RANDOM_LIMIT);
    let id = evaluate(FunctionIdentifier::Uuid);
    assert_eq!(id.len(), 36);
    for (i, c) in id.chars().enumerate() {
        match i {
            8 | 13 | 18 | 23 => assert_eq!(c, '-'),
            14 => assert_eq!(c, '4'),
            19 => assert!(matches!(c, '8' | '9' | 'a' | 'b')),
            _ => assert!(c.is_ascii_digit() || ('a'..='f').contains(&c)),
        }
    }
    assert_ne!(evaluate(FunctionIdentifier::Uuid), id);
}
