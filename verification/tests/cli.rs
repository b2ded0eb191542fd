use audiodsp::cli::{parse_args, parse_num, Config, ParseError};
use audiodsp::dsp::{Coefficient, Effect};

fn coefficient(text: &str) -> Coefficient {
    Coefficient::from_literal(text).expect("a floating-point literal")
}

#[test]
fn parses_two_paths_with_no_effects() {
    let args: Vec<String> = vec!["in.wav".into(), "out.wav".into()];

    let config = parse_args(&args).expect("well-formed args should parse");

    assert_eq!(
        config,
        Config {
            input: "in.wav".into(),
            output: "out.wav".into(),
            effects: vec![],
        }
    );
}

#[test]
fn parses_gain_effect() {
    let args: Vec<String> = vec![
        "in.wav".into(),
        "out.wav".into(),
        "gain".into(),
        "2.0".into(),
    ];

    let config = parse_args(&args).expect("well-formed args should parse");

    assert_eq!(
        config,
        Config {
            input: "in.wav".into(),
            output: "out.wav".into(),
            effects: vec![Effect::Gain {
                factor: coefficient("2.0")
            }],
        }
    );
}

#[test]
fn parses_echo_effect() {
    let args: Vec<String> = vec![
        "in.wav".into(),
        "out.wav".into(),
        "echo".into(),
        "2".into(),
        "0.4".into(),
    ];

    let config = parse_args(&args).expect("well-formed args should parse");

    assert_eq!(
        config,
        Config {
            input: "in.wav".into(),
            output: "out.wav".into(),
            effects: vec![Effect::Echo {
                delay: 2,
                factor: coefficient("0.4")
            }],
        }
    );
}

#[test]
fn parses_lowpass_effect() {
    let args: Vec<String> = vec![
        "in.wav".into(),
        "out.wav".into(),
        "lowpass".into(),
        "0.4".into(),
    ];

    let config = parse_args(&args).expect("well-formed args should parse");

    assert_eq!(
        config,
        Config {
            input: "in.wav".into(),
            output: "out.wav".into(),
            effects: vec![Effect::LowPass {
                alpha: coefficient("0.4")
            }],
        }
    );
}

#[test]
fn parses_several_effects_in_order() {
    let args: Vec<String> = vec![
        "in.wav".into(),
        "out.wav".into(),
        "lowpass".into(),
        "0.4".into(),
        "echo".into(),
        "2".into(),
        "0.4".into(),
        "gain".into(),
        "2.0".into(),
    ];

    let config = parse_args(&args).expect("well-formed args should parse");

    assert_eq!(
        config,
        Config {
            input: "in.wav".into(),
            output: "out.wav".into(),
            effects: vec![
                Effect::LowPass {
                    alpha: coefficient("0.4")
                },
                Effect::Echo {
                    delay: 2,
                    factor: coefficient("0.4")
                },
                Effect::Gain {
                    factor: coefficient("2.0")
                }
            ],
        }
    );
}

#[test]
fn no_arg_returns_missing_input() {
    let args: Vec<String> = vec![];

    assert_eq!(parse_args(&args).unwrap_err(), ParseError::MissingInput);
}

#[test]
fn one_arg_returns_missing_output() {
    let args: Vec<String> = vec!["in.wav".into()];

    assert_eq!(parse_args(&args).unwrap_err(), ParseError::MissingOutput);
}

#[test]
fn unknown_effect_returns_unknown_effect() {
    let args: Vec<String> = vec!["in.wav".into(), "out.wav".into(), "not-an-effect".into()];

    assert_eq!(
        parse_args(&args).unwrap_err(),
        ParseError::UnknownEffect("not-an-effect".into())
    );
}

#[test]
fn gain_without_param_returns_missing_param() {
    let args: Vec<String> = vec!["in.wav".into(), "out.wav".into(), "gain".into()];

    assert_eq!(
        parse_args(&args).unwrap_err(),
        ParseError::MissingParam("gain".into())
    );
}

#[test]
fn echo_with_one_param_returns_missing_param() {
    let args: Vec<String> = vec!["in.wav".into(), "out.wav".into(), "echo".into(), "2".into()];

    assert_eq!(
        parse_args(&args).unwrap_err(),
        ParseError::MissingParam("echo".into())
    );
}

#[test]
fn lowpass_without_param_returns_missing_param() {
    let args: Vec<String> = vec!["in.wav".into(), "out.wav".into(), "lowpass".into()];

    assert_eq!(
        parse_args(&args).unwrap_err(),
        ParseError::MissingParam("lowpass".into())
    );
}

#[test]
fn gain_with_non_numeric_param_returns_invalid_number() {
    let args: Vec<String> = vec![
        "in.wav".into(),
        "out.wav".into(),
        "gain".into(),
        "not-a-number".into(),
        "0.4".into(),
    ];

    assert_eq!(
        parse_args(&args).unwrap_err(),
        ParseError::InvalidNumber("not-a-number".into())
    );
}

#[test]
fn out_of_domain_numeric_param_returns_invalid_number() {
    let args: Vec<String> = vec![
        "in.wav".into(),
        "out.wav".into(),
        "echo".into(),
        "1.5".into(),
        "0.4".into(),
    ];

    assert_eq!(
        parse_args(&args).unwrap_err(),
        ParseError::InvalidNumber("1.5".into())
    );
}

#[test]
fn echo_with_bad_delay_and_no_factor_reports_the_delay() {
    let args: Vec<String> = vec!["in.wav".into(), "out.wav".into(), "echo".into(), "x".into()];

    assert_eq!(
        parse_args(&args).unwrap_err(),
        ParseError::InvalidNumber("x".into())
    );
}

#[test]
fn echo_with_bad_factor_reports_the_factor() {
    let args: Vec<String> = vec![
        "in.wav".into(),
        "out.wav".into(),
        "echo".into(),
        "3".into(),
        "half".into(),
    ];

    assert_eq!(
        parse_args(&args).unwrap_err(),
        ParseError::InvalidNumber("half".into())
    );
}

#[test]
fn first_error_wins_over_later_ones() {
    let args: Vec<String> = vec![
        "in.wav".into(),
        "out.wav".into(),
        "gain".into(),
        "2".into(),
        "reverb".into(),
        "gain".into(),
    ];

    assert_eq!(
        parse_args(&args).unwrap_err(),
        ParseError::UnknownEffect("reverb".into())
    );
}

#[test]
fn effect_names_are_case_sensitive() {
    let args: Vec<String> = vec!["in.wav".into(), "out.wav".into(), "Gain".into(), "2".into()];

    assert_eq!(
        parse_args(&args).unwrap_err(),
        ParseError::UnknownEffect("Gain".into())
    );
}

#[test]
fn concatenated_effect_lists_give_concatenated_effects() {
    let first: Vec<String> = vec!["in.wav".into(), "out.wav".into(), "gain".into(), "3".into()];
    let second: Vec<String> = vec![
        "in.wav".into(),
        "out.wav".into(),
        "echo".into(),
        "4".into(),
        "0.25".into(),
    ];
    let mut both = first.clone();
    both.extend(second[2..].iter().cloned());

    let mut expected = parse_args(&first).unwrap().effects;
    expected.extend(parse_args(&second).unwrap().effects);

    assert_eq!(parse_args(&both).unwrap().effects, expected);
}

#[test]
fn parse_num_reads_unsigned_integers() {
    assert_eq!(parse_num("0"), Ok(0));
    assert_eq!(parse_num("+7"), Ok(7));
    assert_eq!(parse_num("0042"), Ok(42));
    assert_eq!(parse_num(&usize::MAX.to_string()), Ok(usize::MAX));
    for token in ["0", "+7", "0042", "123456"] {
        assert_eq!(parse_num(token), Ok(token.parse::<usize>().unwrap()));
    }
}

#[test]
fn parse_num_refuses_what_is_not_an_unsigned_integer() {
    for token in ["", "+", "-1", "-0", "1.5", " 1", "1 ", "1_000", "0x10", "18446744073709551616"] {
        assert_eq!(
            parse_num(token),
            Err(ParseError::InvalidNumber(token.into())),
            "token {token:?}"
        );
        assert!(token.parse::<usize>().is_err(), "std disagrees on {token:?}");
    }
}

#[test]
fn messages_name_the_offending_word() {
    assert_eq!(ParseError::MissingInput.message(), "the input is missing");
    assert_eq!(ParseError::MissingOutput.message(), "the output is missing");
    assert_eq!(
        ParseError::UnknownEffect("reverb".into()).message(),
        "unknown effect: 'reverb'"
    );
    assert_eq!(
        ParseError::MissingParam("gain".into()).message(),
        "missing param for 'gain'"
    );
    assert_eq!(
        ParseError::InvalidNumber("x1".into()).message(),
        "invalid number: 'x1'"
    );
}
