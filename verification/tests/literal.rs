use audiodsp::dsp::Coefficient;

#[test]
fn coefficients_accept_what_std_parses_as_a_float() {
    for token in [
        "2", "2.0", "0.4", ".5", "5.", "-1", "+1.25", "1e5", "1E5", "1e-5", "2.5E+3", "007",
        "inf", "-inf", "+Infinity", "INFINITY", "NaN", "nan", "-nAn",
    ] {
        let c = Coefficient::from_literal(token);
        assert!(c.is_some(), "token {token:?}");
        assert!(token.parse::<f32>().is_ok(), "std disagrees on {token:?}");
        assert_eq!(c.unwrap().as_str(), token);
    }
}

#[test]
fn coefficients_refuse_what_std_refuses() {
    for token in [
        "", "+", "-", ".", "e5", "1e", "1e+", "1.2.3", " 1", "1 ", "1_0", "0x10", "half", "in",
        "infinit", "infinityy", "nana", "--1", "+-1", "1..", "..1", ".e1", "1,5",
    ] {
        assert!(Coefficient::from_literal(token).is_none(), "token {token:?}");
        assert!(token.parse::<f32>().is_err(), "std disagrees on {token:?}");
    }
}
