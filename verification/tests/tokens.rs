use colosseum::number::{is_number_token, Number};
use colosseum::token::{chars_of, is_whitespace_char, split_tokens};

fn texts(line: &str) -> Vec<String> {
    split_tokens(line)
}

#[test]
fn empty_line_has_no_tokens() {
    assert!(texts("").is_empty());
    assert!(texts("   \t\n ").is_empty());
}

#[test]
fn tokens_are_the_runs_between_whitespace() {
    assert_eq!(texts("1.0 2.0 3.0 ADD_FORCE_TO_BALL"), vec!["1.0", "2.0", "3.0", "ADD_FORCE_TO_BALL"]);
    assert_eq!(texts("  a\t\tb \n c  "), vec!["a", "b", "c"]);
    assert_eq!(texts("single"), vec!["single"]);
}

#[test]
fn tokens_agree_with_split_whitespace() {
    let lines = [
        "",
        " ",
        "a",
        " a",
        "a ",
        "a b",
        "a  b",
        "\u{2003}x\u{3000}y\u{85}z\u{a0}w",
        "no\u{200b}break",
        "tab\tnew\nline\rfeed\u{c}vt\u{b}end",
        "\u{1680}\u{2028}\u{2029}\u{202f}\u{205f}",
        "é ü  ß",
        "1e5 -2 +inf NaN STEP",
    ];
    for line in lines {
        let expected: Vec<String> = line.split_whitespace().map(|t| t.to_string()).collect();
        assert_eq!(split_tokens(line), expected, "line {:?}", line);
    }
}

#[test]
fn whitespace_agrees_with_std_on_every_char() {
    let mut n: u32 = 0;
    while n <= 0x10ffff {
        if let Some(c) = char::from_u32(n) {
            assert_eq!(is_whitespace_char(c), c.is_whitespace(), "U+{:04X}", n);
        }
        n += 1;
    }
}

#[test]
fn chars_of_gives_the_characters() {
    assert_eq!(chars_of("aé€"), vec!['a', 'é', '€']);
    assert!(chars_of("").is_empty());
}

#[test]
fn numbers_are_recognised() {
    for t in [
        "0", "1", "42", "1.", ".5", "1.5", "+1", "-1", "+.5", "-1.", "1e5", "1E5", "1e+5", "1e-5",
        "1.5e10", ".5e1", "1.e1", "inf", "+inf", "-inf", "INF", "Infinity", "infinity", "-INFINITY",
        "nan", "NaN", "-nan", "+NAN", "000", "0.000", "123456789012345678901234567890", "1e400",
    ] {
        assert!(is_number_token(t), "{:?}", t);
    }
}

#[test]
fn names_are_not_numbers() {
    for t in [
        "", "+", "-", ".", "+.", "e5", ".e5", "1e", "1e+", "1e-", "1.5.2", "--1", "+-1", "0x10",
        "1_000", "1f32", "infinit", "in", "na", "nano", "infinityy", "ADD_FORCE_TO_BALL", "STEP",
        "1 ", " 1", "1e5e5", "1e5.", "١", "１", "e", "E", "1,5", "i", "n",
    ] {
        assert!(!is_number_token(t), "{:?}", t);
    }
}

#[test]
fn numbers_agree_with_the_parser_of_floats() {
    let alphabet = ['0', '7', '+', '-', '.', 'e', 'E', 'i', 'n', 'f', 'a', 'N', 'x'];
    let mut tokens: Vec<String> = vec![String::new()];
    let mut done = 0;
    for _ in 0..4 {
        let end = tokens.len();
        for i in done..end {
            for c in alphabet {
                let mut t = tokens[i].clone();
                t.push(c);
                tokens.push(t);
            }
        }
        done = end;
    }
    for t in &tokens {
        assert_eq!(is_number_token(t), t.parse::<f32>().is_ok(), "{:?}", t);
    }
    for t in ["infinity", "INFINITY", "-Infinity", "infinit", "infinityx", "+nan", "1.25e-3"] {
        assert_eq!(is_number_token(t), t.parse::<f32>().is_ok(), "{:?}", t);
    }
}

#[test]
fn a_number_keeps_its_text() {
    let n = Number::parse("-1.5e3").unwrap();
    assert_eq!(n.as_str(), "-1.5e3");
    assert_eq!(n.as_str().parse::<f32>().unwrap(), -1500.0);
    assert!(Number::parse("STEP").is_none());
    assert!(Number::parse("").is_none());
}

#[test]
fn from_token_hands_a_name_back() {
    match Number::from_token("JUMP".to_string()) {
        Ok(_) => panic!("a name is no number"),
        Err(name) => assert_eq!(name, "JUMP"),
    }
    match Number::from_token("2.5".to_string()) {
        Ok(n) => assert_eq!(n.as_str(), "2.5"),
        Err(_) => panic!("a number is no name"),
    }
}
