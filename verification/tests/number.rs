use q9::number::{is_literal, Number};

#[test]
fn plain_numbers_are_literals() {
    for text in ["0", "2", "007", "2.5", "2.", ".5", "1e3", "1E3", "1e+3", "1.5e-7", ".5e1", "5.e1"] {
        assert!(is_literal(text), "{text}");
    }
}

#[test]
fn signs_are_part_of_a_literal() {
    for text in ["+1", "-1", "-0.5", "+.5", "-2.", "-1e-1", "+inf", "-nan", "-Infinity"] {
        assert!(is_literal(text), "{text}");
    }
}

#[test]
fn special_values_are_literals_in_any_case() {
    for text in ["inf", "INF", "Inf", "iNf", "infinity", "INFINITY", "Infinity", "nan", "NaN", "NAN"] {
        assert!(is_literal(text), "{text}");
    }
}

#[test]
fn other_texts_are_no_literals() {
    for text in [
        "", " ", ".", "+", "-", "+.", "e", "e5", "1e", "1e+", "1e-", ".e1", "1.2.3", "1..2", "1 ",
        " 1", "1_000", "0x10", "1f", "12abc", "--1", "+-1", "1e1.5", "1e1e1", "infinit", "in",
        "infinityy", "nana", "na", "i", "1inf", "inf1", "١",
    ] {
        assert!(!is_literal(text), "{text}");
    }
}

#[test]
fn literal_keeps_its_text() {
    let n = Number::parse("2.50").unwrap();
    assert_eq!(n.as_str(), "2.50");
    assert_eq!(n.as_str().parse::<f64>().unwrap(), 2.5);
    assert_eq!(n.clone(), n);
    assert_eq!(Number::parse("1.2.3"), None);
    assert_eq!(Number::parse(""), None);
}

#[test]
fn literals_are_equal_when_their_texts_are() {
    assert_eq!(Number::parse("2"), Number::parse("2"));
    assert_ne!(Number::parse("2"), Number::parse("2.0"));
}

/// The texts of up to `len` characters over `alphabet`.
fn texts(alphabet: &[char], len: usize) -> Vec<String> {
    let mut all = vec![String::new()];
    let mut last = vec![String::new()];
    for _ in 0..len {
        let mut next = Vec::new();
        for text in &last {
            for c in alphabet {
                let mut longer = text.clone();
                longer.push(*c);
                next.push(longer);
            }
        }
        all.extend(next.iter().cloned());
        last = next;
    }
    all
}

#[test]
fn literals_are_what_float_parsing_accepts() {
    let alphabet = ['0', '7', '.', 'e', 'E', '+', '-', ' ', 'x'];
    for text in texts(&alphabet, 6) {
        assert_eq!(is_literal(&text), text.parse::<f64>().is_ok(), "{text:?}");
    }
}

#[test]
fn special_values_are_what_float_parsing_accepts() {
    let alphabet = ['i', 'n', 'f', 'a', 'N', 'I', '-', '1'];
    for text in texts(&alphabet, 5) {
        assert_eq!(is_literal(&text), text.parse::<f64>().is_ok(), "{text:?}");
    }
    let long = ['i', 'n', 'f', 't', 'y', 'Y'];
    for tail in texts(&long, 5) {
        for head in ["inf", "-inf", "+Inf", "in"] {
            let text = format!("{head}{tail}");
            assert_eq!(is_literal(&text), text.parse::<f64>().is_ok(), "{text:?}");
        }
    }
}

#[test]
fn every_literal_has_a_float_value() {
    for text in ["0", "2.5", "-1e3", ".5", "5.", "inf", "-infinity", "NaN", "1e400", "1e-400"] {
        let n = Number::parse(text).unwrap();
        assert!(n.as_str().parse::<f64>().is_ok(), "{text}");
    }
}
