use learnable::catalog::HoleType;

#[test]
fn empty_text_is_never_valid() {
    for kind in [HoleType::Unit, HoleType::Any, HoleType::Number, HoleType::String, HoleType::Bool,
        HoleType::Comparitor, HoleType::Variable, HoleType::Type("T".to_string())] {
        assert!(!kind.valid_input(""));
    }
}

#[test]
fn numbers() {
    for ok in ["0", "42", "+7", "-7", "1.5", ".5", "5.", "1e10", "2.5E-3", "inf", "-Infinity", "NaN",
        "340282366920938463463374607431768211456"] {
        assert!(HoleType::Number.valid_input(ok), "{ok}");
    }
    for bad in ["abc", "1.2.3", "e5", "1e", "1e+", ".", "+", " 1", "1 ", "0x10", "infinit", "--1"] {
        assert!(!HoleType::Number.valid_input(bad), "{bad}");
    }
}

#[test]
fn bools_and_comparitors() {
    assert!(HoleType::Bool.valid_input("true"));
    assert!(HoleType::Bool.valid_input("false"));
    assert!(!HoleType::Bool.valid_input("True"));
    for ok in [">", "<", "==", "!="] {
        assert!(HoleType::Comparitor.valid_input(ok));
    }
    for bad in [">=", "=", "!", "<>"] {
        assert!(!HoleType::Comparitor.valid_input(bad));
    }
}

#[test]
fn variables() {
    for ok in ["x", "_tmp", "Value2", "a-b"] {
        assert!(HoleType::Variable.valid_input(ok));
    }
    for bad in ["2x", "a b", "a\tb", "x\u{3000}", "-a"] {
        assert!(!HoleType::Variable.valid_input(bad));
    }
}

#[test]
fn other_kinds_take_any_text() {
    assert!(HoleType::Any.valid_input("anything at all"));
    assert!(HoleType::String.valid_input(" "));
    assert!(HoleType::Unit.valid_input("x"));
}

#[test]
fn derived_types() {
    assert_eq!(HoleType::get_derived_type("12"), HoleType::Number);
    assert_eq!(HoleType::get_derived_type("nan"), HoleType::Number);
    assert_eq!(HoleType::get_derived_type("true"), HoleType::Bool);
    assert_eq!(HoleType::get_derived_type("!="), HoleType::Comparitor);
    assert_eq!(HoleType::get_derived_type("count"), HoleType::Variable);
    assert_eq!(HoleType::get_derived_type("hello world"), HoleType::Any);
    assert_eq!(HoleType::get_derived_type(""), HoleType::Any);
}
