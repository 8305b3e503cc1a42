use at_parser::parser::{parse, AtForm};
use at_parser::{Args, AtError};

fn name_and_form(line: &str) -> (&str, AtForm<'_>) {
    match parse(line) {
        Ok(parsed) => parsed,
        Err(e) => panic!("classification failed: {:?}", e),
    }
}

#[test]
fn test_suffix_is_test_form() {
    let (name, form) = name_and_form("CMD=?");
    assert_eq!(name, "CMD");
    assert!(matches!(form, AtForm::Test));
}

#[test]
fn test_form_wins_over_query_and_set() {
    let (name, form) = name_and_form("X=?");
    assert_eq!(name, "X");
    assert!(matches!(form, AtForm::Test));
}

#[test]
fn set_form_keeps_raw_arguments() {
    let (name, form) = name_and_form("X=1,2");
    assert_eq!(name, "X");
    match form {
        AtForm::SetArgs(args) => assert_eq!(args.raw, "1,2"),
        _ => panic!("expected a set form"),
    }
}

#[test]
fn query_suffix_is_query_form() {
    let (name, form) = name_and_form("AT+ECHO?");
    assert_eq!(name, "AT+ECHO");
    assert!(matches!(form, AtForm::Query));
}

#[test]
fn plain_line_is_exec_form() {
    let (name, form) = name_and_form("AT+ECHO");
    assert_eq!(name, "AT+ECHO");
    assert!(matches!(form, AtForm::Exec));
}

#[test]
fn set_splits_at_first_equals() {
    let (name, form) = name_and_form("A=b=c");
    assert_eq!(name, "A");
    match form {
        AtForm::SetArgs(args) => assert_eq!(args.raw, "b=c"),
        _ => panic!("expected a set form"),
    }
}

#[test]
fn set_with_question_mark_is_query() {
    let (name, form) = name_and_form("A=1?");
    assert_eq!(name, "A=1");
    assert!(matches!(form, AtForm::Query));
}

#[test]
fn empty_line_is_exec_of_empty_name() {
    let (name, form) = name_and_form("");
    assert_eq!(name, "");
    assert!(matches!(form, AtForm::Exec));
}

#[test]
fn set_with_empty_arguments() {
    let (name, form) = name_and_form("AT+X=");
    assert_eq!(name, "AT+X");
    match form {
        AtForm::SetArgs(args) => assert_eq!(args.raw, ""),
        _ => panic!("expected a set form"),
    }
}

#[test]
fn non_ascii_name_is_kept() {
    let (name, form) = name_and_form("AT+Ü=ä,ö");
    assert_eq!(name, "AT+Ü");
    match form {
        AtForm::SetArgs(args) => {
            assert_eq!(args.get(0), Some("ä"));
            assert_eq!(args.get(1), Some("ö"));
        }
        _ => panic!("expected a set form"),
    }
}

#[test]
fn arguments_by_index() {
    let args = Args { raw: "1,2,3" };
    assert_eq!(args.get(0), Some("1"));
    assert_eq!(args.get(1), Some("2"));
    assert_eq!(args.get(2), Some("3"));
    assert_eq!(args.get(3), None);
}

#[test]
fn arguments_empty_fields() {
    let args = Args { raw: "a,,b," };
    assert_eq!(args.get(0), Some("a"));
    assert_eq!(args.get(1), Some(""));
    assert_eq!(args.get(2), Some("b"));
    assert_eq!(args.get(3), Some(""));
    assert_eq!(args.get(4), None);
}

#[test]
fn arguments_of_empty_text() {
    let args = Args { raw: "" };
    assert_eq!(args.get(0), Some(""));
    assert_eq!(args.get(1), None);
}

#[test]
fn arguments_large_index() {
    let args = Args { raw: "9600" };
    assert_eq!(args.get(0), Some("9600"));
    assert_eq!(args.get(usize::MAX), None);
}

#[test]
fn error_kinds_compare() {
    assert_eq!(AtError::InvalidArgs, AtError::InvalidArgs);
    assert_ne!(AtError::UnknownCommand, AtError::NotSupported);
}
