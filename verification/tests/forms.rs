use newsletter::routes::subscription::parse_form_data;
use newsletter::routes::subscription::FormError;

#[test]
fn plus_decodes_to_space() {
    let form = parse_form_data("name=a+b&email=c".as_bytes()).unwrap();
    assert_eq!(form.name, "a b");
    assert_eq!(form.email, "c");
}

#[test]
fn percent_sequences_decode() {
    let form = parse_form_data("name=%41%6d%79&email=x%40y.z".as_bytes()).unwrap();
    assert_eq!(form.name, "Amy");
    assert_eq!(form.email, "x@y.z");
}

#[test]
fn broken_percent_sequence_stays_literal() {
    let form = parse_form_data("name=%zz%4&email=a%".as_bytes()).unwrap();
    assert_eq!(form.name, "%zz%4");
    assert_eq!(form.email, "a%");
}

#[test]
fn unknown_keys_are_ignored() {
    let form = parse_form_data("extra=1&name=a&email=b&more=2".as_bytes()).unwrap();
    assert_eq!(form.name, "a");
    assert_eq!(form.email, "b");
}

#[test]
fn empty_pieces_are_skipped() {
    let form = parse_form_data("&&name=a&&email=b&".as_bytes()).unwrap();
    assert_eq!(form.name, "a");
    assert_eq!(form.email, "b");
}

#[test]
fn pair_without_equals_has_empty_value() {
    let form = parse_form_data("name&email=b".as_bytes()).unwrap();
    assert_eq!(form.name, "");
    assert_eq!(form.email, "b");
}

#[test]
fn percent_encoded_key_is_recognized() {
    let form = parse_form_data("%6eame=a&email=b".as_bytes()).unwrap();
    assert_eq!(form.name, "a");
}

#[test]
fn missing_fields_are_told_apart() {
    assert_eq!(
        parse_form_data("name=a".as_bytes()).unwrap_err(),
        FormError::MissingEmail
    );
    assert_eq!(
        parse_form_data("email=a".as_bytes()).unwrap_err(),
        FormError::MissingName
    );
    assert_eq!(
        parse_form_data("".as_bytes()).unwrap_err(),
        FormError::MissingBoth
    );
    assert_eq!(
        parse_form_data("unrelated=1".as_bytes()).unwrap_err(),
        FormError::MissingBoth
    );
}

#[test]
fn repeated_fields_are_rejected() {
    assert_eq!(
        parse_form_data("name=a&name=b&email=c".as_bytes()).unwrap_err(),
        FormError::DuplicateName
    );
    assert_eq!(
        parse_form_data("email=a&name=b&email=c".as_bytes()).unwrap_err(),
        FormError::DuplicateEmail
    );
}

#[test]
fn values_must_be_valid_utf8() {
    assert_eq!(
        parse_form_data("name=%ff&email=a".as_bytes()).unwrap_err(),
        FormError::InvalidUtf8
    );
    // A well-formed multi-byte sequence is accepted.
    let form = parse_form_data("name=caf%c3%a9&email=a".as_bytes()).unwrap();
    assert_eq!(form.name, "café");
}
