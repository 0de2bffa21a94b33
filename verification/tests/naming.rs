use ts_gen::error::Error;
use ts_gen::naming::{parse_docs, raw_name_to_ts_field, to_ts_ident};

#[test]
fn bare_names_pass_through() {
    assert_eq!(raw_name_to_ts_field("user_id".to_owned()), "user_id");
    assert_eq!(raw_name_to_ts_field("$meta".to_owned()), "$meta");
    assert_eq!(raw_name_to_ts_field("x9".to_owned()), "x9");
}

#[test]
fn special_characters_are_quoted() {
    assert_eq!(raw_name_to_ts_field("weird-key".to_owned()), "\"weird-key\"");
    assert_eq!(raw_name_to_ts_field("a b".to_owned()), "\"a b\"");
}

#[test]
fn leading_digit_is_quoted() {
    assert_eq!(raw_name_to_ts_field("9lives".to_owned()), "\"9lives\"");
}

#[test]
fn raw_identifier_prefix_is_stripped() {
    assert_eq!(to_ts_ident("r#type"), "type");
    assert_eq!(to_ts_ident("plain"), "plain");
}

#[test]
fn docs_format_as_jsdoc() {
    let lines = vec![" A user.".to_owned(), "".to_owned(), " Details.  ".to_owned()];
    assert_eq!(parse_docs(&lines), "/**\n * A user.\n *\n * Details.\n */\n");
}

#[test]
fn no_doc_lines_give_empty_docs() {
    assert_eq!(parse_docs(&Vec::new()), "");
}

#[test]
fn error_messages_name_their_cause() {
    assert_eq!(
        Error::CannotBeExported("number".to_owned()).message(),
        "this type cannot be exported (number)"
    );
    assert_eq!(
        Error::CannotBeDeclared("[number]".to_owned()).message(),
        "[number] cannot be declared"
    );
    assert_eq!(
        Error::ManifestDirNotSet.message(),
        "the environment variable CARGO_MANIFEST_DIR is not set"
    );
    assert_eq!(
        Error::InvalidPath("../x".to_owned()).message(),
        "invalid output path: ../x"
    );
}
