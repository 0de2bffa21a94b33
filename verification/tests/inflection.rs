use ts_gen::inflection::Inflection;

#[test]
fn lower_basic() {
    assert_eq!(Inflection::Lower.apply("UserId"), "userid");
}

#[test]
fn upper_basic() {
    assert_eq!(Inflection::Upper.apply("UserId"), "USERID");
}

#[test]
fn camel_basic() {
    assert_eq!(Inflection::Camel.apply("user_id"), "userId");
}

#[test]
fn snake_basic() {
    assert_eq!(Inflection::Snake.apply("UserId"), "user_id");
}

#[test]
fn pascal_basic() {
    assert_eq!(Inflection::Pascal.apply("user_id"), "UserId");
}

#[test]
fn screaming_snake_basic() {
    assert_eq!(Inflection::ScreamingSnake.apply("userId"), "USER_ID");
}

#[test]
fn kebab_basic() {
    assert_eq!(Inflection::Kebab.apply("userId"), "user-id");
}

#[test]
fn screaming_kebab_basic() {
    assert_eq!(Inflection::ScreamingKebab.apply("userId"), "USER-ID");
}

#[test]
fn apply_is_deterministic() {
    let a = Inflection::Camel.apply("some_field_name");
    let b = Inflection::Camel.apply("some_field_name");
    assert_eq!(a, b);
}

#[test]
fn lower_idempotent() {
    let once = Inflection::Lower.apply("MixedCase");
    assert_eq!(Inflection::Lower.apply(&once), once);
}

#[test]
fn upper_idempotent() {
    let once = Inflection::Upper.apply("MixedCase");
    assert_eq!(Inflection::Upper.apply(&once), once);
}

#[test]
fn snake_idempotent() {
    let once = Inflection::Snake.apply("MixedCase");
    assert_eq!(Inflection::Snake.apply(&once), once);
}

#[test]
fn pascal_idempotent() {
    let once = Inflection::Pascal.apply("mixed_case");
    assert_eq!(Inflection::Pascal.apply(&once), once);
}

#[test]
fn camel_idempotent() {
    let once = Inflection::Camel.apply("mixed_case");
    assert_eq!(Inflection::Camel.apply(&once), once);
}

#[test]
fn kebab_idempotent() {
    let once = Inflection::Kebab.apply("MixedCase");
    assert_eq!(Inflection::Kebab.apply(&once), once);
}

#[test]
fn screaming_snake_not_idempotent() {
    let once = Inflection::ScreamingSnake.apply("ab");
    assert_eq!(once, "AB");
    assert_eq!(Inflection::ScreamingSnake.apply(&once), "A_B");
}

#[test]
fn pascal_snake_round_trip() {
    let snake = Inflection::Snake.apply("UserId");
    assert_eq!(snake, "user_id");
    assert_eq!(Inflection::Pascal.apply(&snake), "UserId");
}

#[test]
fn pascal_snake_pascal_preserves_segmentation() {
    let p = Inflection::Pascal.apply("some_longer_name");
    let s = Inflection::Snake.apply(&p);
    assert_eq!(Inflection::Pascal.apply(&s), p);
}

#[test]
fn default_is_camel() {
    assert_eq!(Inflection::default(), Inflection::Camel);
}
