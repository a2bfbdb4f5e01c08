use build_critical_path::error::{
    Category, ClassifiedError, ComputedOptionsError, EnumWithTypeOption, Error1, Error2, Error3,
    ErrorTag, ErrorType, ErrorWithSpelledOutCategory, GenericError, MaybeWatchmanError,
    NoAttrsEnum, NoAttrsStruct, TaggedError, WatchmanError, WithField,
};

#[test]
fn test_derive_error1() {
    let e: ClassifiedError = Error1.into_error();
    assert_eq!(e.get_category(), Some(Category::User));

    let a: anyhow::Error = e.into_anyhow();
    let e: ClassifiedError = ClassifiedError::from_anyhow(a);
    assert_eq!(e.get_category(), Some(Category::User));
}

#[test]
fn test_derive_error2() {
    let e: ClassifiedError = Error2((), ()).into_error();
    assert_eq!(e.get_category(), Some(Category::Infra));
    assert_eq!(e.get_error_type(), Some(ErrorType::ActionCommandFailure));
}

#[test]
fn test_derive_error3() {
    let e: ClassifiedError = Error3::VariantA.into_error();
    assert_eq!(e.get_category(), Some(Category::User));
    assert_eq!(e.get_error_type(), Some(ErrorType::DaemonIsBusy));

    let e: ClassifiedError = Error3::VariantB.into_error();
    assert_eq!(e.get_category(), Some(Category::Infra));
    assert_eq!(e.get_error_type(), None);

    let e: ClassifiedError = Error3::VariantC.into_error();
    assert_eq!(e.get_category(), None);
    assert_eq!(e.get_error_type(), None);
}

#[test]
fn test_generic_error() {
    let _e: ClassifiedError = GenericError(42).into_error();
}

#[test]
fn test_with_field() {
    let _e: ClassifiedError = WithField { x: 42 }.into_error();
}

#[test]
fn test_source_location_no_attrs() {
    let e: ClassifiedError = NoAttrsStruct.into_error();
    assert_eq!(
        e.source_location(),
        Some("buck2_error/src/derive_tests.rs::NoAttrsStruct")
    );
    let e: ClassifiedError = NoAttrsEnum::Variant.into_error();
    assert_eq!(
        e.source_location(),
        Some("buck2_error/src/derive_tests.rs::NoAttrsEnum::Variant")
    );
}

#[test]
fn test_enum_with_type_option() {
    let e: ClassifiedError = EnumWithTypeOption::Variant.into_error();
    assert_eq!(e.get_category(), Some(Category::User));
    assert_eq!(
        e.source_location(),
        Some("buck2_error/src/derive_tests.rs::EnumWithTypeOption::Variant"),
    );
}

#[test]
fn test_error_with_spelled_out_category() {
    let e: ClassifiedError = ErrorWithSpelledOutCategory.into_error();
    assert_eq!(e.get_category(), Some(Category::User));
}

#[test]
fn test_computed_options() {
    let e: ClassifiedError = ComputedOptionsError::A.into_error();
    assert_eq!(e.get_category(), Some(Category::User));
    assert_eq!(e.get_error_type(), Some(ErrorType::Watchman));

    let e: ClassifiedError = ComputedOptionsError::B(false).into_error();
    assert_eq!(e.get_category(), Some(Category::Infra));
    assert_eq!(e.get_error_type(), Some(ErrorType::DaemonIsBusy));

    let e: ClassifiedError = ComputedOptionsError::B(true).into_error();
    assert_eq!(e.get_category(), Some(Category::Infra));
    assert_eq!(e.get_error_type(), None);
}

#[test]
fn classification_and_message_survive_the_anyhow_boundary() {
    let e = Error2((), ()).into_error();
    let back = ClassifiedError::from_anyhow(e.into_anyhow());
    assert_eq!(back.get_category(), Some(Category::Infra));
    assert_eq!(back.get_error_type(), Some(ErrorType::ActionCommandFailure));
    assert_eq!(back.message, "foo");
    // Location and tags never travel through the boundary.
    assert_eq!(back.source_location(), None);
    assert!(back.get_tags().is_empty());
}

#[test]
fn foreign_anyhow_errors_decode_to_unclassified() {
    let a = anyhow::Error::msg("not a carried classification");
    let e = ClassifiedError::from_anyhow(a);
    assert_eq!(e.get_category(), None);
    assert_eq!(e.get_error_type(), None);
}

#[test]
fn decode_reads_classification_off_the_prefix() {
    let e = ClassifiedError::decode("UDrest of the message");
    assert_eq!(e.get_category(), Some(Category::User));
    assert_eq!(e.get_error_type(), Some(ErrorType::DaemonIsBusy));
    assert_eq!(e.message, "rest of the message");
    let e = ClassifiedError::decode("x");
    assert_eq!(e.get_category(), None);
    assert_eq!(e.message, "x");
}

#[test]
fn test_root_is_applied_conditionally() {
    let e: ClassifiedError = MaybeWatchmanError::Bare.into_error();
    assert_eq!(e.get_error_type(), Some(ErrorType::DaemonIsBusy));

    let e: ClassifiedError = MaybeWatchmanError::Wrapped(WatchmanError).into_error();
    assert_eq!(e.get_error_type(), Some(ErrorType::Watchman));
}

#[test]
fn test_error_tags() {
    let a: ClassifiedError = TaggedError::A.into_error();
    assert_eq!(
        &a.get_tags(),
        &[
            ErrorTag::StarlarkFail,
            ErrorTag::WatchmanTimeout
        ]
    );
    let b: ClassifiedError = TaggedError::B.into_error();
    assert_eq!(&b.get_tags(), &[ErrorTag::WatchmanTimeout]);
}
