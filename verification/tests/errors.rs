use licenseptium::error::{ErrorClass, ValidationError};

const ALL: [ValidationError; 9] = [
    ValidationError::IPAddressNotFound,
    ValidationError::BadIPVersion,
    ValidationError::MalformedKey,
    ValidationError::InvalidKey,
    ValidationError::DatabaseError,
    ValidationError::ReachedActivationLimit,
    ValidationError::MalformedChecksum,
    ValidationError::InvalidChecksum,
    ValidationError::ExpiredKey,
];

#[test]
fn names_are_the_variant_names() {
    let names: Vec<String> = ALL.iter().map(|e| e.name()).collect();
    assert_eq!(
        names,
        vec![
            "IPAddressNotFound",
            "BadIPVersion",
            "MalformedKey",
            "InvalidKey",
            "DatabaseError",
            "ReachedActivationLimit",
            "MalformedChecksum",
            "InvalidChecksum",
            "ExpiredKey",
        ]
    );
    for e in ALL {
        assert_eq!(e.name(), format!("{:?}", e));
    }
}

#[test]
fn messages_are_the_sentences_for_the_caller() {
    let messages: Vec<String> = ALL.iter().map(|e| e.message()).collect();
    assert_eq!(
        messages,
        vec![
            "You need an IP address to validate",
            "IPv4 must be used to validate",
            "License key format is not correct",
            "License key is invalid",
            "Internal database error, try again later",
            "License key has already reached the maximum allowed number of activations",
            "License checksum format is not correct",
            "License checksum is invalid",
            "License key has expired",
        ]
    );
}

#[test]
fn status_codes_follow_the_class() {
    let codes: Vec<u16> = ALL.iter().map(|e| e.status_code()).collect();
    assert_eq!(codes, vec![400, 400, 400, 403, 500, 403, 400, 403, 403]);
    for e in ALL {
        let expected = match e.class() {
            ErrorClass::ClientInput => 400,
            ErrorClass::Denial => 403,
            ErrorClass::Server => 500,
        };
        assert_eq!(e.status_code(), expected);
        assert_eq!(e.class().status_code(), expected);
    }
}

#[test]
fn classes_part_input_denial_and_store_failure() {
    let classes: Vec<ErrorClass> = ALL.iter().map(|e| e.class()).collect();
    assert_eq!(
        classes,
        vec![
            ErrorClass::ClientInput,
            ErrorClass::ClientInput,
            ErrorClass::ClientInput,
            ErrorClass::Denial,
            ErrorClass::Server,
            ErrorClass::Denial,
            ErrorClass::ClientInput,
            ErrorClass::Denial,
            ErrorClass::Denial,
        ]
    );
}

#[test]
fn only_a_store_failure_may_be_retried() {
    for e in ALL {
        assert_eq!(e.is_retryable(), e == ValidationError::DatabaseError);
    }
}

#[test]
fn error_response_holds_code_name_and_message() {
    let r = ValidationError::ReachedActivationLimit.error_response();
    assert_eq!(r.code, 403);
    assert_eq!(r.error, "ReachedActivationLimit");
    assert_eq!(
        r.message,
        "License key has already reached the maximum allowed number of activations"
    );
    let r = ValidationError::DatabaseError.error_response();
    assert_eq!(r.code, 500);
    assert_eq!(r.error, "DatabaseError");
    assert_eq!(r.message, "Internal database error, try again later");
    for e in ALL {
        let r = e.error_response();
        assert_eq!((r.code, r.error, r.message), (e.status_code(), e.name(), e.message()));
    }
}
