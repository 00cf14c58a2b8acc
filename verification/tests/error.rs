use amqp_message::error::AmqpError;

#[test]
fn shape_violations_are_told_from_other_errors() {
    assert!(AmqpError::MapRequired.is_shape_violation());
    assert!(AmqpError::ListRequired.is_shape_violation());
    assert!(AmqpError::KeyTypeRequired.is_shape_violation());
    assert!(!AmqpError::VariantConflict.is_shape_violation());
    assert!(!AmqpError::DecodeFailure.is_shape_violation());
    assert!(!AmqpError::IndexOutOfRange.is_shape_violation());
}

#[test]
fn every_error_has_its_own_status_and_none_is_zero() {
    let all = [
        AmqpError::MapRequired,
        AmqpError::ListRequired,
        AmqpError::KeyTypeRequired,
        AmqpError::VariantConflict,
        AmqpError::DecodeFailure,
        AmqpError::IndexOutOfRange,
    ];
    let codes: Vec<i32> = all.iter().map(|e| e.code()).collect();
    assert_eq!(codes, vec![1, 2, 3, 4, 5, 6]);
}
