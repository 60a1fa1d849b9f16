use bredis::errors::DatabaseError;

#[test]
fn message_of_each_failure() {
    assert_eq!(
        DatabaseError::InitialFailed("no space".to_string()).message(),
        "Failed to initialize database: no space"
    );
    assert_eq!(
        DatabaseError::InvalidValueType("Value is not an integer".to_string()).message(),
        "Invalid value type: Value is not an integer"
    );
    assert_eq!(
        DatabaseError::ValueNotFound("my_key".to_string()).message(),
        "Value not found for key: my_key"
    );
    assert_eq!(
        DatabaseError::InternalError("boom".to_string()).message(),
        "Internal error: boom"
    );
}
