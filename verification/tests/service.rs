use bredis::errors::DatabaseError;
use bredis::http_server::models::{
    ApiResponse, DeleteKeysRequest, GetAllKeysQuery, GetResponse, IncrementRequest, IntOrString,
    SetRequest, SetTtlRequest,
};
use bredis::http_server::models::default_ttl;
use bredis::http_server::server::{info_response, Server};
use bredis::http_server::service::{
    counter_response, delete_keys_prefix, done_response, get_all_keys_response,
    get_by_key_response, get_ttl_response, set_key_value, Service,
};
use bredis::info::Info;
use bredis::storages::bredis::Bredis;
use bredis::storages::storage::Storage;
use bredis::storages::value::{StorageValue, ValueType};

fn text(value: &[u8]) -> StorageValue {
    StorageValue {
        value_type: ValueType::String,
        ttl: -1,
        value: value.to_vec(),
    }
}

fn number(value: &[u8]) -> StorageValue {
    StorageValue {
        value_type: ValueType::Integer,
        ttl: -1,
        value: value.to_vec(),
    }
}

fn service() -> Service<Bredis> {
    let mut db = Bredis::open();
    db.set(b"key1", &text(b"value1")).unwrap();
    db.set(b"key2", &text(b"value2")).unwrap();
    db.set(b"prefix_key1", &text(b"value3")).unwrap();
    db.set(b"prefix_key2", &text(b"value4")).unwrap();
    db.set(b"value_num", &number(b"1")).unwrap();
    Service::new(db)
}

fn shown(response: ApiResponse<GetResponse>) -> Option<IntOrString> {
    match response {
        ApiResponse::Success(r) => r.value,
        ApiResponse::ErrorResponse(e) => panic!("unexpected failure: {}", e.error),
    }
}

#[test]
fn tests_test_get_value() {
    let mut service = service();
    match shown(service.get_by_key("key1")) {
        Some(IntOrString::String(s)) => assert_eq!(s, "value1"),
        other => panic!("unexpected value: {:?}", other),
    }
    assert!(shown(service.get_by_key("absent")).is_none());
}

#[test]
fn tests_test_get_all_keys() {
    let mut service = service();
    let query = GetAllKeysQuery { prefix: "prefix_".to_string() };
    match service.get_all_keys(&query) {
        ApiResponse::Success(r) => assert_eq!(r.keys.len(), 2),
        ApiResponse::ErrorResponse(e) => panic!("unexpected failure: {}", e.error),
    }
}

#[test]
fn tests_test_set_key() {
    let mut service = service();
    let request = SetRequest {
        key: "key3".to_string(),
        value: IntOrString::String("value3".to_string()),
        ttl: -1,
    };
    match service.set_key(&request) {
        ApiResponse::Success(r) => assert!(r.success),
        ApiResponse::ErrorResponse(e) => panic!("unexpected failure: {}", e.error),
    }
    match shown(service.get_by_key("key3")) {
        Some(IntOrString::String(s)) => assert_eq!(s, "value3"),
        other => panic!("unexpected value: {:?}", other),
    }
}

#[test]
fn tests_test_delete_key() {
    let mut service = service();
    assert!(matches!(service.delete_key("key1"), ApiResponse::Success(r) if r.success));
    let mut db = service.into_storage();
    assert!(db.get(b"key1").unwrap().is_none());
}

#[test]
fn tests_test_delete_keys() {
    let mut service = service();
    let request = DeleteKeysRequest { prefix: "prefix_".to_string() };
    assert!(matches!(service.delete_keys(Some(request)), ApiResponse::Success(r) if r.success));
    let mut db = service.into_storage();
    assert!(db.get(b"prefix_key1").unwrap().is_none());
    assert!(db.get(b"prefix_key2").unwrap().is_none());
    assert!(db.get(b"key1").unwrap().is_some());
}

#[test]
fn service_delete_keys_without_a_body_removes_all() {
    let mut service = service();
    assert!(matches!(service.delete_keys(None), ApiResponse::Success(r) if r.success));
    let mut db = service.into_storage();
    assert!(db.get_all_keys(b"").unwrap().is_empty());
}

#[test]
fn tests_test_integer_value() {
    let mut service = service();
    let request = SetRequest {
        key: "key3".to_string(),
        value: IntOrString::Int(123),
        ttl: -1,
    };
    assert!(matches!(service.set_key(&request), ApiResponse::Success(_)));
    match shown(service.get_by_key("key3")) {
        Some(IntOrString::Int(i)) => assert_eq!(i, 123),
        other => panic!("unexpected value: {:?}", other),
    }
    let mut db = service.into_storage();
    assert_eq!(db.get(b"key3").unwrap().unwrap().value, b"123");
}

#[test]
fn tests_test_string_value() {
    let mut service = service();
    let request = SetRequest {
        key: "key3".to_string(),
        value: IntOrString::String("value3".to_string()),
        ttl: default_ttl(),
    };
    assert!(matches!(service.set_key(&request), ApiResponse::Success(_)));
    match shown(service.get_by_key("key3")) {
        Some(IntOrString::String(s)) => assert_eq!(s, "value3"),
        other => panic!("unexpected value: {:?}", other),
    }
}

#[test]
fn tests_test_increment() {
    let mut service = service();
    let request = IncrementRequest { value: 1, default: None };
    match service.increment("value_num", &request) {
        ApiResponse::Success(r) => assert_eq!(r.value, 2),
        ApiResponse::ErrorResponse(e) => panic!("unexpected failure: {}", e.error),
    }
}

#[test]
fn tests_test_default_increment() {
    let mut service = service();
    let request = IncrementRequest { value: 1, default: Some(10) };
    match service.increment("value_num", &request) {
        ApiResponse::Success(r) => assert_eq!(r.value, 2),
        ApiResponse::ErrorResponse(e) => panic!("unexpected failure: {}", e.error),
    }
}

#[test]
fn tests_test_default_exist_increment() {
    let mut service = service();
    let request = IncrementRequest { value: 1, default: Some(10) };
    match service.increment("new_value_num", &request) {
        ApiResponse::Success(r) => assert_eq!(r.value, 11),
        ApiResponse::ErrorResponse(e) => panic!("unexpected failure: {}", e.error),
    }
}

#[test]
fn tests_test_decrement() {
    let mut service = service();
    let request = IncrementRequest { value: 1, default: None };
    match service.decrement("value_num", &request) {
        ApiResponse::Success(r) => assert_eq!(r.value, 0),
        ApiResponse::ErrorResponse(e) => panic!("unexpected failure: {}", e.error),
    }
}

#[test]
fn tests_test_default_decrement() {
    let mut service = service();
    let request = IncrementRequest { value: 1, default: Some(10) };
    match service.decrement("new_value_num", &request) {
        ApiResponse::Success(r) => assert_eq!(r.value, 9),
        ApiResponse::ErrorResponse(e) => panic!("unexpected failure: {}", e.error),
    }
}

#[test]
fn service_increment_without_key_answers_with_the_message() {
    let mut service = service();
    let request = IncrementRequest { value: 1, default: None };
    match service.increment("missing", &request) {
        ApiResponse::ErrorResponse(e) => assert_eq!(e.error, "Value not found for key: missing"),
        ApiResponse::Success(r) => panic!("unexpected success: {:?}", r),
    }
    match service.increment("key1", &request) {
        ApiResponse::ErrorResponse(e) => {
            assert_eq!(e.error, "Invalid value type: Value is not an integer")
        }
        ApiResponse::Success(r) => panic!("unexpected success: {:?}", r),
    }
}

#[test]
fn tests_test_default_exist_decrement() {
    let mut service = service();
    let request = IncrementRequest { value: 1, default: Some(10) };
    match service.decrement("value_num", &request) {
        ApiResponse::Success(r) => assert_eq!(r.value, 0),
        ApiResponse::ErrorResponse(e) => panic!("unexpected failure: {}", e.error),
    }
}

#[test]
fn tests_test_ttl() {
    let mut service = service();
    let request = SetRequest {
        key: "key3".to_string(),
        value: IntOrString::String("value3".to_string()),
        ttl: 2,
    };
    assert!(matches!(service.set_key(&request), ApiResponse::Success(_)));
    let mut db = service.into_storage();
    let expiry = db.get_ttl_at(b"key3", 0).unwrap();
    assert!(db.get_at(b"key3", expiry - 1).unwrap().is_some());
    assert!(db.get_at(b"key3", expiry + 1).unwrap().is_none());
}

#[test]
fn service_get_ttl() {
    let mut service = service();
    match service.get_ttl("key1") {
        ApiResponse::Success(r) => assert_eq!(r.ttl, -1),
        ApiResponse::ErrorResponse(e) => panic!("unexpected failure: {}", e.error),
    }
}

#[test]
fn test_get_ttl_nonexistent_key() {
    let mut service = service();
    match service.get_ttl("nonexistent_key") {
        ApiResponse::Success(r) => assert_eq!(r.ttl, -1),
        ApiResponse::ErrorResponse(e) => panic!("unexpected failure: {}", e.error),
    }
}

#[test]
fn test_set_key_with_ttl() {
    let mut service = service();
    let request = SetRequest {
        key: "key3".to_string(),
        value: IntOrString::String("value3".to_string()),
        ttl: 5,
    };
    assert!(matches!(service.set_key(&request), ApiResponse::Success(_)));
    match service.get_ttl("key3") {
        ApiResponse::Success(r) => assert!((0..=5).contains(&r.ttl)),
        ApiResponse::ErrorResponse(e) => panic!("unexpected failure: {}", e.error),
    }
}

#[test]
fn test_set_ttl() {
    let mut service = service();
    let request = SetTtlRequest { ttl: 5 };
    assert!(matches!(service.set_ttl("key1", &request), ApiResponse::Success(r) if r.success));
    match service.get_ttl("key1") {
        ApiResponse::Success(r) => assert!((0..=5).contains(&r.ttl)),
        ApiResponse::ErrorResponse(e) => panic!("unexpected failure: {}", e.error),
    }
    match service.set_ttl("absent", &request) {
        ApiResponse::ErrorResponse(e) => assert_eq!(e.error, "Value not found for key: absent"),
        ApiResponse::Success(r) => panic!("unexpected success: {:?}", r),
    }
}

#[test]
fn set_key_value_writes_an_integer_as_decimal_text() {
    let request = SetRequest { key: "k".to_string(), value: IntOrString::Int(-42), ttl: 9 };
    let value = set_key_value(&request);
    assert_eq!(value.value_type, ValueType::Integer);
    assert_eq!(value.value, b"-42");
    assert_eq!(value.ttl, 9);
    let request = SetRequest {
        key: "k".to_string(),
        value: IntOrString::String("grüß".to_string()),
        ttl: -1,
    };
    let value = set_key_value(&request);
    assert_eq!(value.value_type, ValueType::String);
    assert_eq!(value.value, "grüß".as_bytes());
}

#[test]
fn delete_keys_prefix_of_no_body_is_empty() {
    assert_eq!(delete_keys_prefix(None), "");
    assert_eq!(
        delete_keys_prefix(Some(DeleteKeysRequest { prefix: "p".to_string() })),
        "p"
    );
}

#[test]
fn get_by_key_response_of_each_result() {
    assert!(shown(get_by_key_response(Ok(None))).is_none());
    match shown(get_by_key_response(Ok(Some(number(b"77"))))) {
        Some(IntOrString::Int(n)) => assert_eq!(n, 77),
        other => panic!("unexpected value: {:?}", other),
    }
    match get_by_key_response(Ok(Some(number(b"seven")))) {
        ApiResponse::ErrorResponse(e) => {
            assert_eq!(e.error, "Internal error: Failed to parse integer value")
        }
        ApiResponse::Success(r) => panic!("unexpected success: {:?}", r),
    }
    match get_by_key_response(Ok(Some(text(&[0xff])))) {
        ApiResponse::ErrorResponse(e) => {
            assert_eq!(e.error, "Internal error: Value is not valid UTF-8")
        }
        ApiResponse::Success(r) => panic!("unexpected success: {:?}", r),
    }
    match get_by_key_response(Err(DatabaseError::InternalError("engine".to_string()))) {
        ApiResponse::ErrorResponse(e) => assert_eq!(e.error, "Internal error: engine"),
        ApiResponse::Success(r) => panic!("unexpected success: {:?}", r),
    }
}

#[test]
fn get_ttl_response_turns_not_found_into_no_expiry() {
    assert!(matches!(get_ttl_response(Ok(12)), ApiResponse::Success(r) if r.ttl == 12));
    assert!(matches!(
        get_ttl_response(Err(DatabaseError::ValueNotFound("k".to_string()))),
        ApiResponse::Success(r) if r.ttl == -1
    ));
    match get_ttl_response(Err(DatabaseError::InternalError("engine".to_string()))) {
        ApiResponse::ErrorResponse(e) => assert_eq!(e.error, "Internal error: engine"),
        ApiResponse::Success(r) => panic!("unexpected success: {:?}", r),
    }
}

#[test]
fn responses_of_the_other_results() {
    assert!(matches!(done_response(Ok(())), ApiResponse::Success(r) if r.success));
    match done_response(Err(DatabaseError::InitialFailed("x".to_string()))) {
        ApiResponse::ErrorResponse(e) => assert_eq!(e.error, "Failed to initialize database: x"),
        ApiResponse::Success(r) => panic!("unexpected success: {:?}", r),
    }
    match get_all_keys_response(Ok(vec!["a".to_string(), "b".to_string()])) {
        ApiResponse::Success(r) => assert_eq!(r.keys, vec!["a", "b"]),
        ApiResponse::ErrorResponse(e) => panic!("unexpected failure: {}", e.error),
    }
    assert!(matches!(
        get_all_keys_response(Err(DatabaseError::InternalError("x".to_string()))),
        ApiResponse::ErrorResponse(_)
    ));
    assert!(matches!(counter_response(Ok(number(b"5"))), ApiResponse::Success(r) if r.value == 5));
    assert!(matches!(counter_response(Ok(text(b"5"))), ApiResponse::ErrorResponse(_)));
    assert!(matches!(
        counter_response(Err(DatabaseError::ValueNotFound("k".to_string()))),
        ApiResponse::ErrorResponse(_)
    ));
}

#[test]
fn make_app_names_the_backend() {
    let build = Info::new("1.2.3", "0123456789abcdef", "1.80.0", "2024-06-01");
    let app = Server::new(Bredis::open()).make_app(build, "Bredis".to_string());
    assert_eq!(app.title, "Bredis API");
    assert_eq!(app.info.version, "1.2.3-0123456");
    assert_eq!(app.info.backend, "Bredis");
    let response = info_response(&app.info);
    assert_eq!(response.version, "1.2.3-0123456");
    assert_eq!(response.rustc, "1.80.0");
    assert_eq!(response.build_date, "2024-06-01");
    assert_eq!(response.backend, "Bredis");
    let mut service = Service::new(app.db);
    assert!(matches!(service.delete_key("k"), ApiResponse::Success(_)));
}
