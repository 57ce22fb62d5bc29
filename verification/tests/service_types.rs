use poker_core::service::{Claims, ErrorResponse, Outgoing, ServiceError};

#[test]
fn client_error_classes_carry_details() {
    assert_eq!(
        ServiceError::BadRequest("seat".to_string()).details(),
        Some("Invalid Input : seat".to_string())
    );
    assert_eq!(
        ServiceError::Unauthorized("token".to_string()).details(),
        Some("Unauthorized: token".to_string())
    );
    assert_eq!(
        ServiceError::Forbidden("room".to_string()).details(),
        Some("Forbidden: room".to_string())
    );
    assert_eq!(
        ServiceError::NotFound("hand".to_string()).details(),
        Some("NotFound: hand".to_string())
    );
    assert_eq!(
        ServiceError::Conflict("exists".to_string()).details(),
        Some("Conflict: exists".to_string())
    );
}

#[test]
fn server_error_classes_reveal_nothing() {
    assert_eq!(ServiceError::InternalServerError.details(), None);
    assert_eq!(ServiceError::ServiceUnavailable.details(), None);
    assert_eq!(ServiceError::DataBaseError("dsn".to_string()).details(), None);
    assert_eq!(ServiceError::ValidationError("email".to_string()).details(), None);
    assert_eq!(ServiceError::ExternalError("io".to_string()).details(), None);
}

#[test]
fn boundary_records_hold_their_fields() {
    let resp = ErrorResponse { error: "Conflict".to_string(), details: None };
    assert_eq!(resp.error, "Conflict");
    let claims = Claims { sub: "user".to_string(), session: None, exp: 99 };
    assert_eq!(claims.exp, 99);
    let frame = Outgoing::Text("hello".to_string());
    match frame {
        Outgoing::Text(t) => assert_eq!(t, "hello"),
        Outgoing::Binary(_) => panic!("text frame expected"),
    }
}
