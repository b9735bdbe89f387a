use rust_web_server::{HttpStatus, UnknownStatusCode};

#[test]
fn http_status_from_code() {
    let status = HttpStatus::from(200).unwrap();

    assert_eq!(200, status.code());
    assert_eq!("OK", status.reason_phrase());
}

#[test]
fn http_status_from_code_that_does_not_exist() {
    let status = HttpStatus::from(600);

    assert_eq!(true, status.is_err());
}

#[test]
fn http_status_status_from_code() {
    let status = HttpStatus::from(200).unwrap();

    assert_eq!(200, status.code());
    assert_eq!("OK", status.reason_phrase());
}

#[test]
fn http_status_status_from_code_that_does_not_exist() {
    let status = HttpStatus::from(600);

    assert_eq!(true, status.is_err());
}

#[test]
fn status_to_string() {
    let status = HttpStatus::ok();

    assert_eq!("200 OK", status.to_string())
}

#[test]
fn registry_holds_each_entry() {
    let expected: [(u16, &str); 4] = [(200, "OK"), (201, "Created"), (202, "Accepted"), (400, "Bad Request")];
    for (code, reason) in expected {
        let status = HttpStatus::from(code).unwrap();
        assert_eq!(code, status.code());
        assert_eq!(reason, status.reason_phrase());
    }
}

#[test]
fn registry_rejects_unknown_codes() {
    for code in [0u16, 100, 199, 203, 404, 500, 999, u16::MAX] {
        assert_eq!(Err(UnknownStatusCode { code }), HttpStatus::from(code).map(|s| s.code()));
    }
}

#[test]
fn named_statuses_match_registry() {
    assert_eq!(HttpStatus::created().to_string(), "201 Created");
    assert_eq!(HttpStatus::accepted().to_string(), "202 Accepted");
    assert_eq!(HttpStatus::bad_request().to_string(), "400 Bad Request");
    assert_eq!(HttpStatus::from(400).unwrap().to_string(), "400 Bad Request");
}
