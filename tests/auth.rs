use vorto::auth::{get_jwt_token, invalid_login_or_error, LoginResponse};

#[test]
fn bearer_token_is_read_from_header() {
    assert_eq!(get_jwt_token(Some("Bearer abc.def")), Some("abc.def".to_owned()));
    assert_eq!(get_jwt_token(Some("Bearer ")), Some(String::new()));
    assert_eq!(get_jwt_token(Some("bearer abc")), None);
    assert_eq!(get_jwt_token(Some("Basic abc")), None);
    assert_eq!(get_jwt_token(Some("Bearer")), None);
    assert_eq!(get_jwt_token(None), None);
}

#[test]
fn login_failure_has_its_code() {
    let e = invalid_login_or_error();
    assert_eq!(e.code, 9);
    assert_eq!(e.message, "[InvalidLoginOrPassword] Invalid login or password");
    let r = LoginResponse { email: "admin@mail.com".to_owned(), token: "t".to_owned() };
    assert_eq!(r.email, "admin@mail.com");
}
