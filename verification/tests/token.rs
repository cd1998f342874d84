use simple_gh::gh::guard::{TokenError, TokenGuard};
use simple_gh::gh::middleware::{find_token, Token};

fn pairs(items: &[(&str, &str)]) -> Vec<(String, String)> {
    items.iter().map(|(k, v)| (k.to_string(), v.to_string())).collect()
}

#[test]
fn token_is_found_only_where_it_occurs_once() {
    assert_eq!(find_token(&pairs(&[("token", "secret")])), Some("secret".to_string()));
    assert_eq!(find_token(&pairs(&[("a", "1"), ("token", "s"), ("b", "2")])), Some("s".to_string()));
    assert_eq!(find_token(&pairs(&[])), None);
    assert_eq!(find_token(&pairs(&[("Token", "secret")])), None);
    assert_eq!(find_token(&pairs(&[("token", "a"), ("token", "a")])), None);
    assert_eq!(find_token(&pairs(&[("token", "a"), ("x", "y"), ("token", "b")])), None);
}

#[test]
fn token_accepts_the_configured_value_only() {
    let token = Token::new("secret".to_string());
    assert_eq!(token.token, "secret");
    assert!(token.accepts(&pairs(&[("token", "secret")])));
    assert!(!token.accepts(&pairs(&[("token", "Secret")])));
    assert!(!token.accepts(&pairs(&[("token", "")])));
    assert!(!token.accepts(&pairs(&[])));
    assert!(!token.accepts(&pairs(&[("token", "secret"), ("token", "secret")])));
}

#[test]
fn validate_reads_the_query_string() {
    let token = Token::new("secret".to_string());
    assert_eq!(token.validate(Some("token=secret")), Ok(()));
    assert_eq!(token.validate(Some("a=1&token=secret&b=2")), Ok(()));
    assert_eq!(token.validate(Some("token=wrong")), Err(404));
    assert_eq!(token.validate(Some("")), Err(404));
    assert_eq!(token.validate(Some("secret")), Err(404));
    assert_eq!(token.validate(Some("token=secret&token=secret")), Err(404));
    assert_eq!(token.validate(None), Err(404));
}

#[test]
fn validate_decodes_the_query_string() {
    let token = Token::new("a b&c".to_string());
    assert_eq!(token.validate(Some("token=a+b%26c")), Ok(()));
    assert_eq!(token.validate(Some("token=a%20b%26c")), Ok(()));
    assert_eq!(token.validate(Some("token=a+b&c")), Err(404));
}

#[test]
fn guard_passes_every_request_without_a_configured_token() {
    assert_eq!(TokenGuard::from_request(None, None), Ok(TokenGuard));
    assert_eq!(TokenGuard::from_request(None, Some(Ok("x".to_string()))), Ok(TokenGuard));
    assert_eq!(TokenGuard::from_request(None, Some(Err("bad".to_string()))), Ok(TokenGuard));
}

#[test]
fn guard_asks_for_the_configured_token() {
    let secret = "secret".to_string();
    assert_eq!(TokenGuard::from_request(Some(&secret), Some(Ok("secret".to_string()))), Ok(TokenGuard));
    assert_eq!(
        TokenGuard::from_request(Some(&secret), Some(Ok("other".to_string()))),
        Err((404, TokenError::Invalid))
    );
    assert_eq!(
        TokenGuard::from_request(Some(&secret), Some(Err("unreadable".to_string()))),
        Err((404, TokenError::Invalid))
    );
    assert_eq!(TokenGuard::from_request(Some(&secret), None), Err((404, TokenError::Missing)));
}
