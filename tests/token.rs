use rotmg_stash::extract_tagged_field;
use rotmg_stash::token::{parse_access_token, verify_form, AccountError, TokenField};

fn owned(form: &[(String, String)]) -> Vec<(&str, &str)> {
    form.iter().map(|(n, v)| (n.as_str(), v.as_str())).collect()
}

#[test]
fn parses_well_formed_response() {
    let body = "<AccessToken>abc</AccessToken><AccessTokenTimestamp>t1</AccessTokenTimestamp><AccessTokenExpiration>e1</AccessTokenExpiration>";
    let t = parse_access_token(body).ok().unwrap();
    assert_eq!(t.access_token, "abc");
    assert_eq!(t.timestamp, "t1");
    assert_eq!(t.expiration, "e1");
}

#[test]
fn parses_response_with_surrounding_markup() {
    let body = "<?xml version=\"1.0\"?><Account><Name>x</Name><AccessToken>tok/+=</AccessToken>\n<AccessTokenTimestamp>1700000000</AccessTokenTimestamp><AccessTokenExpiration>3600</AccessTokenExpiration></Account>";
    let t = parse_access_token(body).ok().unwrap();
    assert_eq!(t.access_token, "tok/+=");
    assert_eq!(t.timestamp, "1700000000");
    assert_eq!(t.expiration, "3600");
}

#[test]
fn first_occurrence_wins() {
    let body = "<AccessToken>one</AccessToken><AccessToken>two</AccessToken><AccessTokenTimestamp>a</AccessTokenTimestamp><AccessTokenTimestamp>b</AccessTokenTimestamp><AccessTokenExpiration>c</AccessTokenExpiration>";
    let t = parse_access_token(body).ok().unwrap();
    assert_eq!(t.access_token, "one");
    assert_eq!(t.timestamp, "a");
}

#[test]
fn missing_token_is_token_not_found() {
    let r = parse_access_token("<Error>WebChangePasswordDialog.passwordError</Error>");
    assert_eq!(r.err(), Some(AccountError::TokenNotFound));
    assert_eq!(parse_access_token("").err(), Some(AccountError::TokenNotFound));
}

#[test]
fn token_split_by_newline_is_not_found() {
    let r = parse_access_token("<AccessToken>a\nb</AccessToken>");
    assert_eq!(r.err(), Some(AccountError::TokenNotFound));
}

#[test]
fn empty_token_is_unparsable() {
    let body = "<AccessToken></AccessToken><AccessTokenTimestamp>t</AccessTokenTimestamp><AccessTokenExpiration>e</AccessTokenExpiration>";
    assert_eq!(parse_access_token(body).err(), Some(AccountError::CouldNotParseToken));
}

#[test]
fn missing_timestamp_is_invalid_response() {
    let body = "<AccessToken>abc</AccessToken><AccessTokenExpiration>e</AccessTokenExpiration>";
    let e = parse_access_token(body).err().unwrap();
    assert_eq!(e, AccountError::InvalidResponse(TokenField::Timestamp));
    assert_eq!(e.message(), "Invalid response: AccessTokenTimestamp not found");
}

#[test]
fn missing_expiration_is_invalid_response() {
    let body = "<AccessToken>abc</AccessToken><AccessTokenTimestamp>t</AccessTokenTimestamp>";
    let e = parse_access_token(body).err().unwrap();
    assert_eq!(e, AccountError::InvalidResponse(TokenField::Expiration));
}

#[test]
fn empty_timestamp_is_accepted() {
    let body = "<AccessToken>abc</AccessToken><AccessTokenTimestamp></AccessTokenTimestamp><AccessTokenExpiration>e</AccessTokenExpiration>";
    let t = parse_access_token(body).ok().unwrap();
    assert_eq!(t.timestamp, "");
    assert_eq!(t.expiration, "e");
}

#[test]
fn account_error_messages() {
    assert_eq!(AccountError::TokenNotFound.message(), "Access token not found in response");
    assert_eq!(AccountError::CouldNotParseToken.message(), "Could not parse access token");
    assert_eq!(
        AccountError::InvalidResponse(TokenField::Expiration).message(),
        "Invalid response: AccessTokenExpiration not found"
    );
}

#[test]
fn direct_login_form() {
    let form = verify_form("user1", "pw", None);
    assert_eq!(
        owned(&form),
        vec![("clientToken", "0"), ("guid", "user1"), ("password", "pw")]
    );
}

#[test]
fn platform_login_form() {
    let form = verify_form("steamworks:7656", "s3cr", Some("dev"));
    assert_eq!(
        owned(&form),
        vec![
            ("clientToken", "dev"),
            ("guid", "steamworks:7656"),
            ("steamid", "steamworks:7656"),
            ("secret", "s3cr"),
        ]
    );
}

#[test]
fn near_platform_prefix_is_direct_login() {
    let form = verify_form("steamworks", "pw", Some("d"));
    assert_eq!(
        owned(&form),
        vec![("clientToken", "d"), ("guid", "steamworks"), ("password", "pw")]
    );
}

#[test]
fn extracts_tagged_fields() {
    let body = "<A><Name>abc</Name><Name>def</Name></A>";
    assert_eq!(extract_tagged_field(body, "Name"), Some("abc".to_string()));
    assert_eq!(extract_tagged_field(body, "Other"), None);
    assert_eq!(extract_tagged_field("<x.y>1</x.y>", "x.y"), None);
    assert_eq!(extract_tagged_field("<T></T>", "T"), Some(String::new()));
}

#[test]
fn overlong_tag_is_not_searched() {
    let tag = "T".repeat(300);
    let body = format!("<{0}>x</{0}>", tag);
    assert_eq!(extract_tagged_field(&body, &tag), None);
    let tag = "T".repeat(256);
    let body = format!("<{0}>x</{0}>", tag);
    assert_eq!(extract_tagged_field(&body, &tag), Some("x".to_string()));
}

#[test]
fn parses_elements_in_any_order() {
    let body = "<R><AccessTokenExpiration>e9</AccessTokenExpiration><junk/> <AccessTokenTimestamp>t9</AccessTokenTimestamp>\n<AccessToken>k9</AccessToken></R>";
    let t = parse_access_token(body).ok().unwrap();
    assert_eq!(t.access_token, "k9");
    assert_eq!(t.timestamp, "t9");
    assert_eq!(t.expiration, "e9");
}
