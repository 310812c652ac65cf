use base64::Engine;
use rotmg_stash::account::{char_list_url, verify_url};
use rotmg_stash::launch::{launch_argument, launch_invocation};
use rotmg_stash::token::{parse_access_token, AccessTokenResponse};

fn token(a: &str, t: &str, e: &str) -> AccessTokenResponse {
    AccessTokenResponse { access_token: a.to_string(), timestamp: t.to_string(), expiration: e.to_string() }
}

fn decode(s: &str) -> String {
    String::from_utf8(base64::engine::general_purpose::STANDARD.decode(s).unwrap()).unwrap()
}

#[test]
fn launch_argument_exact() {
    let arg = launch_argument("user1", &token("abc", "t1", "e1"));
    assert_eq!(
        arg,
        "data:{platform:Deca,guid:dXNlcjE=,token:YWJj,tokenTimestamp:dDE=,tokenExpiration:ZTE=,env:4}"
    );
}

#[test]
fn launch_argument_decodes_back() {
    let guid = "steamworks:76561198000000000";
    let arg = launch_argument(guid, &token("x/y+z==", "1700000000", "3600"));
    let inner = arg.strip_prefix("data:{").unwrap().strip_suffix("}").unwrap();
    let fields: Vec<(&str, &str)> = inner.split(',').map(|f| f.split_once(':').unwrap()).collect();
    assert_eq!(fields[0], ("platform", "Deca"));
    assert_eq!(fields[1].0, "guid");
    assert_eq!(decode(fields[1].1), guid);
    assert_eq!(decode(fields[2].1), "x/y+z==");
    assert_eq!(decode(fields[3].1), "1700000000");
    assert_eq!(decode(fields[4].1), "3600");
    assert_eq!(fields[5], ("env", "4"));
}

#[test]
fn launch_invocation_program_and_argument() {
    let spec = launch_invocation("C:\\Games\\RotMG Exalt", "g", &token("a", "b", "c"));
    assert_eq!(spec.program, "C:\\Games\\RotMG Exalt/RotMG Exalt.exe");
    assert_eq!(spec.argument, "data:{platform:Deca,guid:Zw==,token:YQ==,tokenTimestamp:Yg==,tokenExpiration:Yw==,env:4}");
    let spec2 = launch_invocation("/opt/exalt/", "g", &token("a", "b", "c"));
    assert_eq!(spec2.program, "/opt/exalt/RotMG Exalt.exe");
}

#[test]
fn urls_of_the_service() {
    assert_eq!(verify_url(), "https://www.realmofthemadgod.com/account/verify");
    assert_eq!(
        char_list_url("a b+/"),
        "https://www.realmofthemadgod.com/char/list?muleDump=true&accessToken=a+b%2B%2F"
    );
}

#[test]
fn end_to_end_char_list_request() {
    let body = "<AccessToken>abc</AccessToken><AccessTokenTimestamp>t1</AccessTokenTimestamp><AccessTokenExpiration>e1</AccessTokenExpiration>";
    let t = parse_access_token(body).ok().unwrap();
    assert_eq!(t.timestamp, "t1");
    assert_eq!(t.expiration, "e1");
    assert_eq!(
        char_list_url(&t.access_token),
        "https://www.realmofthemadgod.com/char/list?muleDump=true&accessToken=abc"
    );
}

#[test]
fn char_list_url_encodes_token_bytes() {
    assert_eq!(
        char_list_url("x=y é*"),
        "https://www.realmofthemadgod.com/char/list?muleDump=true&accessToken=x%3Dy+%C3%A9*"
    );
}
