//! Endpoints of the game service.

use vstd::prelude::*;

use vstd::utf8::{encode_utf8, is_ascii_chars, is_ascii_chars_encode_utf8};

use crate::text::is_ascii_alphanumeric;

verus! {

/// Base of every request made to the game service.
pub const BASE_URL: &'static str = "https://www.realmofthemadgod.com";

/// A character that form encoding leaves as it is.
pub open spec fn is_form_safe_char(c: char) -> bool {
    is_ascii_alphanumeric(c) || c == '*' || c == '-' || c == '.' || c == '_'
}

pub open spec fn is_form_safe(s: Seq<char>) -> bool {
    forall|k: int| 0 <= k < s.len() ==> #[trigger] is_form_safe_char(s[k])
}

/// A byte that form encoding leaves as it is: `*`, `-`, `.`, `_`, digits and
/// ASCII letters.
pub open spec fn is_form_safe_byte(b: u8) -> bool {
    b == 42 || b == 45 || b == 46 || (48 <= b <= 57) || (65 <= b <= 90) || b == 95 || (97 <= b
        <= 122)
}

pub open spec fn upper_hex_digit(n: int) -> char {
    if n < 10 {
        (48 + n) as char
    } else {
        (55 + n) as char
    }
}

/// The `application/x-www-form-urlencoded` text of some bytes: a safe byte
/// stands as it is, a space becomes `+`, any other byte `%XX` in upper case.
pub open spec fn form_encode_bytes(b: Seq<u8>) -> Seq<char>
    decreases b.len(),
{
    if b.len() == 0 {
        seq![]
    } else {
        let x = b[0];
        let head = if is_form_safe_byte(x) {
            seq![x as char]
        } else if x == 32 {
            seq!['+']
        } else {
            seq!['%', upper_hex_digit(x as int / 16), upper_hex_digit(x as int % 16)]
        };
        head + form_encode_bytes(b.drop_first())
    }
}

/// The encoded `name=value` pair, over the UTF-8 bytes of each.
pub open spec fn form_pair(name: Seq<char>, value: Seq<char>) -> Seq<char> {
    form_encode_bytes(encode_utf8(name)) + seq!['='] + form_encode_bytes(encode_utf8(value))
}

/// Relies on url::form_urlencoded::Serializer: a fresh serializer given one
/// pair by `append_pair` finishes as the byte-serialized name, `=`, and the
/// byte-serialized value.
#[verifier::external_body]
fn encode_form_pair(name: &str, value: &str) -> (r: String)
    ensures
        r@ == form_pair(name@, value@),
{
    url::form_urlencoded::Serializer::new(String::new()).append_pair(name, value).finish()
}

proof fn lemma_form_encode_bytes_safe(b: Seq<u8>, s: Seq<char>)
    requires
        is_form_safe(s),
        b.len() == s.len(),
        forall|k: int| 0 <= k < s.len() ==> #[trigger] b[k] == s[k] as u8,
    ensures
        form_encode_bytes(b) == s,
    decreases b.len(),
{
    if b.len() > 0 {
        assert(is_form_safe_char(s[0]));
        assert(is_form_safe(s.drop_first()));
        assert forall|k: int| 0 <= k < s.drop_first().len() implies #[trigger] b.drop_first()[k]
            == s.drop_first()[k] as u8 by {
            assert(b[k + 1] == s[k + 1] as u8);
        }
        lemma_form_encode_bytes_safe(b.drop_first(), s.drop_first());
        assert(b[0] == s[0] as u8);
        assert(seq![b[0] as char] + s.drop_first() =~= s);
    }
}

/// Safe text passes form encoding unchanged.
pub proof fn lemma_form_encode_safe(s: Seq<char>)
    requires
        is_form_safe(s),
    ensures
        form_encode_bytes(encode_utf8(s)) == s,
{
    assert(is_ascii_chars(s)) by {
        assert forall|k: int| 0 <= k < s.len() implies '\0' <= #[trigger] s[k] <= '\u{7f}' by {
            assert(is_form_safe_char(s[k]));
        }
    }
    is_ascii_chars_encode_utf8(s);
    lemma_form_encode_bytes_safe(encode_utf8(s), s);
}

pub open spec fn verify_url_spec() -> Seq<char> {
    BASE_URL@ + "/account/verify"@
}

pub open spec fn char_list_url_spec(access_token: Seq<char>) -> Seq<char> {
    BASE_URL@ + "/char/list?muleDump=true&"@ + form_pair("accessToken"@, access_token)
}

/// Where credentials are submitted.
pub fn verify_url() -> (r: String)
    ensures
        r@ == verify_url_spec(),
{
    let mut url = String::from_str(BASE_URL);
    url.append("/account/verify");
    url
}

/// Where the full character listing is fetched with a session token.
pub fn char_list_url(access_token: &str) -> (r: String)
    ensures
        r@ == char_list_url_spec(access_token@),
        is_form_safe(access_token@) ==> r@ == BASE_URL@ + "/char/list?muleDump=true&"@
            + "accessToken="@ + access_token@,
{
    proof {
        reveal_strlit("accessToken");
        reveal_strlit("accessToken=");
        assert(is_form_safe("accessToken"@));
        assert("accessToken"@ + seq!['='] =~= "accessToken="@);
    }
    let mut url = String::from_str(BASE_URL);
    url.append("/char/list?muleDump=true&");
    let pair = encode_form_pair("accessToken", access_token);
    url.append(pair.as_str());
    proof {
        lemma_form_encode_safe("accessToken"@);
        if is_form_safe(access_token@) {
            lemma_form_encode_safe(access_token@);
            assert("accessToken"@ + seq!['='] + access_token@ =~= "accessToken="@ + access_token@);
        }
    }
    url
}

} // verus!
