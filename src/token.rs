//! The verification handshake: the credential form and the session token it yields.

use vstd::prelude::*;

use crate::text::{
    close_tag, first_enclosure, has_prefix, is_field_text, is_prefix, is_tag_name,
    lemma_open_tag_chars, lemma_no_occurrence_append, lemma_other_tag_absent,
    lemma_tagged_field_at, no_occurrence, occurs_at, open_tag, scrape_tag, tagged_field,
    holds_element_once, lemma_element_once,
    MAX_TAG_LEN,
};

verus! {

/// Which of the two validity fields a verification response lacked.
#[derive(Clone, Copy, Debug, PartialEq, Eq, Structural)]
pub enum TokenField {
    Timestamp,
    Expiration,
}

/// Why a verification response did not yield a session token.
#[derive(Clone, Copy, Debug, PartialEq, Eq, Structural)]
pub enum AccountError {
    /// No `<AccessToken>` element: most often wrong credentials.
    TokenNotFound,
    /// An `<AccessToken>` element with nothing inside.
    CouldNotParseToken,
    /// The token came without the named validity field.
    InvalidResponse(TokenField),
}

pub open spec fn token_field_name(f: TokenField) -> Seq<char> {
    match f {
        TokenField::Timestamp => "AccessTokenTimestamp"@,
        TokenField::Expiration => "AccessTokenExpiration"@,
    }
}

pub open spec fn account_error_message(e: AccountError) -> Seq<char> {
    match e {
        AccountError::TokenNotFound => "Access token not found in response"@,
        AccountError::CouldNotParseToken => "Could not parse access token"@,
        AccountError::InvalidResponse(f) => "Invalid response: "@ + token_field_name(f)
            + " not found"@,
    }
}

impl TokenField {
    /// The tag that carries this field in a verification response.
    pub fn tag(&self) -> (r: &'static str)
        ensures
            r@ == token_field_name(*self),
            is_tag_name(r@),
            r@.len() <= MAX_TAG_LEN,
    {
        match self {
            TokenField::Timestamp => {
                proof {
                    reveal_strlit("AccessTokenTimestamp");
                }
                "AccessTokenTimestamp"
            },
            TokenField::Expiration => {
                proof {
                    reveal_strlit("AccessTokenExpiration");
                }
                "AccessTokenExpiration"
            },
        }
    }
}

impl AccountError {
    /// The human-readable text shown to the user for this error.
    pub fn message(&self) -> (r: String)
        ensures
            r@ == account_error_message(*self),
    {
        match self {
            AccountError::TokenNotFound => String::from_str("Access token not found in response"),
            AccountError::CouldNotParseToken => String::from_str("Could not parse access token"),
            AccountError::InvalidResponse(f) => {
                let mut s = String::from_str("Invalid response: ");
                s.append(f.tag());
                s.append(" not found");
                s
            },
        }
    }
}

/// A session token with its validity window, as the service wrote them.
pub struct AccessTokenResponse {
    pub access_token: String,
    pub timestamp: String,
    pub expiration: String,
}

impl View for AccessTokenResponse {
    type V = (Seq<char>, Seq<char>, Seq<char>);

    open spec fn view(&self) -> (Seq<char>, Seq<char>, Seq<char>) {
        (self.access_token@, self.timestamp@, self.expiration@)
    }
}

pub open spec fn access_token_tag() -> Seq<char> {
    "AccessToken"@
}

/// What a verification response body amounts to: the token, timestamp and
/// expiration it carries, or the first thing found missing.
pub open spec fn token_outcome(body: Seq<char>) -> Result<
    (Seq<char>, Seq<char>, Seq<char>),
    AccountError,
> {
    match tagged_field(body, access_token_tag()) {
        None => Err(AccountError::TokenNotFound),
        Some(token) => if token.len() == 0 {
            Err(AccountError::CouldNotParseToken)
        } else {
            match tagged_field(body, token_field_name(TokenField::Timestamp)) {
                None => Err(AccountError::InvalidResponse(TokenField::Timestamp)),
                Some(ts) => match tagged_field(body, token_field_name(TokenField::Expiration)) {
                    None => Err(AccountError::InvalidResponse(TokenField::Expiration)),
                    Some(exp) => Ok((token, ts, exp)),
                },
            }
        },
    }
}

/// Reads the session token out of the body of a verification response.
pub fn parse_access_token(body: &str) -> (r: Result<AccessTokenResponse, AccountError>)
    ensures
        match r {
            Ok(t) => token_outcome(body@) == Ok::<_, AccountError>(t@),
            Err(e) => token_outcome(body@) == Err::<(Seq<char>, Seq<char>, Seq<char>), _>(e),
        },
{
    proof {
        reveal_strlit("AccessToken");
    }
    let access_token = match scrape_tag(body, "AccessToken") {
        None => return Err(AccountError::TokenNotFound),
        Some(t) => t,
    };
    if access_token.as_str().unicode_len() == 0 {
        return Err(AccountError::CouldNotParseToken);
    }
    let timestamp = match scrape_tag(body, TokenField::Timestamp.tag()) {
        None => return Err(AccountError::InvalidResponse(TokenField::Timestamp)),
        Some(t) => t,
    };
    let expiration = match scrape_tag(body, TokenField::Expiration.tag()) {
        None => return Err(AccountError::InvalidResponse(TokenField::Expiration)),
        Some(t) => t,
    };
    Ok(AccessTokenResponse { access_token, timestamp, expiration })
}

pub open spec fn steam_prefix() -> Seq<char> {
    "steamworks:"@
}

pub open spec fn is_steam_guid(guid: Seq<char>) -> bool {
    is_prefix(steam_prefix(), guid)
}

pub open spec fn device_token_or_default(device_token: Option<&str>) -> Seq<char> {
    match device_token {
        Some(d) => d@,
        None => "0"@,
    }
}

/// The fields of the credential submission, in the order they are sent.
pub open spec fn verify_form_spec(guid: Seq<char>, password: Seq<char>, device_token: Seq<char>) -> Seq<
    (Seq<char>, Seq<char>),
> {
    let common = seq![("clientToken"@, device_token), ("guid"@, guid)];
    if is_steam_guid(guid) {
        common + seq![("steamid"@, guid), ("secret"@, password)]
    } else {
        common + seq![("password"@, password)]
    }
}

fn pair(name: &str, value: &str) -> (r: (String, String))
    ensures
        r.0@ == name@,
        r.1@ == value@,
{
    (String::from_str(name), String::from_str(value))
}

/// The form fields of a credential submission; without a device token the
/// placeholder `"0"` is sent.
pub fn verify_form(guid: &str, password: &str, device_token: Option<&str>) -> (r: Vec<
    (String, String),
>)
    ensures
        r.deep_view() == verify_form_spec(guid@, password@, device_token_or_default(device_token)),
{
    let device_token = match device_token {
        Some(d) => d,
        None => "0",
    };
    let mut form: Vec<(String, String)> = Vec::new();
    form.push(pair("clientToken", device_token));
    form.push(pair("guid", guid));
    proof {
        reveal_strlit("steamworks:");
    }
    if has_prefix(guid, "steamworks:") {
        form.push(pair("steamid", guid));
        form.push(pair("secret", password));
    } else {
        form.push(pair("password", password));
    }
    assert(form.deep_view() =~= verify_form_spec(
        guid@,
        password@,
        device_token_or_default(Some(device_token)),
    ));
    form
}

} // verus!

verus! {

pub open spec fn has_field(form: Seq<(Seq<char>, Seq<char>)>, name: Seq<char>) -> bool {
    exists|k: int| 0 <= k < form.len() && #[trigger] form[k].0 == name
}

/// A platform guid (`steamworks:` prefix) is submitted with `steamid` and
/// `secret` and without `password`; any other guid with `password` and
/// without `steamid` or `secret`.
pub proof fn lemma_form_by_guid_kind(guid: Seq<char>, password: Seq<char>, device_token: Seq<char>)
    ensures
        ({
            let form = verify_form_spec(guid, password, device_token);
            if is_steam_guid(guid) {
                has_field(form, "steamid"@) && has_field(form, "secret"@) && !has_field(
                    form,
                    "password"@,
                )
            } else {
                has_field(form, "password"@) && !has_field(form, "steamid"@) && !has_field(
                    form,
                    "secret"@,
                )
            }
        }),
{
    reveal_strlit("clientToken");
    reveal_strlit("guid");
    reveal_strlit("steamid");
    reveal_strlit("secret");
    reveal_strlit("password");
    let form = verify_form_spec(guid, password, device_token);
    if is_steam_guid(guid) {
        assert(form[2].0 == "steamid"@);
        assert(form[3].0 == "secret"@);
        assert forall|k: int| 0 <= k < form.len() implies #[trigger] form[k].0 != "password"@ by {
            assert(form[k].0.len() != "password"@.len());
        }
    } else {
        assert(form[2].0 == "password"@);
        assert forall|k: int| 0 <= k < form.len() implies #[trigger] form[k].0 != "steamid"@
            && form[k].0 != "secret"@ by {
            assert(form[k].0.len() != "steamid"@.len());
            assert(form[k].0.len() != "secret"@.len());
        }
    }
}

/// A response without any `<AccessToken>` opening tag yields `TokenNotFound`.
pub proof fn lemma_no_token_tag(body: Seq<char>)
    requires
        forall|i: int| !#[trigger] occurs_at(body, i, open_tag(access_token_tag())),
    ensures
        token_outcome(body) == Err::<(Seq<char>, Seq<char>, Seq<char>), _>(
            AccountError::TokenNotFound,
        ),
{
    assert(!exists|i: int, j: int| first_enclosure(body, access_token_tag(), i, j));
}

/// A response with a non-empty access token but no `<AccessTokenTimestamp>`
/// opening tag yields `InvalidResponse` naming the timestamp.
pub proof fn lemma_no_timestamp_tag(body: Seq<char>)
    requires
        tagged_field(body, access_token_tag()) is Some,
        tagged_field(body, access_token_tag())->Some_0.len() > 0,
        forall|i: int| !#[trigger] occurs_at(body, i, open_tag(token_field_name(TokenField::Timestamp))),
    ensures
        token_outcome(body) == Err::<(Seq<char>, Seq<char>, Seq<char>), _>(
            AccountError::InvalidResponse(TokenField::Timestamp),
        ),
{
    let tag = token_field_name(TokenField::Timestamp);
    assert(!exists|i: int, j: int| first_enclosure(body, tag, i, j));
}

} // verus!

verus! {

/// An element `<tag>text</tag>`.
pub open spec fn element(tag: Seq<char>, text: Seq<char>) -> Seq<char> {
    open_tag(tag) + text + close_tag(tag)
}

/// The three elements of a successful verification, in the service's order.
pub open spec fn token_elements(token: Seq<char>, timestamp: Seq<char>, expiration: Seq<char>) -> Seq<
    char,
> {
    element(access_token_tag(), token) + element(token_field_name(TokenField::Timestamp), timestamp)
        + element(token_field_name(TokenField::Expiration), expiration)
}

/// Markup before the elements that opens none of the three tags.
pub open spec fn opens_no_token_tag(pre: Seq<char>) -> bool {
    &&& no_occurrence(pre, open_tag(access_token_tag()))
    &&& no_occurrence(pre, open_tag(token_field_name(TokenField::Timestamp)))
    &&& no_occurrence(pre, open_tag(token_field_name(TokenField::Expiration)))
}

proof fn lemma_token_tags()
    ensures
        is_tag_name(access_token_tag()),
        is_tag_name(token_field_name(TokenField::Timestamp)),
        is_tag_name(token_field_name(TokenField::Expiration)),
        access_token_tag() != token_field_name(TokenField::Timestamp),
        access_token_tag() != token_field_name(TokenField::Expiration),
        token_field_name(TokenField::Timestamp) != token_field_name(TokenField::Expiration),
{
    reveal_strlit("AccessToken");
    reveal_strlit("AccessTokenTimestamp");
    reveal_strlit("AccessTokenExpiration");
    assert(access_token_tag().len() != token_field_name(TokenField::Timestamp).len());
    assert(access_token_tag().len() != token_field_name(TokenField::Expiration).len());
    assert(token_field_name(TokenField::Timestamp).len() != token_field_name(
        TokenField::Expiration,
    ).len());
}

/// A response holding `<AccessToken>X</AccessToken>`,
/// `<AccessTokenTimestamp>Y</AccessTokenTimestamp>` and
/// `<AccessTokenExpiration>Z</AccessTokenExpiration>` yields exactly X, Y and
/// Z, in whatever order the three stand and whatever markup surrounds them,
/// as long as X is not empty, the three are plain one-line text, and each tag
/// is opened only by its element.
pub proof fn lemma_well_formed_response(
    body: Seq<char>,
    token: Seq<char>,
    timestamp: Seq<char>,
    expiration: Seq<char>,
)
    requires
        holds_element_once(body, access_token_tag(), token),
        holds_element_once(body, token_field_name(TokenField::Timestamp), timestamp),
        holds_element_once(body, token_field_name(TokenField::Expiration), expiration),
        token.len() > 0,
        is_field_text(token),
        is_field_text(timestamp),
        is_field_text(expiration),
    ensures
        token_outcome(body) == Ok::<_, AccountError>((token, timestamp, expiration)),
{
    lemma_token_tags();
    lemma_element_once(body, access_token_tag(), token);
    lemma_element_once(body, token_field_name(TokenField::Timestamp), timestamp);
    lemma_element_once(body, token_field_name(TokenField::Expiration), expiration);
}

/// The three elements in the service's order after markup that opens none of
/// the tags: the layout of an ordinary verification response.
pub proof fn lemma_service_order_response(
    pre: Seq<char>,
    token: Seq<char>,
    timestamp: Seq<char>,
    expiration: Seq<char>,
    post: Seq<char>,
)
    requires
        opens_no_token_tag(pre),
        token.len() > 0,
        is_field_text(token),
        is_field_text(timestamp),
        is_field_text(expiration),
    ensures
        token_outcome(pre + token_elements(token, timestamp, expiration) + post) == Ok::<
            _,
            AccountError,
        >((token, timestamp, expiration)),
{
    let a = access_token_tag();
    let t = token_field_name(TokenField::Timestamp);
    let e = token_field_name(TokenField::Expiration);
    lemma_token_tags();
    let wa = element(a, token);
    let wt = element(t, timestamp);
    let we = element(e, expiration);
    let body = pre + token_elements(token, timestamp, expiration) + post;
    assert(body =~= pre + open_tag(a) + token + close_tag(a) + (wt + we + post));
    lemma_tagged_field_at(body, a, pre, token, wt + we + post);

    lemma_other_tag_absent(a, token, t);
    lemma_open_tag_chars(t);
    lemma_no_occurrence_append(pre, wa, open_tag(t));
    assert(body =~= (pre + wa) + open_tag(t) + timestamp + close_tag(t) + (we + post));
    lemma_tagged_field_at(body, t, pre + wa, timestamp, we + post);

    lemma_other_tag_absent(a, token, e);
    lemma_other_tag_absent(t, timestamp, e);
    lemma_open_tag_chars(e);
    lemma_no_occurrence_append(pre, wa, open_tag(e));
    lemma_no_occurrence_append(pre + wa, wt, open_tag(e));
    assert(body =~= (pre + wa + wt) + open_tag(e) + expiration + close_tag(e) + post);
    lemma_tagged_field_at(body, e, pre + wa + wt, expiration, post);
}

/// A response whose first access-token element is empty yields
/// `CouldNotParseToken`.
pub proof fn lemma_empty_token(pre: Seq<char>, post: Seq<char>)
    requires
        no_occurrence(pre, open_tag(access_token_tag())),
    ensures
        token_outcome(pre + element(access_token_tag(), seq![]) + post) == Err::<
            (Seq<char>, Seq<char>, Seq<char>),
            _,
        >(AccountError::CouldNotParseToken),
{
    let a = access_token_tag();
    lemma_token_tags();
    let body = pre + element(a, seq![]) + post;
    assert(body =~= pre + open_tag(a) + seq![] + close_tag(a) + post);
    lemma_tagged_field_at(body, a, pre, seq![], post);
}

} // verus!
