//! Assembly of the game client invocation from a session token.

use vstd::prelude::*;
use vstd::utf8::encode_utf8;

use crate::text::{join, join_path};
use crate::token::AccessTokenResponse;

verus! {

/// The digit for a six-bit value: `A`-`Z`, `a`-`z`, `0`-`9`, `+` and `/`.
pub open spec fn b64_digit(v: int) -> char {
    if v < 26 {
        (65 + v) as char
    } else if v < 52 {
        (71 + v) as char
    } else if v < 62 {
        (v - 4) as char
    } else if v == 62 {
        '+'
    } else {
        '/'
    }
}

/// Standard base64 with padding: each group of three bytes becomes four
/// digits of six bits, high bits first; a short last group is padded with `=`.
pub open spec fn base64_of(b: Seq<u8>) -> Seq<char>
    decreases b.len(),
{
    let b0 = b[0] as int;
    let b1 = b[1] as int;
    let b2 = b[2] as int;
    if b.len() == 0 {
        seq![]
    } else if b.len() == 1 {
        seq![b64_digit(b0 / 4), b64_digit((b0 % 4) * 16), '=', '=']
    } else if b.len() == 2 {
        seq![
            b64_digit(b0 / 4),
            b64_digit((b0 % 4) * 16 + b1 / 16),
            b64_digit((b1 % 16) * 4),
            '=',
        ]
    } else {
        seq![
            b64_digit(b0 / 4),
            b64_digit((b0 % 4) * 16 + b1 / 16),
            b64_digit((b1 % 16) * 4 + b2 / 64),
            b64_digit(b2 % 64),
        ] + base64_of(b.subrange(3, b.len() as int))
    }
}

/// The base64 text of a string's UTF-8 bytes.
pub open spec fn base64_text(s: Seq<char>) -> Seq<char> {
    base64_of(encode_utf8(s))
}

/// Relies on base64's `general_purpose::STANDARD` engine: `encode` writes the
/// bytes in the standard alphabet with `=` padding.
#[verifier::external_body]
fn encode_base64(s: &str) -> (r: String)
    ensures
        r@ == base64_text(s@),
{
    base64::Engine::encode(&base64::engine::general_purpose::STANDARD, s)
}

pub open spec fn executable_name() -> Seq<char> {
    "RotMG Exalt.exe"@
}

/// The data literal that carries four already-encoded fields.
pub open spec fn launch_data(
    guid: Seq<char>,
    token: Seq<char>,
    timestamp: Seq<char>,
    expiration: Seq<char>,
) -> Seq<char> {
    "data:{platform:Deca,guid:"@ + guid + ",token:"@ + token + ",tokenTimestamp:"@ + timestamp
        + ",tokenExpiration:"@ + expiration + ",env:4}"@
}

/// The one argument handed to the game client: each field in base64.
pub open spec fn launch_argument_spec(
    guid: Seq<char>,
    token: Seq<char>,
    timestamp: Seq<char>,
    expiration: Seq<char>,
) -> Seq<char> {
    launch_data(
        base64_text(guid),
        base64_text(token),
        base64_text(timestamp),
        base64_text(expiration),
    )
}

/// A process to start: the executable and its single argument.
pub struct LaunchSpec {
    pub program: String,
    pub argument: String,
}

/// Encodes the account and session into the game client's argument.
pub fn launch_argument(guid: &str, token: &AccessTokenResponse) -> (r: String)
    ensures
        r@ == launch_argument_spec(guid@, token.access_token@, token.timestamp@, token.expiration@),
{
    let mut arg = String::from_str("data:{platform:Deca,guid:");
    arg.append(encode_base64(guid).as_str());
    arg.append(",token:");
    arg.append(encode_base64(token.access_token.as_str()).as_str());
    arg.append(",tokenTimestamp:");
    arg.append(encode_base64(token.timestamp.as_str()).as_str());
    arg.append(",tokenExpiration:");
    arg.append(encode_base64(token.expiration.as_str()).as_str());
    arg.append(",env:4}");
    arg
}

/// The game client under `exalt_dir`, started with the session's argument.
pub fn launch_invocation(exalt_dir: &str, guid: &str, token: &AccessTokenResponse) -> (r:
    LaunchSpec)
    ensures
        r.program@ == join_path(exalt_dir@, executable_name()),
        r.argument@ == launch_argument_spec(
            guid@,
            token.access_token@,
            token.timestamp@,
            token.expiration@,
        ),
{
    LaunchSpec { program: join(exalt_dir, "RotMG Exalt.exe"), argument: launch_argument(guid, token) }
}

} // verus!

verus! {

proof fn lemma_digit(v: int, w: int)
    requires
        0 <= v < 64,
        0 <= w < 64,
    ensures
        b64_digit(v) != '=',
        b64_digit(v) != ',',
        b64_digit(v) == b64_digit(w) ==> v == w,
{
}

proof fn lemma_sextets(a0: int, a1: int, a2: int, b0: int, b1: int, b2: int)
    requires
        0 <= a0 < 256,
        0 <= a1 < 256,
        0 <= a2 < 256,
        0 <= b0 < 256,
        0 <= b1 < 256,
        0 <= b2 < 256,
        a0 / 4 == b0 / 4,
        (a0 % 4) * 16 + a1 / 16 == (b0 % 4) * 16 + b1 / 16,
        (a1 % 16) * 4 + a2 / 64 == (b1 % 16) * 4 + b2 / 64,
        a2 % 64 == b2 % 64,
    ensures
        a0 == b0,
        a1 == b1,
        a2 == b2,
{
    assert(a0 % 4 == b0 % 4 && a1 / 16 == b1 / 16) by (nonlinear_arith)
        requires
            0 <= a1 < 256,
            0 <= b1 < 256,
            (a0 % 4) * 16 + a1 / 16 == (b0 % 4) * 16 + b1 / 16,
            0 <= a0 % 4 < 4,
            0 <= b0 % 4 < 4,
    ;
    assert(a1 % 16 == b1 % 16 && a2 / 64 == b2 / 64) by (nonlinear_arith)
        requires
            0 <= a2 < 256,
            0 <= b2 < 256,
            (a1 % 16) * 4 + a2 / 64 == (b1 % 16) * 4 + b2 / 64,
            0 <= a1 % 16 < 16,
            0 <= b1 % 16 < 16,
    ;
}

/// Every character of a base64 text is a digit or `=`, never a comma.
pub proof fn lemma_base64_no_comma(b: Seq<u8>)
    ensures
        forall|k: int| 0 <= k < base64_of(b).len() ==> #[trigger] base64_of(b)[k] != ',',
    decreases b.len(),
{
    if b.len() >= 3 {
        let rest = b.subrange(3, b.len() as int);
        lemma_base64_no_comma(rest);
        let e = base64_of(b);
        assert forall|k: int| 0 <= k < e.len() implies #[trigger] e[k] != ',' by {
            if k >= 4 {
                assert(e[k] == base64_of(rest)[k - 4]);
            } else {
                lemma_digit(b[0] as int / 4, 0);
                lemma_digit((b[0] as int % 4) * 16 + b[1] as int / 16, 0);
                lemma_digit((b[1] as int % 16) * 4 + b[2] as int / 64, 0);
                lemma_digit(b[2] as int % 64, 0);
            }
        }
    } else if b.len() == 2 {
        lemma_digit(b[0] as int / 4, 0);
        lemma_digit((b[0] as int % 4) * 16 + b[1] as int / 16, 0);
        lemma_digit((b[1] as int % 16) * 4, 0);
    } else if b.len() == 1 {
        lemma_digit(b[0] as int / 4, 0);
        lemma_digit((b[0] as int % 4) * 16, 0);
    }
}

/// Distinct byte strings have distinct base64 texts.
pub proof fn lemma_base64_injective(a: Seq<u8>, b: Seq<u8>)
    requires
        base64_of(a) == base64_of(b),
    ensures
        a == b,
    decreases a.len(),
{
    let ea = base64_of(a);
    let eb = base64_of(b);
    if a.len() == 0 || b.len() == 0 {
        if a.len() > 0 {
            assert(ea.len() >= 4);
        } else if b.len() > 0 {
            assert(eb.len() >= 4);
        }
        assert(a =~= b);
    } else {
        let (a0, a1, a2) = (a[0] as int, a[1] as int, a[2] as int);
        let (b0, b1, b2) = (b[0] as int, b[1] as int, b[2] as int);
        assert(ea[0] == b64_digit(a0 / 4));
        assert(eb[0] == b64_digit(b0 / 4));
        lemma_digit(a0 / 4, b0 / 4);
        assert(ea[1] == eb[1]);
        assert(ea[2] == eb[2]);
        assert(ea[3] == eb[3]);
        if a.len() >= 3 && b.len() >= 3 {
            assert(ea[1] == b64_digit((a0 % 4) * 16 + a1 / 16));
            assert(eb[1] == b64_digit((b0 % 4) * 16 + b1 / 16));
            assert(ea[2] == b64_digit((a1 % 16) * 4 + a2 / 64));
            assert(eb[2] == b64_digit((b1 % 16) * 4 + b2 / 64));
            assert(ea[3] == b64_digit(a2 % 64));
            assert(eb[3] == b64_digit(b2 % 64));
            lemma_digit((a0 % 4) * 16 + a1 / 16, (b0 % 4) * 16 + b1 / 16);
            lemma_digit((a1 % 16) * 4 + a2 / 64, (b1 % 16) * 4 + b2 / 64);
            lemma_digit(a2 % 64, b2 % 64);
            lemma_sextets(a0, a1, a2, b0, b1, b2);
            let ra = a.subrange(3, a.len() as int);
            let rb = b.subrange(3, b.len() as int);
            assert(base64_of(ra) =~= ea.subrange(4, ea.len() as int));
            assert(base64_of(rb) =~= eb.subrange(4, eb.len() as int));
            lemma_base64_injective(ra, rb);
            assert(a =~= seq![a[0], a[1], a[2]] + ra);
            assert(b =~= seq![b[0], b[1], b[2]] + rb);
        } else if a.len() == 2 && b.len() == 2 {
            lemma_digit((a0 % 4) * 16 + a1 / 16, (b0 % 4) * 16 + b1 / 16);
            lemma_digit((a1 % 16) * 4, (b1 % 16) * 4);
            lemma_sextets(a0, a1, 0, b0, b1, 0);
            assert(a =~= b);
        } else if a.len() == 1 && b.len() == 1 {
            lemma_digit((a0 % 4) * 16, (b0 % 4) * 16);
            lemma_sextets(a0, 0, 0, b0, 0, 0);
            assert(a =~= b);
        } else if a.len() >= 3 {
            lemma_digit((a1 % 16) * 4 + a2 / 64, 0);
            lemma_digit(a2 % 64, 0);
        } else if b.len() >= 3 {
            lemma_digit((b1 % 16) * 4 + b2 / 64, 0);
            lemma_digit(b2 % 64, 0);
        } else if a.len() == 2 {
            lemma_digit((a1 % 16) * 4, 0);
        } else {
            lemma_digit((b1 % 16) * 4, 0);
        }
    }
}

} // verus!

verus! {

pub open spec fn comma_free(s: Seq<char>) -> bool {
    forall|k: int| 0 <= k < s.len() ==> #[trigger] s[k] != ','
}

proof fn lemma_split_at_comma(x: Seq<char>, y: Seq<char>, x2: Seq<char>, y2: Seq<char>)
    requires
        x + y == x2 + y2,
        comma_free(x),
        comma_free(x2),
        y.len() > 0,
        y2.len() > 0,
        y[0] == ',',
        y2[0] == ',',
    ensures
        x == x2,
        y == y2,
{
    let s = x + y;
    if x.len() < x2.len() {
        assert(s[x.len() as int] == y[0]);
        assert((x2 + y2)[x.len() as int] == x2[x.len() as int]);
    } else if x.len() > x2.len() {
        assert((x2 + y2)[x2.len() as int] == y2[0]);
        assert(s[x2.len() as int] == x[x2.len() as int]);
    }
    assert(x =~= s.subrange(0, x.len() as int));
    assert(x2 =~= (x2 + y2).subrange(0, x2.len() as int));
    assert(y =~= s.subrange(x.len() as int, s.len() as int));
    assert(y2 =~= (x2 + y2).subrange(x2.len() as int, s.len() as int));
}

proof fn lemma_strip_field(
    x: Seq<char>,
    sep: Seq<char>,
    rest: Seq<char>,
    x2: Seq<char>,
    rest2: Seq<char>,
)
    requires
        x + (sep + rest) == x2 + (sep + rest2),
        comma_free(x),
        comma_free(x2),
        sep.len() > 0,
        sep[0] == ',',
    ensures
        x == x2,
        rest == rest2,
{
    lemma_split_at_comma(x, sep + rest, x2, sep + rest2);
    assert(rest =~= (sep + rest).subrange(sep.len() as int, (sep + rest).len() as int));
    assert(rest2 =~= (sep + rest2).subrange(sep.len() as int, (sep + rest2).len() as int));
}

proof fn lemma_base64_text_injective(a: Seq<char>, b: Seq<char>)
    requires
        base64_text(a) == base64_text(b),
    ensures
        a == b,
{
    lemma_base64_injective(encode_utf8(a), encode_utf8(b));
    vstd::utf8::encode_utf8_decode_utf8(a);
    vstd::utf8::encode_utf8_decode_utf8(b);
}

proof fn lemma_launch_data_fields(
    g: Seq<char>,
    t: Seq<char>,
    ts: Seq<char>,
    e: Seq<char>,
    g2: Seq<char>,
    t2: Seq<char>,
    ts2: Seq<char>,
    e2: Seq<char>,
)
    requires
        launch_data(g, t, ts, e) == launch_data(g2, t2, ts2, e2),
        comma_free(g),
        comma_free(t),
        comma_free(ts),
        comma_free(e),
        comma_free(g2),
        comma_free(t2),
        comma_free(ts2),
        comma_free(e2),
    ensures
        g == g2,
        t == t2,
        ts == ts2,
        e == e2,
{
    reveal_strlit(",token:");
    reveal_strlit(",tokenTimestamp:");
    reveal_strlit(",tokenExpiration:");
    reveal_strlit(",env:4}");
    let head = "data:{platform:Deca,guid:"@;
    let s1 = ",token:"@;
    let s2 = ",tokenTimestamp:"@;
    let s3 = ",tokenExpiration:"@;
    let s4 = ",env:4}"@;
    let arg = launch_data(g, t, ts, e);
    let r4 = e + s4;
    let q4 = e2 + s4;
    let r3 = ts + (s3 + r4);
    let q3 = ts2 + (s3 + q4);
    let r2 = t + (s2 + r3);
    let q2 = t2 + (s2 + q3);
    let r1 = g + (s1 + r2);
    let q1 = g2 + (s1 + q2);
    assert(arg =~= head + r1);
    assert(launch_data(g2, t2, ts2, e2) =~= head + q1);
    assert(r1 =~= arg.subrange(head.len() as int, arg.len() as int));
    assert(q1 =~= arg.subrange(head.len() as int, arg.len() as int));
    lemma_strip_field(g, s1, r2, g2, q2);
    lemma_strip_field(t, s2, r3, t2, q3);
    lemma_strip_field(ts, s3, r4, ts2, q4);
    lemma_split_at_comma(e, s4, e2, s4);
}

proof fn lemma_base64_text_comma_free(s: Seq<char>)
    ensures
        comma_free(base64_text(s)),
{
    lemma_base64_no_comma(encode_utf8(s));
}

/// The launch argument gives back what it encodes: two arguments that are
/// equal carry the same guid, token, timestamp and expiration, so decoding
/// each base64 field recovers exactly the values it was built from.
pub proof fn lemma_launch_argument_recovers_fields(
    guid: Seq<char>,
    token: Seq<char>,
    timestamp: Seq<char>,
    expiration: Seq<char>,
    guid2: Seq<char>,
    token2: Seq<char>,
    timestamp2: Seq<char>,
    expiration2: Seq<char>,
)
    requires
        launch_argument_spec(guid, token, timestamp, expiration) == launch_argument_spec(
            guid2,
            token2,
            timestamp2,
            expiration2,
        ),
    ensures
        guid == guid2,
        token == token2,
        timestamp == timestamp2,
        expiration == expiration2,
{
    lemma_base64_text_comma_free(guid);
    lemma_base64_text_comma_free(token);
    lemma_base64_text_comma_free(timestamp);
    lemma_base64_text_comma_free(expiration);
    lemma_base64_text_comma_free(guid2);
    lemma_base64_text_comma_free(token2);
    lemma_base64_text_comma_free(timestamp2);
    lemma_base64_text_comma_free(expiration2);
    lemma_launch_data_fields(
        base64_text(guid),
        base64_text(token),
        base64_text(timestamp),
        base64_text(expiration),
        base64_text(guid2),
        base64_text(token2),
        base64_text(timestamp2),
        base64_text(expiration2),
    );
    lemma_base64_text_injective(guid, guid2);
    lemma_base64_text_injective(token, token2);
    lemma_base64_text_injective(timestamp, timestamp2);
    lemma_base64_text_injective(expiration, expiration2);
}

} // verus!
