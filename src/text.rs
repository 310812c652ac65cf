//! Scraping tagged fields out of quasi-XML text, hex text and path joining.

use vstd::prelude::*;

verus! {

/// `p` stands at position `i` of `s`.
pub open spec fn occurs_at(s: Seq<char>, i: int, p: Seq<char>) -> bool {
    0 <= i && i + p.len() <= s.len() && s.subrange(i, i + p.len()) == p
}

pub open spec fn is_prefix(p: Seq<char>, s: Seq<char>) -> bool {
    occurs_at(s, 0, p)
}

pub open spec fn is_tag_name(tag: Seq<char>) -> bool {
    tag.len() > 0 && forall|k: int|
        0 <= k < tag.len() ==> #[trigger] is_ascii_alphanumeric(tag[k])
}

/// The longest tag name that `extract_tagged_field` searches for.
pub const MAX_TAG_LEN: usize = 256;

pub open spec fn is_ascii_alphanumeric(c: char) -> bool {
    ('0' <= c && c <= '9') || ('A' <= c && c <= 'Z') || ('a' <= c && c <= 'z')
}

pub open spec fn open_tag(tag: Seq<char>) -> Seq<char> {
    seq!['<'] + tag + seq!['>']
}

pub open spec fn close_tag(tag: Seq<char>) -> Seq<char> {
    seq!['<', '/'] + tag + seq!['>']
}

pub open spec fn single_line(s: Seq<char>) -> bool {
    forall|k: int| 0 <= k < s.len() ==> s[k] != '\n'
}

/// `body` opens `tag` at `i` and closes it at `j`, with one line of text between.
pub open spec fn encloses(body: Seq<char>, tag: Seq<char>, i: int, j: int) -> bool {
    &&& occurs_at(body, i, open_tag(tag))
    &&& i + open_tag(tag).len() <= j
    &&& occurs_at(body, j, close_tag(tag))
    &&& single_line(body.subrange(i + open_tag(tag).len(), j))
}

/// The enclosure that starts first, closed at its nearest closing tag.
pub open spec fn first_enclosure(body: Seq<char>, tag: Seq<char>, i: int, j: int) -> bool {
    &&& encloses(body, tag, i, j)
    &&& forall|i2: int, j2: int| #[trigger] encloses(body, tag, i2, j2) ==> i <= i2
    &&& forall|k: int| i <= k < j ==> !#[trigger] encloses(body, tag, i, k)
}

/// The text between the first `<tag>` and the nearest `</tag>` after it on the
/// same line; no well-formedness of the surrounding markup is required.
pub open spec fn tagged_field(body: Seq<char>, tag: Seq<char>) -> Option<Seq<char>> {
    if exists|i: int, j: int| first_enclosure(body, tag, i, j) {
        let (i, j) = choose|i: int, j: int| first_enclosure(body, tag, i, j);
        Some(body.subrange(i + open_tag(tag).len(), j))
    } else {
        None
    }
}

/// Relies on regex::Regex::new and Regex::captures: for an alphanumeric tag the
/// pattern `<tag>(.*?)</tag>` compiles, `captures` reports the leftmost match,
/// and its lazy group is the shortest run of characters other than `\n` that
/// ends before a closing tag. The bound on the tag keeps the compiled pattern
/// far below the crate's default size limit, past which `Regex::new` fails.
#[verifier::external_body]
pub(crate) fn scrape_tag(body: &str, tag: &str) -> (r: Option<String>)
    requires
        is_tag_name(tag@),
        tag@.len() <= MAX_TAG_LEN,
    ensures
        r is None <==> tagged_field(body@, tag@) is None,
        r is Some ==> tagged_field(body@, tag@) == Some(r->Some_0@),
{
    let re = regex::Regex::new(&format!("<{}>(.*?)</{}>", tag, tag)).ok()?;
    re.captures(body).and_then(|c| c.get(1)).map(|m| m.as_str().to_string())
}

/// Whether `tag` is a non-empty run of ASCII letters and digits.
pub fn is_tag(tag: &str) -> (r: bool)
    ensures
        r == is_tag_name(tag@),
{
    let n = tag.unicode_len();
    if n == 0 {
        return false;
    }
    let mut i: usize = 0;
    while i < n
        invariant
            n == tag@.len(),
            i <= n,
            forall|k: int| 0 <= k < i ==> #[trigger] is_ascii_alphanumeric(tag@[k]),
        decreases n - i,
    {
        let c = tag.get_char(i);
        if !(('0' <= c && c <= '9') || ('A' <= c && c <= 'Z') || ('a' <= c && c <= 'z')) {
            assert(!is_ascii_alphanumeric(tag@[i as int]));
            return false;
        }
        i = i + 1;
    }
    true
}

/// Whether `extract_tagged_field` searches for `tag`.
pub open spec fn is_searchable_tag(tag: Seq<char>) -> bool {
    is_tag_name(tag) && tag.len() <= MAX_TAG_LEN
}

/// The text of the first `<tag>` element of `body` (see `tagged_field`);
/// `None` also for a tag name that is not alphanumeric or is longer than
/// `MAX_TAG_LEN`.
pub fn extract_tagged_field(body: &str, tag: &str) -> (r: Option<String>)
    ensures
        !is_searchable_tag(tag@) ==> r is None,
        is_searchable_tag(tag@) ==> (r is None <==> tagged_field(body@, tag@) is None),
        is_searchable_tag(tag@) && r is Some ==> tagged_field(body@, tag@) == Some(r->Some_0@),
{
    if tag.unicode_len() <= MAX_TAG_LEN && is_tag(tag) {
        scrape_tag(body, tag)
    } else {
        None
    }
}

pub fn has_prefix(s: &str, p: &str) -> (r: bool)
    ensures
        r == is_prefix(p@, s@),
{
    let n = p.unicode_len();
    if n > s.unicode_len() {
        return false;
    }
    let mut i: usize = 0;
    while i < n
        invariant
            n == p@.len(),
            n <= s@.len(),
            i <= n,
            forall|k: int| 0 <= k < i ==> s@[k] == p@[k],
        decreases n - i,
    {
        if s.get_char(i) != p.get_char(i) {
            assert(s@.subrange(0, n as int)[i as int] != p@[i as int]);
            return false;
        }
        i = i + 1;
    }
    assert(s@.subrange(0, n as int) =~= p@);
    true
}

pub open spec fn is_path_separator(c: char) -> bool {
    c == '/' || c == '\\'
}

/// `name` under the directory `base`: a `/` goes between the two unless `base`
/// is empty or already ends with a separator.
pub open spec fn join_path(base: Seq<char>, name: Seq<char>) -> Seq<char> {
    if base.len() == 0 || is_path_separator(base.last()) {
        base + name
    } else {
        base + seq!['/'] + name
    }
}

pub fn join(base: &str, name: &str) -> (r: String)
    ensures
        r@ == join_path(base@, name@),
{
    let n = base.unicode_len();
    let mut out = String::from_str(base);
    if n > 0 {
        let c = base.get_char(n - 1);
        if c != '/' && c != '\\' {
            proof {
                reveal_strlit("/");
            }
            out.append("/");
        }
    }
    out.append(name);
    out
}

pub open spec fn hex_digits() -> Seq<char> {
    seq!['0', '1', '2', '3', '4', '5', '6', '7', '8', '9', 'a', 'b', 'c', 'd', 'e', 'f']
}

/// Two lowercase hexadecimal digits for each byte, high nibble first.
pub open spec fn hex_of(b: Seq<u8>) -> Seq<char>
    decreases b.len(),
{
    if b.len() == 0 {
        seq![]
    } else {
        hex_of(b.drop_last()) + seq![hex_digits()[b.last() as int / 16], hex_digits()[b.last() as int % 16]]
    }
}

pub open spec fn is_lower_hex(s: Seq<char>) -> bool {
    forall|k: int| 0 <= k < s.len() ==> hex_digits().contains(#[trigger] s[k])
}

pub proof fn lemma_hex_of_shape(b: Seq<u8>)
    ensures
        hex_of(b).len() == 2 * b.len(),
        is_lower_hex(hex_of(b)),
    decreases b.len(),
{
    if b.len() > 0 {
        lemma_hex_of_shape(b.drop_last());
        let h = hex_of(b);
        let d0 = hex_digits()[b.last() as int / 16];
        let d1 = hex_digits()[b.last() as int % 16];
        assert(hex_digits().contains(d0));
        assert(hex_digits().contains(d1));
        assert forall|k: int| 0 <= k < h.len() implies hex_digits().contains(#[trigger] h[k]) by {
            if k < h.len() - 2 {
                assert(h[k] == hex_of(b.drop_last())[k]);
            }
        }
    }
}

pub fn hex_encode(bytes: &Vec<u8>) -> (r: String)
    ensures
        r@ == hex_of(bytes@),
{
    let digits: &str = "0123456789abcdef";
    proof {
        reveal_strlit("0123456789abcdef");
        assert(digits@ =~= hex_digits());
    }
    let mut out = String::new();
    let mut i: usize = 0;
    while i < bytes.len()
        invariant
            i <= bytes@.len(),
            digits@ == hex_digits(),
            out@ == hex_of(bytes@.subrange(0, i as int)),
        decreases bytes@.len() - i,
    {
        let b = bytes[i];
        let hi = (b / 16) as usize;
        let lo = (b % 16) as usize;
        out.append(digits.substring_char(hi, hi + 1));
        out.append(digits.substring_char(lo, lo + 1));
        proof {
            let s = bytes@.subrange(0, i + 1);
            assert(s.drop_last() =~= bytes@.subrange(0, i as int));
            assert(digits@.subrange(hi as int, hi + 1) =~= seq![hex_digits()[hi as int]]);
            assert(digits@.subrange(lo as int, lo + 1) =~= seq![hex_digits()[lo as int]]);
        }
        i = i + 1;
    }
    assert(bytes@.subrange(0, bytes@.len() as int) =~= bytes@);
    out
}

} // verus!

verus! {

pub open spec fn no_occurrence(s: Seq<char>, p: Seq<char>) -> bool {
    forall|i: int| !#[trigger] occurs_at(s, i, p)
}

/// Text without markup: no `<` and no line break.
pub open spec fn is_field_text(s: Seq<char>) -> bool {
    single_line(s) && forall|k: int| 0 <= k < s.len() ==> s[k] != '<'
}

proof fn lemma_occurs_char(s: Seq<char>, i: int, p: Seq<char>, k: int)
    requires
        occurs_at(s, i, p),
        0 <= k < p.len(),
    ensures
        s[i + k] == p[k],
{
    assert(s.subrange(i, i + p.len())[k] == s[i + k]);
}

pub proof fn lemma_open_tag_chars(tag: Seq<char>)
    requires
        is_tag_name(tag),
    ensures
        open_tag(tag).len() == tag.len() + 2,
        open_tag(tag)[0] == '<',
        open_tag(tag)[tag.len() as int + 1] == '>',
        forall|k: int| 1 <= k <= tag.len() ==> #[trigger] open_tag(tag)[k] == tag[k - 1],
        forall|k: int| 1 <= k < open_tag(tag).len() ==> #[trigger] open_tag(tag)[k] != '<',
{
    let o = open_tag(tag);
    assert forall|k: int| 1 <= k <= tag.len() implies #[trigger] o[k] == tag[k - 1] by {}
    assert forall|k: int| 1 <= k < o.len() implies #[trigger] o[k] != '<' by {
        if k <= tag.len() {
            assert(is_ascii_alphanumeric(tag[k - 1]));
        }
    }
}

/// An opening tag found nowhere in `a` nor in `b` is not found in `a + b`
/// either when `b` starts with `<`: the tag holds `<` only at its start.
pub proof fn lemma_no_occurrence_append(a: Seq<char>, b: Seq<char>, p: Seq<char>)
    requires
        no_occurrence(a, p),
        no_occurrence(b, p),
        b.len() > 0,
        b[0] == '<',
        p.len() > 0,
        forall|k: int| 1 <= k < p.len() ==> #[trigger] p[k] != '<',
    ensures
        no_occurrence(a + b, p),
{
    let s = a + b;
    assert forall|i: int| !#[trigger] occurs_at(s, i, p) by {
        if occurs_at(s, i, p) {
            if i >= a.len() {
                assert(s.subrange(i, i + p.len()) =~= b.subrange(i - a.len(), i - a.len() + p.len()));
                assert(occurs_at(b, i - a.len(), p));
            } else if i + p.len() <= a.len() {
                assert(s.subrange(i, i + p.len()) =~= a.subrange(i, i + p.len()));
                assert(occurs_at(a, i, p));
            } else {
                lemma_occurs_char(s, i, p, a.len() as int - i);
            }
        }
    }
}

/// An element of one tag holds no opening tag of another.
pub proof fn lemma_other_tag_absent(t1: Seq<char>, x: Seq<char>, t2: Seq<char>)
    requires
        is_tag_name(t1),
        is_tag_name(t2),
        t1 != t2,
        is_field_text(x),
    ensures
        no_occurrence(open_tag(t1) + x + close_tag(t1), open_tag(t2)),
{
    let o1 = open_tag(t1);
    let o2 = open_tag(t2);
    let c1 = close_tag(t1);
    let w = o1 + x + c1;
    lemma_open_tag_chars(t1);
    lemma_open_tag_chars(t2);
    assert forall|i: int| !#[trigger] occurs_at(w, i, o2) by {
        if occurs_at(w, i, o2) {
            lemma_occurs_char(w, i, o2, 0);
            if 0 < i < o1.len() {
                assert(w[i] == o1[i]);
            } else if o1.len() <= i < o1.len() + x.len() {
                assert(w[i] == x[i - o1.len()]);
            } else if i > o1.len() + x.len() {
                let m = i - o1.len() - x.len();
                assert(w[i] == c1[m]);
                if 2 <= m < c1.len() - 1 {
                    assert(c1[m] == t1[m - 2]);
                    assert(is_ascii_alphanumeric(t1[m - 2]));
                }
            } else if i == o1.len() + x.len() {
                lemma_occurs_char(w, i, o2, 1);
                assert(w[i + 1] == c1[1]);
                assert(is_ascii_alphanumeric(t2[0]));
            } else {
                if exists|d: int| 0 <= d < t1.len() && d < t2.len() && t1[d] != t2[d] {
                    let d = choose|d: int| 0 <= d < t1.len() && d < t2.len() && t1[d] != t2[d];
                    lemma_occurs_char(w, 0, o2, d + 1);
                    assert(w[d + 1] == o1[d + 1]);
                } else if t1.len() < t2.len() {
                    let k = t1.len() + 1 as int;
                    lemma_occurs_char(w, 0, o2, k);
                    assert(w[k] == o1[k]);
                    assert(is_ascii_alphanumeric(t2[k - 1]));
                } else if t1.len() > t2.len() {
                    let k = t2.len() + 1 as int;
                    lemma_occurs_char(w, 0, o2, k);
                    assert(w[k] == o1[k]);
                    assert(is_ascii_alphanumeric(t1[k - 1]));
                } else {
                    assert(t1 =~= t2);
                }
            }
        }
    }
}

/// After a prefix without the opening tag, the first element of a tag is the
/// one found, and its text is what lies inside it.
pub proof fn lemma_tagged_field_at(
    body: Seq<char>,
    tag: Seq<char>,
    pre: Seq<char>,
    c: Seq<char>,
    post: Seq<char>,
)
    requires
        is_tag_name(tag),
        body == pre + open_tag(tag) + c + close_tag(tag) + post,
        no_occurrence(pre, open_tag(tag)),
        is_field_text(c),
    ensures
        tagged_field(body, tag) == Some(c),
{
    let o = open_tag(tag);
    let cl = close_tag(tag);
    lemma_open_tag_chars(tag);
    let i = pre.len() as int;
    let j = i + o.len() + c.len();
    assert(body.subrange(i, i + o.len()) =~= o);
    assert(body.subrange(j, j + cl.len()) =~= cl);
    assert(body.subrange(i + o.len(), j) =~= c);
    assert(encloses(body, tag, i, j));
    assert forall|i2: int, j2: int| #[trigger] encloses(body, tag, i2, j2) implies i <= i2 by {
        if i2 < i {
            if i2 + o.len() <= i {
                assert(body.subrange(i2, i2 + o.len()) =~= pre.subrange(i2, i2 + o.len()));
                assert(occurs_at(pre, i2, o));
            } else {
                lemma_occurs_char(body, i2, o, i - i2);
                assert(body[i] == o[0]);
            }
        }
    }
    assert forall|k: int| i <= k < j implies !#[trigger] encloses(body, tag, i, k) by {
        if encloses(body, tag, i, k) {
            lemma_occurs_char(body, k, cl, 0);
            assert(body[k] == c[k - i - o.len()]);
        }
    }
    assert(first_enclosure(body, tag, i, j));
    let (i3, j3) = choose|i3: int, j3: int| first_enclosure(body, tag, i3, j3);
    assert(i3 == i);
    if j3 < j {
        assert(!encloses(body, tag, i, j3));
    } else if j3 > j {
        assert(!encloses(body, tag, i3, j));
    }
}

/// `tag` is opened exactly once in `body`, and there by an element holding `text`.
pub open spec fn holds_element_once(body: Seq<char>, tag: Seq<char>, text: Seq<char>) -> bool {
    exists|i: int|
        #![trigger occurs_at(body, i, open_tag(tag) + text + close_tag(tag))]
        occurs_at(body, i, open_tag(tag) + text + close_tag(tag)) && forall|i2: int|
            #[trigger] occurs_at(body, i2, open_tag(tag)) ==> i2 == i
}

/// A tag opened only once, by an element of plain one-line text, yields that
/// text wherever the element stands.
pub proof fn lemma_element_once(body: Seq<char>, tag: Seq<char>, text: Seq<char>)
    requires
        is_tag_name(tag),
        holds_element_once(body, tag, text),
        is_field_text(text),
    ensures
        tagged_field(body, tag) == Some(text),
{
    let o = open_tag(tag);
    let w = o + text + close_tag(tag);
    let i = choose|i: int|
        #![trigger occurs_at(body, i, w)]
        occurs_at(body, i, w) && forall|i2: int| #[trigger] occurs_at(body, i2, o) ==> i2 == i;
    let pre = body.subrange(0, i);
    let post = body.subrange(i + w.len(), body.len() as int);
    assert(body =~= pre + body.subrange(i, i + w.len()) + post);
    assert(body =~= pre + o + text + close_tag(tag) + post);
    lemma_open_tag_chars(tag);
    assert forall|i2: int| !#[trigger] occurs_at(pre, i2, o) by {
        if occurs_at(pre, i2, o) {
            assert(pre.subrange(i2, i2 + o.len()) =~= body.subrange(i2, i2 + o.len()));
            assert(occurs_at(body, i2, o));
        }
    }
    lemma_tagged_field_at(body, tag, pre, text, post);
}

} // verus!
