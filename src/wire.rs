use vstd::prelude::*;
use crate::merge::{pairs, Entry};

verus! {

#[verifier::external_type_specification]
#[verifier::external_body]
pub struct ExUrlParseError(url::ParseError);

/// What `str::to_lowercase` makes of `s`.
pub uninterp spec fn lowercase_of(s: Seq<char>) -> Seq<char>;

/// Relies on `str::to_lowercase`: the result depends on the characters alone.
#[verifier::external_body]
pub(crate) fn to_lowercase(s: &String) -> (r: String)
    ensures
        r@ == lowercase_of(s@),
{
    s.to_lowercase()
}

/// A character that a lower-case header name may hold.
pub open spec fn header_name_char(c: char) -> bool {
    ('a' <= c <= 'z') || ('0' <= c <= '9') || c == '!' || c == '"' || c == '#' || c == '$' || c
        == '%' || c == '&' || c == '\'' || c == '*' || c == '+' || c == '-' || c == '.' || c == '^'
        || c == '_' || c == '`' || c == '|' || c == '~'
}

/// A lower-case header name: one to 65535 characters, each allowed in a name.
pub open spec fn valid_header_name(s: Seq<char>) -> bool {
    0 < s.len() <= 65535 && forall|i: int| 0 <= i < s.len() ==> header_name_char(#[trigger] s[i])
}

/// A header value: no control character but the tab.
pub open spec fn valid_header_value(s: Seq<char>) -> bool {
    forall|i: int|
        0 <= i < s.len() ==> (#[trigger] s[i] == '\t' || (s[i] as u32 >= 32 && s[i] as u32 != 127))
}

/// Relies on `HeaderName::from_lowercase` (http, through reqwest): it accepts one to
/// 65535 bytes, each a lower-case letter, a digit or one of ``!"#$%&'*+-.^_`|~``.
#[verifier::external_body]
pub(crate) fn header_name_accepted(name: &String) -> (r: bool)
    ensures
        r == valid_header_name(name@),
{
    reqwest::header::HeaderName::from_lowercase(name.as_bytes()).is_ok()
}

/// Relies on `HeaderValue::from_str` (http, through reqwest): it refuses a byte
/// under 32 other than the tab, and the byte 127.
#[verifier::external_body]
pub(crate) fn header_value_accepted(value: &String) -> (r: bool)
    ensures
        r == valid_header_value(value@),
{
    reqwest::header::HeaderValue::from_str(value).is_ok()
}

/// The most characters that a url and its query pairs may hold here. Each
/// character may grow to twelve once encoded, and the url crate keeps its
/// offsets in `u32`.
pub const MAX_URL_CHARS: usize = 300_000_000;

/// The characters of `base` and of the query pairs, with two more per pair.
pub open spec fn url_text_size(base: Seq<char>, params: Seq<Entry>) -> int
    decreases params.len(),
{
    if params.len() == 0 {
        base.len() as int
    } else {
        url_text_size(base, params.drop_last()) + params.last().0.len() + params.last().1.len()
            + 2
    }
}

/// Whether `base` and `params` stay within `MAX_URL_CHARS`.
pub fn url_text_fits(base: &String, params: &Vec<(String, String)>) -> (r: bool)
    ensures
        r == (url_text_size(base@, pairs(params@)) <= MAX_URL_CHARS),
{
    let ghost pp = pairs(params@);
    let mut total: usize = base.as_str().unicode_len();
    if total > MAX_URL_CHARS {
        proof {
            lemma_size_grows(base@, pp, 0);
            assert(pp.take(0).len() == 0);
        }
        return false;
    }
    assert(pp.take(0).len() == 0);
    let mut i: usize = 0;
    while i < params.len()
        invariant
            i <= params.len(),
            pp == pairs(params@),
            total == url_text_size(base@, pp.take(i as int)),
            total <= MAX_URL_CHARS,
        decreases params.len() - i,
    {
        assert(pp.take(i + 1).drop_last() =~= pp.take(i as int));
        let k = params[i].0.as_str().unicode_len();
        let v = params[i].1.as_str().unicode_len();
        if k > MAX_URL_CHARS || v > MAX_URL_CHARS || total + k + v + 2 > MAX_URL_CHARS {
            proof {
                lemma_size_grows(base@, pp, i + 1);
            }
            return false;
        }
        total = total + k + v + 2;
        i = i + 1;
    }
    assert(pp.take(i as int) =~= pp);
    true
}

proof fn lemma_size_grows(base: Seq<char>, params: Seq<Entry>, n: int)
    requires
        0 <= n <= params.len(),
    ensures
        url_text_size(base, params) >= url_text_size(base, params.take(n)),
    decreases params.len() - n,
{
    if n == params.len() {
        assert(params.take(n) =~= params);
    } else {
        assert(params.take(n + 1).drop_last() =~= params.take(n));
        lemma_size_grows(base, params, n + 1);
    }
}

/// What `Url::parse` makes of `base`, written out; `None` where it refuses it.
pub uninterp spec fn parsed_url(base: Seq<char>) -> Option<Seq<char>>;

/// Relies on `url::Url::parse`: parses `base`; the result depends on it alone.
#[verifier::external_body]
pub(crate) fn parse_url(base: &String) -> (r: Result<String, url::ParseError>)
    requires
        base@.len() <= MAX_URL_CHARS,
    ensures
        match r {
            Ok(u) => parsed_url(base@) == Some(u@),
            Err(_) => parsed_url(base@) is None,
        },
{
    url::Url::parse(base).map(String::from)
}

/// What `Url::parse_with_params` makes of `base` and the query pairs `params`,
/// written out; `None` where it refuses them.
pub uninterp spec fn url_with_params(base: Seq<char>, params: Seq<Entry>) -> Option<Seq<char>>;

/// Relies on `url::Url::parse_with_params`: parses `base` and appends the pairs,
/// encoded, as query parameters; the result depends on its arguments alone. It
/// panics where the url outgrows `u32` offsets, which the size bound rules out.
#[verifier::external_body]
pub(crate) fn parse_with_params(base: &String, params: &Vec<(String, String)>) -> (r: Result<
    String,
    url::ParseError,
>)
    requires
        url_text_size(base@, pairs(params@)) <= MAX_URL_CHARS,
    ensures
        match r {
            Ok(u) => url_with_params(base@, pairs(params@)) == Some(u@),
            Err(_) => url_with_params(base@, pairs(params@)) is None,
        },
{
    url::Url::parse_with_params(base, params.iter()).map(String::from)
}

} // verus!
