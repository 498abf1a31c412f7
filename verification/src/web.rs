//! Web retrieval: URL fetching checks and the web search pipeline. The
//! query is percent-encoded into a fixed search endpoint URL; the response
//! is classified (blocked, HTTP failure, or a page to read), result
//! triples are extracted from the HTML, and the kept results are rendered.
//! The HTML parsing is done by the scraper crate behind one trusted
//! wrapper whose result is named, so that everything around it — encoding,
//! classification, filtering and rendering — carries an exact contract.

use vstd::prelude::*;
use vstd::string::StringSliceAdditionalSpecFns;
use crate::text::{trim, trim_bytes, occurs, contains_bytes, push_all, join_with, views};
use crate::numfmt::dec_digits;
use reqwest::Url;
use scraper::{ElementRef, Html, Selector};

verus! {

/// How retrieval fails.
#[derive(Debug)]
pub enum WebError {
    EmptyUrl,
    EmptyQuery,
    Blocked,
    Http { status: u16, url: Vec<u8> },
    SearchHttp { status: u16 },
    Extract { reason: Vec<u8> },
}

/// One extracted search result.
#[derive(Debug)]
pub struct Hit {
    pub title: Vec<u8>,
    pub url: Vec<u8>,
    pub snippet: Vec<u8>,
}

/// A byte that percent-encoding leaves as itself: ASCII alphanumerics
/// and `-`, `.`, `_`, `~`.
pub open spec fn is_url_safe(b: u8) -> bool {
    (48 <= b <= 57) || (65 <= b <= 90) || (97 <= b <= 122) || b == 45 || b == 46 || b == 95
        || b == 126
}

/// Uppercase hexadecimal digit of a value below 16.
pub open spec fn hex_upper(n: int) -> u8 {
    if n < 10 {
        (48 + n) as u8
    } else {
        (55 + n) as u8
    }
}

/// What one byte encodes to: itself when safe, else a percent escape.
pub open spec fn enc_byte(b: u8) -> Seq<u8> {
    if is_url_safe(b) {
        seq![b]
    } else {
        seq![37u8, hex_upper(b as int / 16), hex_upper(b as int % 16)]
    }
}

/// The percent-encoding of a byte string.
pub open spec fn percent_encoded(s: Seq<u8>) -> Seq<u8>
    decreases s.len(),
{
    if s.len() == 0 {
        Seq::empty()
    } else {
        percent_encoded(s.take(s.len() - 1)) + enc_byte(s[s.len() - 1])
    }
}

/// Relies on urlencoding::encode_binary: every byte except ASCII
/// alphanumerics and `-`, `.`, `_`, `~` becomes `%` and two uppercase
/// hexadecimal digits; safe bytes pass through unchanged, in order.
#[verifier::external_body]
fn percent_encode(data: &[u8]) -> (r: Vec<u8>)
    ensures
        r@ == percent_encoded(data@),
{
    urlencoding::encode_binary(data).into_owned().into_bytes()
}

pub open spec fn search_endpoint() -> Seq<u8> {
    "https://html.duckduckgo.com/html/?q=".spec_bytes()
}

/// The search URL of a (trimmed) query.
pub open spec fn search_url_spec(q: Seq<u8>) -> Seq<u8> {
    search_endpoint() + percent_encoded(q)
}

/// Validate a search argument: the trimmed query, or the empty-query
/// failure exactly when nothing but whitespace was given.
pub fn validate_search_query(arg: &[u8]) -> (r: Result<Vec<u8>, WebError>)
    ensures
        match r {
            Ok(q) => q@ == trim(arg@) && trim(arg@).len() > 0,
            Err(e) => e is EmptyQuery && trim(arg@).len() == 0,
        },
{
    let q = trim_bytes(arg);
    if q.len() == 0 {
        Err(WebError::EmptyQuery)
    } else {
        Ok(q)
    }
}

/// Build the search URL for a trimmed query.
pub fn build_search_url(query: &[u8]) -> (r: Vec<u8>)
    ensures
        r@ == search_url_spec(query@),
{
    let mut out: Vec<u8> = Vec::new();
    push_all(&mut out, "https://html.duckduckgo.com/html/?q=".as_bytes());
    let enc = percent_encode(query);
    push_all(&mut out, enc.as_slice());
    proof {
        assert(out@ =~= search_url_spec(query@));
    }
    out
}

/// Validate a fetch argument: the trimmed URL, or the empty-URL failure
/// exactly when nothing but whitespace was given.
pub fn validate_fetch_url(arg: &[u8]) -> (r: Result<Vec<u8>, WebError>)
    ensures
        match r {
            Ok(u) => u@ == trim(arg@) && trim(arg@).len() > 0,
            Err(e) => e is EmptyUrl && trim(arg@).len() == 0,
        },
{
    let u = trim_bytes(arg);
    if u.len() == 0 {
        Err(WebError::EmptyUrl)
    } else {
        Ok(u)
    }
}

/// An HTTP status that counts as success.
pub open spec fn is_success_status(status: u16) -> bool {
    200 <= status <= 299
}

/// Judge a fetched response: the body on success, the HTTP failure with
/// status and URL otherwise.
pub fn check_fetch_response(status: u16, url: &[u8], body: Vec<u8>) -> (r: Result<
    Vec<u8>,
    WebError,
>)
    ensures
        match r {
            Ok(text) => is_success_status(status) && text == body,
            Err(e) => !is_success_status(status) && (e matches WebError::Http {
                status: s,
                url: u,
            } && s == status && u@ == url@),
        },
{
    if 200 <= status && status <= 299 {
        Ok(body)
    } else {
        let mut u: Vec<u8> = Vec::new();
        push_all(&mut u, url);
        Err(WebError::Http { status, url: u })
    }
}

/// A byte lowered to ASCII lower case.
pub open spec fn lower_byte(b: u8) -> u8 {
    if 65 <= b <= 90 {
        (b + 32) as u8
    } else {
        b
    }
}

/// A byte string lowered to ASCII lower case.
pub open spec fn ascii_lower(s: Seq<u8>) -> Seq<u8> {
    Seq::new(s.len(), |i: int| lower_byte(s[i]))
}

fn ascii_lower_bytes(s: &[u8]) -> (r: Vec<u8>)
    ensures
        r@ == ascii_lower(s@),
{
    let mut out: Vec<u8> = Vec::new();
    let mut i: usize = 0;
    while i < s.len()
        invariant
            0 <= i <= s@.len(),
            out@ =~= ascii_lower(s@).take(i as int),
        decreases s.len() - i,
    {
        let b = s[i];
        if 65 <= b && b <= 90 {
            out.push(b + 32);
        } else {
            out.push(b);
        }
        proof {
            assert(out@ =~= ascii_lower(s@).take(i + 1));
        }
        i = i + 1;
    }
    proof {
        assert(out@ =~= ascii_lower(s@));
    }
    out
}

/// The page carries blocking language (in ASCII-lowered form): a
/// captcha, an unusual-traffic notice, or the word blocked. The three
/// markers are ASCII, so lowering only the ASCII letters reads the same
/// pages as a full Unicode lowering would, short of pathological input.
pub open spec fn is_blocked_response(html: Seq<u8>) -> bool {
    occurs(ascii_lower(html), "captcha".spec_bytes()) || occurs(
        ascii_lower(html),
        "unusual traffic".spec_bytes(),
    ) || occurs(ascii_lower(html), "blocked".spec_bytes())
}

fn blocked_response(html: &[u8]) -> (r: bool)
    ensures
        r == is_blocked_response(html@),
{
    let lower = ascii_lower_bytes(html);
    contains_bytes(lower.as_slice(), "captcha".as_bytes()) || contains_bytes(
        lower.as_slice(),
        "unusual traffic".as_bytes(),
    ) || contains_bytes(lower.as_slice(), "blocked".as_bytes())
}

pub open spec fn msg_no_results() -> Seq<u8> {
    "No results found for the query.".spec_bytes()
}

pub open spec fn msg_unrecognized_page() -> Seq<u8> {
    "No results could be extracted from the search page. The page structure may have changed.".spec_bytes()
}

/// One rendered result block, from a title, a resolved URL and a snippet.
pub open spec fn hit_block(title: Seq<u8>, url: Seq<u8>, snippet: Seq<u8>) -> Seq<u8> {
    "Title: ".spec_bytes() + trim(title) + "\nURL: ".spec_bytes() + url
        + "\nSnippet: ".spec_bytes() + trim(snippet) + "\n---".spec_bytes()
}

/// The (title, url, snippet) triples of a hit list.
pub open spec fn hit_triples(hs: Seq<Hit>) -> Seq<(Seq<u8>, Seq<u8>, Seq<u8>)> {
    Seq::new(hs.len(), |i: int| (hs[i].title@, hs[i].url@, hs[i].snippet@))
}

pub open spec fn hit_blocks(ts: Seq<(Seq<u8>, Seq<u8>, Seq<u8>)>) -> Seq<Seq<u8>> {
    Seq::new(ts.len(), |i: int| hit_block(ts[i].0, ts[i].1, ts[i].2))
}

/// The rendered search answer: the blocks joined by newlines; with no
/// hits, the explicit no-results notice when the page says so in words,
/// and the unrecognized-structure notice otherwise.
pub open spec fn render_results_spec(ts: Seq<(Seq<u8>, Seq<u8>, Seq<u8>)>, html: Seq<u8>) -> Seq<
    u8,
> {
    if ts.len() == 0 {
        if occurs(html, "No results".spec_bytes()) || occurs(
            html,
            "no results found".spec_bytes(),
        ) {
            msg_no_results()
        } else {
            msg_unrecognized_page()
        }
    } else {
        join_with(hit_blocks(ts), seq![10u8])
    }
}

fn render_hit(h: &Hit) -> (r: Vec<u8>)
    ensures
        r@ == hit_block(h.title@, h.url@, h.snippet@),
{
    let mut out: Vec<u8> = Vec::new();
    push_all(&mut out, "Title: ".as_bytes());
    let t = trim_bytes(h.title.as_slice());
    push_all(&mut out, t.as_slice());
    push_all(&mut out, "\nURL: ".as_bytes());
    push_all(&mut out, h.url.as_slice());
    push_all(&mut out, "\nSnippet: ".as_bytes());
    let s = trim_bytes(h.snippet.as_slice());
    push_all(&mut out, s.as_slice());
    push_all(&mut out, "\n---".as_bytes());
    proof {
        assert(out@ =~= hit_block(h.title@, h.url@, h.snippet@));
    }
    out
}

/// Render the extracted hits, or the two distinct zero-result notices.
pub fn render_search_results(hs: &Vec<Hit>, html: &[u8]) -> (r: Vec<u8>)
    ensures
        r@ == render_results_spec(hit_triples(hs@), html@),
{
    if hs.len() == 0 {
        let mut out: Vec<u8> = Vec::new();
        if contains_bytes(html, "No results".as_bytes()) || contains_bytes(
            html,
            "no results found".as_bytes(),
        ) {
            push_all(&mut out, "No results found for the query.".as_bytes());
        } else {
            push_all(
                &mut out,
                "No results could be extracted from the search page. The page structure may have changed.".as_bytes(),
            );
        }
        out
    } else {
        let ghost ts = hit_triples(hs@);
        let mut blocks: Vec<Vec<u8>> = Vec::new();
        let mut i: usize = 0;
        while i < hs.len()
            invariant
                0 <= i <= hs@.len(),
                ts == hit_triples(hs@),
                views(blocks@) =~~= hit_blocks(ts).take(i as int),
            decreases hs.len() - i,
        {
            let b = render_hit(&hs[i]);
            let ghost prev = blocks@;
            let ghost bv = b@;
            blocks.push(b);
            proof {
                assert(views(blocks@) =~~= views(prev) + seq![bv]);
                assert(hit_blocks(ts)[i as int] == hit_block(
                    hs@[i as int].title@,
                    hs@[i as int].url@,
                    hs@[i as int].snippet@,
                ));
                assert(hit_blocks(ts).take(i + 1) =~~= hit_blocks(ts).take(i as int) + seq![
                    hit_blocks(ts)[i as int],
                ]);
            }
            i = i + 1;
        }
        proof {
            assert(views(blocks@) =~~= hit_blocks(ts));
        }
        let mut sep: Vec<u8> = Vec::new();
        sep.push(10);
        let out = crate::text::join_bytes(&blocks, sep.as_slice());
        proof {
            assert(sep@ =~= seq![10u8]);
        }
        out
    }
}

/// What the search page's result elements carry, before any filtering:
/// for each result element of the page, in order, its title text, its
/// link resolved against the base URL, and its snippet text, each empty
/// when absent or unresolvable. This is a function of the page text and
/// the base URL alone; the trusted wrapper below names its result as this
/// function, and nothing more is assumed about its value.
pub uninterp spec fn raw_hits_of(html: Seq<u8>, base: Seq<u8>) -> Seq<(Seq<u8>, Seq<u8>, Seq<u8>)>;

/// Whether a text parses as an absolute URL.
pub uninterp spec fn url_parses(s: Seq<u8>) -> bool;

/// The views of raw extraction triples.
pub open spec fn triple_views(v: Seq<(Vec<u8>, Vec<u8>, Vec<u8>)>) -> Seq<
    (Seq<u8>, Seq<u8>, Seq<u8>),
> {
    Seq::new(v.len(), |i: int| (v[i].0@, v[i].1@, v[i].2@))
}

/// Relies on reqwest::Url::parse (the url crate): whether the text is an
/// absolute URL; the answer depends on the text alone.
#[verifier::external_body]
fn url_parse_ok(s: &str) -> (r: bool)
    ensures
        r == url_parses(s.spec_bytes()),
{
    reqwest::Url::parse(s).is_ok()
}

/// Relies on scraper (Html::parse_document, Selector::parse, and
/// ElementRef's select, text and attr) and on reqwest::Url::join: the raw
/// result triples of a search page, one per result element — the title
/// text, the href resolved against the base, and the snippet text, each
/// empty when absent or unresolvable. The triples depend on the page text
/// and the base URL alone, which is all the contract states of them.
#[verifier::external_body]
fn raw_search_hits(html: &str, base: &str) -> (r: Vec<(Vec<u8>, Vec<u8>, Vec<u8>)>)
    ensures
        triple_views(r@) == raw_hits_of(html.spec_bytes(), base.spec_bytes()),
{
    let (Ok(rs), Ok(la), Ok(sn), Ok(u)) = (Selector::parse("div.result"),
        Selector::parse("a.result__a"), Selector::parse("a.result__snippet"), Url::parse(base))
        else { return vec![] };
    let txt = |e: ElementRef| e.text().collect::<String>().into_bytes();
    Html::parse_document(html).select(&rs).map(|el| {
        let a = el.select(&la).next();
        (a.map(&txt).unwrap_or_default(),
            u.join(a.and_then(|x| x.attr("href")).unwrap_or_default()).map(String::from)
                .unwrap_or_default().into_bytes(),
            el.select(&sn).next().map(&txt).unwrap_or_default())
    }).collect()
}

/// A raw triple is kept when both its title and its resolved URL are
/// non-empty.
pub open spec fn keep_hit(t: (Seq<u8>, Seq<u8>, Seq<u8>)) -> bool {
    t.0.len() > 0 && t.1.len() > 0
}

/// The kept triples of a raw extraction, in their original order.
pub open spec fn kept_hits(raw: Seq<(Seq<u8>, Seq<u8>, Seq<u8>)>) -> Seq<
    (Seq<u8>, Seq<u8>, Seq<u8>),
>
    decreases raw.len(),
{
    if raw.len() == 0 {
        Seq::empty()
    } else {
        kept_hits(raw.take(raw.len() - 1)) + (if keep_hit(raw[raw.len() - 1]) {
            seq![raw[raw.len() - 1]]
        } else {
            Seq::empty()
        })
    }
}

/// Every hit kept by extraction has a non-empty raw title and a
/// non-empty resolved URL.
pub open spec fn hits_wf(hs: Seq<Hit>) -> bool {
    forall|i: int|
        0 <= i < hs.len() ==> (#[trigger] hs[i]).title@.len() > 0 && hs[i].url@.len() > 0
}

/// Extract the search result hits of a response page: the page's raw
/// triples, keeping exactly those whose title and resolved link are
/// non-empty, in order. Fails, with the base-URL reason, exactly when the
/// request URL does not parse.
pub fn extract_hits(html: &str, request_url: &str) -> (r: Result<Vec<Hit>, WebError>)
    ensures
        match r {
            Ok(hs) => url_parses(request_url.spec_bytes()) && hits_wf(hs@) && hit_triples(hs@)
                == kept_hits(raw_hits_of(html.spec_bytes(), request_url.spec_bytes())),
            Err(e) => !url_parses(request_url.spec_bytes()) && (e matches WebError::Extract {
                reason,
            } && reason@ == "Invalid base URL".spec_bytes()),
        },
{
    if !url_parse_ok(request_url) {
        let mut reason: Vec<u8> = Vec::new();
        push_all(&mut reason, "Invalid base URL".as_bytes());
        return Err(WebError::Extract { reason });
    }
    let raw = raw_search_hits(html, request_url);
    let ghost rawv = triple_views(raw@);
    let mut hits: Vec<Hit> = Vec::new();
    let mut i: usize = 0;
    proof {
        assert(hit_triples(hits@) =~~= kept_hits(rawv.take(0)));
    }
    while i < raw.len()
        invariant
            0 <= i <= raw@.len(),
            rawv == triple_views(raw@),
            hits_wf(hits@),
            hit_triples(hits@) =~~= kept_hits(rawv.take(i as int)),
        decreases raw.len() - i,
    {
        proof {
            let p = rawv.take(i + 1);
            assert(p.take(i as int) =~= rawv.take(i as int));
            assert(p[i as int] == rawv[i as int]);
            assert(rawv[i as int] == (raw@[i as int].0@, raw@[i as int].1@, raw@[i as int].2@));
        }
        if raw[i].0.len() > 0 && raw[i].1.len() > 0 {
            let mut title: Vec<u8> = Vec::new();
            push_all(&mut title, raw[i].0.as_slice());
            let mut url: Vec<u8> = Vec::new();
            push_all(&mut url, raw[i].1.as_slice());
            let mut snippet: Vec<u8> = Vec::new();
            push_all(&mut snippet, raw[i].2.as_slice());
            let ghost before = hits@;
            hits.push(Hit { title, url, snippet });
            proof {
                assert(hit_triples(hits@) =~~= hit_triples(before) + seq![rawv[i as int]]);
                assert(hit_triples(hits@) =~~= kept_hits(rawv.take(i + 1)));
            }
        } else {
            proof {
                assert(hit_triples(hits@) =~~= kept_hits(rawv.take(i + 1)));
            }
        }
        i = i + 1;
    }
    proof {
        assert(rawv.take(raw@.len() as int) =~= rawv);
    }
    Ok(hits)
}

/// Judge and read a search response. Blocking language anywhere — on a
/// success status as much as on a failure — is the retryable blocked
/// failure; a non-success status without it is the search HTTP failure;
/// otherwise the page's raw triples are extracted, filtered and rendered,
/// with the two zero-result notices kept apart by `render_results_spec`.
pub fn search_outcome(status: u16, request_url: &str, html: &str) -> (r: Result<Vec<u8>, WebError>)
    ensures
        match r {
            Ok(text) => is_success_status(status) && !is_blocked_response(html.spec_bytes())
                && url_parses(request_url.spec_bytes()) && text@ == render_results_spec(
                kept_hits(raw_hits_of(html.spec_bytes(), request_url.spec_bytes())),
                html.spec_bytes(),
            ),
            Err(e) => match e {
                WebError::Blocked => is_blocked_response(html.spec_bytes()),
                WebError::SearchHttp { status: s } => !is_blocked_response(html.spec_bytes())
                    && !is_success_status(status) && s == status,
                WebError::Extract { reason } => !is_blocked_response(html.spec_bytes())
                    && is_success_status(status) && !url_parses(request_url.spec_bytes())
                    && reason@ == "Invalid base URL".spec_bytes(),
                _ => false,
            },
        },
{
    let body = html.as_bytes();
    if blocked_response(body) {
        return Err(WebError::Blocked);
    }
    if !(200 <= status && status <= 299) {
        return Err(WebError::SearchHttp { status });
    }
    match extract_hits(html, request_url) {
        Err(e) => Err(e),
        Ok(hits) => Ok(render_search_results(&hits, body)),
    }
}

impl WebError {
    /// The failure text reported to the model and echoed locally.
    pub fn message(&self) -> (r: Vec<u8>)
        ensures
            r@ == (match self {
                WebError::EmptyUrl => "URL cannot be empty".spec_bytes(),
                WebError::EmptyQuery => "Search query cannot be empty".spec_bytes(),
                WebError::Blocked => "Search engine is blocking the request (possible CAPTCHA or rate limiting). Please try again later.".spec_bytes(),
                WebError::Http { status, url } => "HTTP error ".spec_bytes() + dec_digits(
                    *status as nat,
                ) + ": ".spec_bytes() + url@,
                WebError::SearchHttp { status } => "HTTP error ".spec_bytes() + dec_digits(
                    *status as nat,
                ) + " while searching".spec_bytes(),
                WebError::Extract { reason } => reason@,
            }),
    {
        let mut out: Vec<u8> = Vec::new();
        match self {
            WebError::EmptyUrl => {
                push_all(&mut out, "URL cannot be empty".as_bytes());
            },
            WebError::EmptyQuery => {
                push_all(&mut out, "Search query cannot be empty".as_bytes());
            },
            WebError::Blocked => {
                push_all(
                    &mut out,
                    "Search engine is blocking the request (possible CAPTCHA or rate limiting). Please try again later.".as_bytes(),
                );
            },
            WebError::Http { status, url } => {
                push_all(&mut out, "HTTP error ".as_bytes());
                let digits = crate::numfmt::fmt_u64(*status as u64);
                push_all(&mut out, digits.as_slice());
                push_all(&mut out, ": ".as_bytes());
                push_all(&mut out, url.as_slice());
            },
            WebError::SearchHttp { status } => {
                push_all(&mut out, "HTTP error ".as_bytes());
                let digits = crate::numfmt::fmt_u64(*status as u64);
                push_all(&mut out, digits.as_slice());
                push_all(&mut out, " while searching".as_bytes());
            },
            WebError::Extract { reason } => {
                push_all(&mut out, reason.as_slice());
            },
        }
        proof {
            assert(out@ =~= (match self {
                WebError::EmptyUrl => "URL cannot be empty".spec_bytes(),
                WebError::EmptyQuery => "Search query cannot be empty".spec_bytes(),
                WebError::Blocked => "Search engine is blocking the request (possible CAPTCHA or rate limiting). Please try again later.".spec_bytes(),
                WebError::Http { status, url } => "HTTP error ".spec_bytes() + dec_digits(
                    *status as nat,
                ) + ": ".spec_bytes() + url@,
                WebError::SearchHttp { status } => "HTTP error ".spec_bytes() + dec_digits(
                    *status as nat,
                ) + " while searching".spec_bytes(),
                WebError::Extract { reason } => reason@,
            }));
        }
        out
    }
}

} // verus!
