use agentloop::web::{
    WebError, Hit, validate_search_query, validate_fetch_url, build_search_url,
    check_fetch_response, render_search_results, extract_hits, search_outcome,
};

fn b(s: &str) -> Vec<u8> {
    s.as_bytes().to_vec()
}

const SEARCH_URL: &str = "https://html.duckduckgo.com/html/?q=x";

#[test]
fn queries_are_percent_encoded() {
    let url = build_search_url(&b("a b"));
    assert_eq!(url, b("https://html.duckduckgo.com/html/?q=a%20b"));
    let url2 = build_search_url("grüße".as_bytes());
    assert_eq!(url2, b("https://html.duckduckgo.com/html/?q=gr%C3%BC%C3%9Fe"));
    let url3 = build_search_url(&b("safe-._~AZaz09"));
    assert_eq!(url3, b("https://html.duckduckgo.com/html/?q=safe-._~AZaz09"));
}

#[test]
fn empty_query_is_refused() {
    match validate_search_query(&b("  \n")) {
        Err(e) => assert_eq!(e.message(), b("Search query cannot be empty")),
        Ok(_) => panic!("expected a refusal"),
    }
    assert_eq!(validate_search_query(&b(" rust ")).unwrap(), b("rust"));
}

#[test]
fn empty_url_is_refused() {
    match validate_fetch_url(&b("")) {
        Err(e) => assert_eq!(e.message(), b("URL cannot be empty")),
        Ok(_) => panic!("expected a refusal"),
    }
    assert_eq!(validate_fetch_url(&b(" http://x ")).unwrap(), b("http://x"));
}

#[test]
fn fetch_success_returns_the_body() {
    let r = check_fetch_response(200, &b("http://x"), b("payload"));
    assert_eq!(r.unwrap(), b("payload"));
}

#[test]
fn fetch_failure_carries_status_and_url() {
    match check_fetch_response(404, &b("http://x"), b("ignored")) {
        Err(e) => assert_eq!(e.message(), b("HTTP error 404: http://x")),
        Ok(_) => panic!("expected a failure"),
    }
}

#[test]
fn blocking_language_wins_even_on_a_success_status() {
    let html = "<html>Please solve this CAPTCHA to continue</html>";
    match search_outcome(200, SEARCH_URL, html) {
        Err(WebError::Blocked) => {},
        _ => panic!("expected the blocked failure"),
    }
    let html2 = "<html>unusual traffic from your network</html>";
    match search_outcome(200, SEARCH_URL, html2) {
        Err(e) => assert_eq!(
            e.message(),
            b("Search engine is blocking the request (possible CAPTCHA or rate limiting). Please try again later.")
        ),
        Ok(_) => panic!("expected the blocked failure"),
    }
}

#[test]
fn blocking_language_is_a_distinct_retryable_failure() {
    let html = "<html>We need to verify: CAPTCHA required</html>";
    match search_outcome(403, SEARCH_URL, html) {
        Err(WebError::Blocked) => {},
        _ => panic!("expected the blocked failure"),
    }
    match search_outcome(500, SEARCH_URL, "<html>server broke</html>") {
        Err(e) => assert_eq!(e.message(), b("HTTP error 500 while searching")),
        Ok(_) => panic!("expected a failure"),
    }
}

#[test]
fn results_are_extracted_resolved_and_rendered() {
    let html = r#"<html><body>
      <div class="result">
        <a class="result__a" href="/l/?uddg=one">First Result</a>
        <a class="result__snippet">  snippet one  </a>
      </div>
      <div class="result">
        <a class="result__a" href="https://two.example/page">Second</a>
        <a class="result__snippet">snippet two</a>
      </div>
    </body></html>"#;
    let out = search_outcome(200, SEARCH_URL, html).unwrap();
    let text = String::from_utf8(out).unwrap();
    let expected = "Title: First Result\nURL: https://html.duckduckgo.com/l/?uddg=one\nSnippet: snippet one\n---\nTitle: Second\nURL: https://two.example/page\nSnippet: snippet two\n---";
    assert_eq!(text, expected);
}

#[test]
fn results_without_title_or_link_are_skipped() {
    let html = r#"<html><body>
      <div class="result"><a class="result__snippet">no title here</a></div>
      <div class="result">
        <a class="result__a" href="/ok">Kept</a>
      </div>
    </body></html>"#;
    let hits = extract_hits(html, SEARCH_URL).unwrap();
    assert_eq!(hits.len(), 1);
    assert_eq!(hits[0].title, b("Kept"));
    assert_eq!(hits[0].url, b("https://html.duckduckgo.com/ok"));
    assert_eq!(hits[0].snippet, b(""));
}

#[test]
fn explicit_no_results_page_is_reported_as_such() {
    let html = "<html><body><p>No results found for this search.</p></body></html>";
    let out = search_outcome(200, SEARCH_URL, html).unwrap();
    assert_eq!(out, b("No results found for the query."));
}

#[test]
fn unrecognized_page_structure_is_kept_apart() {
    let html = "<html><body><p>something entirely different</p></body></html>";
    let out = search_outcome(200, SEARCH_URL, html).unwrap();
    assert_eq!(
        out,
        b("No results could be extracted from the search page. The page structure may have changed.")
    );
}

#[test]
fn rendering_trims_titles_and_snippets() {
    let hits = vec![Hit { title: b("  T  "), url: b("u"), snippet: b(" s\n") }];
    let out = render_search_results(&hits, &b("<html></html>"));
    assert_eq!(out, b("Title: T\nURL: u\nSnippet: s\n---"));
}

#[test]
fn an_unusable_base_url_is_an_extraction_failure() {
    match search_outcome(200, "not a url", "<html></html>") {
        Err(WebError::Extract { .. }) => {},
        _ => panic!("expected an extraction failure"),
    }
}
