use cookie_ext::{
    parse_header, parse_segment, removal, trim_chars, Cookie, CookieError, HttpRequest,
    HttpResponseBuilder, SameSite,
};

fn request(lines: &[&str]) -> HttpRequest {
    let mut r = HttpRequest::new();
    for l in lines {
        r.append_cookie_header(l.as_bytes().to_vec());
    }
    r
}

fn pairs(jar: &[Cookie]) -> Vec<(String, String)> {
    jar.iter().map(|c| (c.name.clone(), c.value.clone())).collect()
}

fn p(n: &str, v: &str) -> (String, String) {
    (n.to_string(), v.to_string())
}

fn set_cookie_values(resp: &HttpResponseBuilder) -> Vec<String> {
    resp.headers()
        .iter()
        .filter(|h| h.name == "set-cookie")
        .map(|h| h.value.clone())
        .collect()
}

fn plain(n: &str, v: &str) -> Cookie {
    Cookie::new(n.to_string(), v.to_string())
}

#[test]
fn multi_header_concatenation() {
    let mut r = request(&["a=1", "b=2; c=3"]);
    let jar = r.cookies().unwrap();
    assert_eq!(pairs(&jar), vec![p("a", "1"), p("b", "2"), p("c", "3")]);
}

#[test]
fn empty_segments_are_skipped() {
    let jar = parse_header(&b"a=1; ; b=2".to_vec()).unwrap();
    assert_eq!(pairs(&jar), vec![p("a", "1"), p("b", "2")]);
    let jar = parse_header(&b";;  ;a=1;".to_vec()).unwrap();
    assert_eq!(pairs(&jar), vec![p("a", "1")]);
    assert!(parse_header(&Vec::new()).unwrap().is_empty());
}

#[test]
fn lookup_returns_first_match() {
    let mut r = request(&["a=1; b=2; b=3"]);
    let c = r.cookie("b").unwrap();
    assert_eq!(c.name(), "b");
    assert_eq!(c.value(), "2");
    assert!(r.cookie("B").is_none());
    assert!(r.cookie("d").is_none());
}

#[test]
fn malformed_header_is_a_syntax_error() {
    let mut r = request(&["=bad"]);
    assert_eq!(r.cookies().unwrap_err(), CookieError::Syntax);
    assert!(r.cookie("anything").is_none());
    assert!(r.cookie("bad").is_none());
}

#[test]
fn missing_equals_is_a_syntax_error() {
    assert_eq!(parse_header(&b"a=1; secure".to_vec()).unwrap_err(), CookieError::Syntax);
    assert_eq!(parse_header(&b" = x".to_vec()).unwrap_err(), CookieError::Syntax);
}

#[test]
fn invalid_utf8_is_a_decode_error() {
    assert_eq!(parse_header(&vec![b'a', b'=', 0xff]).unwrap_err(), CookieError::Decode);
    assert_eq!(parse_header(&b"a=%ff".to_vec()).unwrap_err(), CookieError::Decode);
    let mut r = request(&["a=1"]);
    r.append_cookie_header(vec![0xc3, 0x28]);
    assert_eq!(r.cookies().unwrap_err(), CookieError::Decode);
}

#[test]
fn first_bad_header_fails_the_whole_jar() {
    let mut r = request(&["a=1", "nope", "b=2"]);
    assert_eq!(r.cookies().unwrap_err(), CookieError::Syntax);
    assert!(r.cookie("a").is_none());
}

#[test]
fn segments_are_percent_decoded_and_trimmed() {
    let seg: Vec<char> = "a%20b = c%3Dd".chars().collect();
    let c = parse_segment(&seg).unwrap();
    assert_eq!(c.name, "a b");
    assert_eq!(c.value, "c=d");
    let jar = parse_header(&b"  q=\"quoted\"  ".to_vec()).unwrap();
    assert_eq!(pairs(&jar), vec![p("q", "quoted")]);
}

#[test]
fn trim_removes_unicode_white_space() {
    let s: Vec<char> = "\u{3000}\t a b \n\u{a0}".chars().collect();
    assert_eq!(trim_chars(&s).into_iter().collect::<String>(), "a b");
    let s: Vec<char> = " \r\n".chars().collect();
    assert!(trim_chars(&s).is_empty());
}

#[test]
fn jar_is_cached_after_success() {
    let mut r = request(&["a=1"]);
    let first = pairs(&r.cookies().unwrap());
    r.append_cookie_header(b"b=2".to_vec());
    let second = pairs(&r.cookies().unwrap());
    assert_eq!(first, second);
    assert_eq!(second, vec![p("a", "1")]);
}

#[test]
fn errors_are_not_cached() {
    let mut r = request(&["=bad"]);
    assert!(r.cookies().is_err());
    assert!(r.cookies().is_err());
}

#[test]
fn writes_append_and_never_replace() {
    let mut resp = HttpResponseBuilder::new();
    resp.cookie(plain("x", "1"));
    resp.cookie(plain("x", "1"));
    assert_eq!(set_cookie_values(&resp), vec!["x=1".to_string(), "x=1".to_string()]);
    assert_eq!(resp.headers().len(), 2);
}

#[test]
fn encoding_is_percent_encoded_with_attributes() {
    let mut resp = HttpResponseBuilder::new();
    let mut c = plain("key?", "value");
    c.path = Some("/".to_string());
    c.secure = true;
    resp.cookie(c);
    let v = set_cookie_values(&resp);
    assert_eq!(v.len(), 1);
    assert!(v[0].starts_with("key%3F=value"));
    assert!(v[0].contains("; Path=/"));
    assert!(v[0].contains("; Secure"));
}

#[test]
fn removal_cookie_expires_at_once() {
    let mut resp = HttpResponseBuilder::new();
    resp.cookie(plain("y", "2"));
    let mut c = plain("x", "v");
    c.path = Some("/app".to_string());
    resp.del_cookie(&c);
    let v = set_cookie_values(&resp);
    assert_eq!(v.len(), 2);
    assert_eq!(v[0], "y=2");
    assert!(v[1].starts_with("x=;") || v[1] == "x=");
    assert!(v[1].contains("Max-Age=0"));
    assert!(v[1].contains("Expires="));
    assert!(v[1].contains("Path=/app"));
}

#[test]
fn removal_form_keeps_name_and_clears_value() {
    let c = plain("x", "v");
    let r = removal(&c, 1000);
    assert_eq!(r.name, "x");
    assert_eq!(r.value, "");
    assert_eq!(r.max_age, Some(0));
    assert_eq!(r.expires, Some(1000));
}

#[test]
fn encode_parse_round_trip() {
    for (n, v) in [("a", "1"), ("sid", "abc def"), ("k=", "v;w"), ("ü", "%")] {
        let mut resp = HttpResponseBuilder::new();
        resp.cookie(plain(n, v));
        let line = set_cookie_values(&resp)[0].clone();
        let jar = parse_header(&line.as_bytes().to_vec()).unwrap();
        assert_eq!(jar.len(), 1);
        let mut again = HttpResponseBuilder::new();
        again.cookie(jar[0].copy());
        assert_eq!(set_cookie_values(&again)[0], line);
    }
}

#[test]
fn same_site_is_written() {
    let mut resp = HttpResponseBuilder::new();
    let mut c = plain("s", "1");
    c.same_site = Some(SameSite::Lax);
    resp.cookie(c);
    let mut c = plain("t", "2");
    c.same_site = Some(SameSite::Unrestricted);
    resp.cookie(c);
    let v = set_cookie_values(&resp);
    assert!(v[0].contains("; SameSite=Lax"));
    assert!(v[1].contains("; SameSite=None"));
}

#[test]
fn removal_at_a_given_time_expires_a_year_earlier() {
    let mut resp = HttpResponseBuilder::new();
    let mut c = plain("x", "v");
    c.same_site = Some(SameSite::Strict);
    resp.del_cookie_at(&c, 31536000 + 86400);
    let v = set_cookie_values(&resp);
    assert_eq!(v.len(), 1);
    assert!(v[0].contains("Max-Age=0"));
    assert!(v[0].contains("Expires=Fri, 02 Jan 1970 00:00:00 GMT"));
    assert!(v[0].contains("SameSite=Strict"));
}

#[test]
fn expiries_before_1970_and_after_9999() {
    let mut resp = HttpResponseBuilder::new();
    let mut c = plain("old", "1");
    c.expires = Some(-86400);
    resp.cookie(c);
    let mut c = plain("late", "1");
    c.expires = Some(i64::MAX);
    resp.cookie(c);
    let v = set_cookie_values(&resp);
    assert!(v[0].contains("Expires=Wed, 31 Dec 1969 00:00:00 GMT"));
    assert!(v[1].contains("Expires=Fri, 31 Dec 9999 23:59:59 GMT"));
}

#[test]
fn empty_name_is_never_found() {
    let mut r = request(&["a=1; b=2"]);
    assert!(r.cookie("").is_none());
    let mut r = request(&["=1"]);
    assert!(r.cookie("").is_none());
}
