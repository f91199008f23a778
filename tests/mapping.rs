use spartan_client::parsed_url::ParsedUrl;
use spartan_client::request::Request;

fn wire_of(url: &str) -> String {
    Request::from_url(ParsedUrl::parse(url).unwrap()).unwrap().to_string()
}

#[test]
fn basic_url_mapping_without_slash() {
    let request = Request::from_url(ParsedUrl::parse("spartan://example.com").unwrap()).unwrap();
    assert_eq!("example.com / 0\r\n", request.to_string())
}

#[test]
fn basic_url_mapping_with_slash() {
    let request = Request::from_url(ParsedUrl::parse("spartan://example.com/").unwrap()).unwrap();
    assert_eq!("example.com / 0\r\n", request.to_string())
}

#[test]
fn basic_url_mapping_with_port() {
    let request = Request::from_url(ParsedUrl::parse("spartan://example.com:3000/").unwrap()).unwrap();
    assert_eq!("example.com / 0\r\n", request.to_string())
}

#[test]
fn basic_url_mapping_with_anchor() {
    let request = Request::from_url(ParsedUrl::parse("spartan://example.com/#about").unwrap()).unwrap();
    assert_eq!("example.com / 0\r\n", request.to_string())
}

#[test]
fn basic_url_mapping_with_user() {
    let request = Request::from_url(ParsedUrl::parse("spartan://anon@example.com/").unwrap()).unwrap();
    assert_eq!("example.com / 0\r\n", request.to_string())
}

#[test]
fn url_mapping_from_ip_address() {
    let request = Request::from_url(ParsedUrl::parse("spartan://127.0.0.1/").unwrap()).unwrap();
    assert_eq!("127.0.0.1 / 0\r\n", request.to_string())
}

#[test]
fn url_mapping_from_ip6_address() {
    let request = Request::from_url(ParsedUrl::parse("spartan://[::1]/").unwrap()).unwrap();
    assert_eq!("[::1] / 0\r\n", request.to_string())
}

#[test]
fn url_mapping_with_punycode() {
    let request = Request::from_url(ParsedUrl::parse("spartan://examplé.com/").unwrap()).unwrap();
    assert_eq!("xn--exampl-gva.com / 0\r\n", request.to_string())
}

#[test]
fn url_mapping_with_urlencoded_path() {
    let request = Request::from_url(ParsedUrl::parse("spartan://example.com/my%20file.txt").unwrap()).unwrap();
    assert_eq!("example.com /my%20file.txt 0\r\n", request.to_string())
}

#[test]
fn url_mapping_with_unicode_path() {
    let request = Request::from_url(ParsedUrl::parse("spartan://example.com/café.txt").unwrap()).unwrap();
    assert_eq!("example.com /caf%C3%A9.txt 0\r\n", request.to_string())
}

#[test]
fn url_mapping_with_data() {
    let request = Request::from_url(ParsedUrl::parse("spartan://example.com?a=1&b=2").unwrap()).unwrap();
    assert_eq!("example.com / 7\r\na=1&b=2", request.to_string())
}

#[test]
fn url_mapping_with_urlencoded_data() {
    let request = Request::from_url(ParsedUrl::parse("spartan://example.com?hello%20world").unwrap()).unwrap();
    assert_eq!("example.com / 11\r\nhello world", request.to_string())
}

#[test]
fn empty_path_maps_to_root() {
    let parsed = ParsedUrl::parse("spartan://example.com").unwrap();
    assert_eq!(parsed.path, "");
    let request = Request::from_url(parsed).unwrap();
    assert_eq!(request.path(), "/");
}

#[test]
fn content_length_counts_characters_not_bytes() {
    let request = Request::from_url(ParsedUrl::parse("spartan://example.com/?caf%C3%A9").unwrap()).unwrap();
    assert_eq!(request.content_length(), 4);
    assert_eq!(request.data(), Some("café"));
    assert_eq!(request.to_string(), "example.com / 4\r\ncafé");
}

#[test]
fn plus_in_query_stays_literal() {
    assert_eq!(wire_of("spartan://example.com/?a+b"), "example.com / 3\r\na+b");
}

#[test]
fn empty_query_gives_no_body() {
    let request = Request::from_url(ParsedUrl::parse("spartan://example.com/?").unwrap()).unwrap();
    assert_eq!(request.content_length(), 0);
    assert_eq!(request.data(), None);
    assert_eq!(request.to_string(), "example.com / 0\r\n");
}

#[test]
fn host_is_lowercased_ascii_form() {
    let request = Request::from_url(ParsedUrl::parse("spartan://EXAMPLÉ.com/").unwrap()).unwrap();
    assert_eq!(request.host(), "xn--exampl-gva.com");
}

#[test]
fn other_scheme_is_rejected() {
    let parsed = ParsedUrl::parse("https://example.com").unwrap();
    assert_eq!(Request::from_url(parsed).err(), Some(spartan_client::error::SpartanError::InvalidScheme));
}

#[test]
fn url_without_host_is_rejected() {
    let parsed = ParsedUrl::parse("spartan:/no/host").unwrap();
    assert_eq!(parsed.host, None);
    assert_eq!(Request::from_url(parsed).err(), Some(spartan_client::error::SpartanError::MissingHost));
}

#[test]
fn query_that_is_not_utf8_is_rejected() {
    let parsed = ParsedUrl::parse("spartan://example.com/?%FF").unwrap();
    assert_eq!(Request::from_url(parsed).err(), Some(spartan_client::error::SpartanError::DecodeError));
}

#[test]
fn malformed_url_is_rejected() {
    assert_eq!(ParsedUrl::parse("not a url").err(), Some(spartan_client::error::SpartanError::ParseError));
}

#[test]
fn hand_built_url_maps_like_a_parsed_one() {
    let parsed = ParsedUrl {
        scheme: String::from("spartan"),
        host: Some(String::from("example.com")),
        path: String::new(),
        query: Some(String::from("x%3Dy")),
        port: None,
    };
    assert_eq!(Request::from_url(parsed).unwrap().to_string(), "example.com / 3\r\nx=y");
}

#[test]
fn mapping_twice_gives_identical_requests() {
    let url = "spartan://examplé.com/café.txt?hello%20world";
    let a = Request::from_url(ParsedUrl::parse(url).unwrap()).unwrap();
    let b = Request::from_url(ParsedUrl::parse(url).unwrap()).unwrap();
    assert_eq!(a.host(), b.host());
    assert_eq!(a.path(), b.path());
    assert_eq!(a.content_length(), b.content_length());
    assert_eq!(a.data(), b.data());
    assert_eq!(a.to_string(), b.to_string());
}

#[test]
fn request_line_splits_back_into_fields() {
    let request = Request::from_url(ParsedUrl::parse("spartan://example.com/a/b?hi%20there").unwrap()).unwrap();
    let wire = request.to_string();
    let (line, body) = wire.split_once("\r\n").unwrap();
    let fields: Vec<&str> = line.split(' ').collect();
    assert_eq!(fields, vec![request.host(), request.path(), "8"]);
    assert_eq!(fields[2].parse::<usize>().unwrap(), request.content_length());
    assert_eq!(body, "hi there");
}
