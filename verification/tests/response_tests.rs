use scratch_server::response::usize_to_decimal;
use scratch_server::Renderer;
use scratch_server::RequestMapper;

#[test]
fn decimal_rendering_is_exact() {
    assert_eq!(usize_to_decimal(0), "0");
    assert_eq!(usize_to_decimal(7), "7");
    assert_eq!(usize_to_decimal(13), "13");
    assert_eq!(usize_to_decimal(100), "100");
    assert_eq!(usize_to_decimal(90210), "90210");
}

#[test]
fn template_path_is_under_static() {
    assert_eq!(Renderer::template_path("index.html"), "static/index.html");
    assert_eq!(Renderer::template_path("404.html"), "static/404.html");
}

#[test]
fn missing_template_degrades_to_empty_body() {
    assert_eq!(Renderer::resolve_template(None), "");
    assert_eq!(Renderer::resolve_template(Some(String::from("nope"))), "nope");
}

// The routed request line is served with the template's bytes and their
// exact byte count.
#[test]
fn response_for_routed_line() {
    let mapper = RequestMapper::init();
    let (status_line, template_name) = mapper.get("GET / HTTP/1.1");
    assert_eq!(template_name, "index.html");
    let contents = Renderer::resolve_template(Some(String::from("hello world\r\n")));
    let response = Renderer::build_response(&status_line, &contents);
    assert_eq!(
        response,
        "HTTP/1.1 200 OK\r\nContent-Length: 13\r\n\r\nhello world\r\n"
    );
}

// A miss is served from the fallback pair, with the fallback template's bytes.
#[test]
fn response_for_unrouted_line() {
    let mapper = RequestMapper::init();
    let (status_line, template_name) = mapper.get("GET /ping HTTP/1.1");
    assert_eq!(template_name, "404.html");
    let contents = Renderer::resolve_template(Some(String::from("nope")));
    let response = Renderer::build_response(&status_line, &contents);
    assert_eq!(response, "HTTP/1.1 404 NOT FOUND\r\nContent-Length: 4\r\n\r\nnope");
}

// A miss whose fallback template is unreadable still gets a well-formed
// response with a zero-length body.
#[test]
fn response_for_unrouted_line_without_template() {
    let mapper = RequestMapper::init();
    let (status_line, _template_name) = mapper.get("VERB / HTTP/1.1");
    let contents = Renderer::resolve_template(None);
    let response = Renderer::build_response(&status_line, &contents);
    assert_eq!(response, "HTTP/1.1 404 NOT FOUND\r\nContent-Length: 0\r\n\r\n");
}
