use scratch_server::RequestMapper;

#[test]
fn test_request_mapper() {
    let mapper = RequestMapper::init();
    let (status_line, template_name) = mapper.get("GET / HTTP/1.1");
    assert_eq!(status_line, "HTTP/1.1 200 OK");
    assert_eq!(template_name, "index.html");

    let (status_line, template_name) = mapper.get("GET /ping HTTP/1.1");
    assert_eq!(status_line, "HTTP/1.1 404 NOT FOUND");
    assert_eq!(template_name, "404.html");

    let (status_line, template_name) = mapper.get("VERB / HTTP/1.1");
    assert_eq!(status_line, "HTTP/1.1 404 NOT FOUND");
    assert_eq!(template_name, "404.html");
}

#[test]
fn empty_mapper_always_falls_back() {
    let mapper = RequestMapper::new();
    let (status_line, template_name) = mapper.get("GET / HTTP/1.1");
    assert_eq!(status_line, "HTTP/1.1 404 NOT FOUND");
    assert_eq!(template_name, "404.html");
    let (status_line, template_name) = mapper.get("");
    assert_eq!(status_line, "HTTP/1.1 404 NOT FOUND");
    assert_eq!(template_name, "404.html");
}

#[test]
fn request_line_absent_aborts_silently() {
    let mapper = RequestMapper::init();
    assert!(mapper.handle_request_line(&None).is_none());
}

#[test]
fn request_line_present_is_routed() {
    let mapper = RequestMapper::init();
    let plan = mapper.handle_request_line(&Some(String::from("GET / HTTP/1.1")));
    let (status_line, template_name) = plan.unwrap();
    assert_eq!(status_line, "HTTP/1.1 200 OK");
    assert_eq!(template_name, "index.html");
}
