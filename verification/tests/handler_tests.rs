use todo_server::handler::handle_request;
use todo_server::store::TodoApp;

fn send(app: &mut TodoApp, request: &str) -> String {
    // The server reads one fixed 1024-byte buffer per connection; mirror
    // that by padding the request with NUL bytes.
    let mut buffer = vec![0u8; 1024];
    let bytes = request.as_bytes();
    assert!(bytes.len() <= 1024);
    buffer[..bytes.len()].copy_from_slice(bytes);
    let response = handle_request(&buffer, app);
    String::from_utf8(response).expect("responses are UTF-8")
}

#[test]
fn post_creates_first_task() {
    let mut app = TodoApp::new();
    let resp = send(
        &mut app,
        "POST /tasks HTTP/1.1\r\nHost: localhost\r\n\r\n{\"description\":\"test\"}",
    );
    assert_eq!(
        resp,
        "HTTP/1.1 201 Created\r\nContent-Type: application/json\r\n\r\n{\"id\":1,\"description\":\"test\",\"completed\":false}"
    );
}

#[test]
fn put_marks_task_completed() {
    let mut app = TodoApp::new();
    send(
        &mut app,
        "POST /tasks HTTP/1.1\r\nHost: localhost\r\n\r\n{\"description\":\"test\"}",
    );
    let resp = send(
        &mut app,
        "PUT /tasks/1 HTTP/1.1\r\nHost: localhost\r\n\r\n{\"completed\":true}",
    );
    assert_eq!(
        resp,
        "HTTP/1.1 200 OK\r\nContent-Type: application/json\r\n\r\n{\"id\":1,\"description\":\"test\",\"completed\":true}"
    );
}

#[test]
fn delete_on_empty_store_gives_404_and_list_stays_empty() {
    let mut app = TodoApp::new();
    let resp = send(&mut app, "DELETE /tasks/99 HTTP/1.1\r\n\r\n");
    assert_eq!(resp, "HTTP/1.1 404 Not Found\r\n\r\nTask not found");
    let resp = send(&mut app, "GET /tasks HTTP/1.1\r\n\r\n");
    assert_eq!(
        resp,
        "HTTP/1.1 200 OK\r\nContent-Type: application/json\r\n\r\n[]"
    );
}

#[test]
fn post_without_braces_gives_400_and_leaves_store_unchanged() {
    let mut app = TodoApp::new();
    let resp = send(&mut app, "POST /tasks HTTP/1.1\r\n\r\nnot json");
    assert_eq!(resp, "HTTP/1.1 400 Bad Request\r\n\r\nInvalid JSON format");
    let resp = send(&mut app, "GET /tasks HTTP/1.1\r\n\r\n");
    assert!(resp.ends_with("[]"));
}

#[test]
fn post_with_braces_but_bad_json_gives_400() {
    let mut app = TodoApp::new();
    let resp = send(&mut app, "POST /tasks HTTP/1.1\r\n\r\n{not json}");
    assert_eq!(resp, "HTTP/1.1 400 Bad Request\r\n\r\nInvalid JSON");
    assert_eq!(app.get_all_tasks().len(), 0);
}

#[test]
fn post_without_description_field_gives_400() {
    let mut app = TodoApp::new();
    let resp = send(&mut app, "POST /tasks HTTP/1.1\r\n\r\n{\"completed\":true}");
    assert_eq!(resp, "HTTP/1.1 400 Bad Request\r\n\r\nInvalid JSON");
    assert_eq!(app.get_all_tasks().len(), 0);
}

#[test]
fn put_with_non_numeric_id_gives_400_and_leaves_store_unchanged() {
    let mut app = TodoApp::new();
    send(
        &mut app,
        "POST /tasks HTTP/1.1\r\n\r\n{\"description\":\"keep\"}",
    );
    let resp = send(
        &mut app,
        "PUT /tasks/abc HTTP/1.1\r\n\r\n{\"completed\":true}",
    );
    assert_eq!(resp, "HTTP/1.1 400 Bad Request\r\n\r\nInvalid task ID");
    let all = app.get_all_tasks();
    assert_eq!(all.len(), 1);
    assert_eq!(all[0].completed, false);
}

#[test]
fn put_missing_opening_brace_gives_400() {
    let mut app = TodoApp::new();
    let resp = send(&mut app, "PUT /tasks/1 HTTP/1.1\r\n\r\nplain");
    assert_eq!(
        resp,
        "HTTP/1.1 400 Bad Request\r\n\r\nInvalid body format (missing opening bracket)"
    );
}

#[test]
fn put_missing_closing_brace_gives_400() {
    let mut app = TodoApp::new();
    let resp = send(&mut app, "PUT /tasks/1 HTTP/1.1\r\n\r\n{\"completed\":true");
    assert_eq!(
        resp,
        "HTTP/1.1 400 Bad Request\r\n\r\nInvalid body format (missing closing bracket)"
    );
}

#[test]
fn put_unknown_id_gives_404() {
    let mut app = TodoApp::new();
    let resp = send(&mut app, "PUT /tasks/5 HTTP/1.1\r\n\r\n{\"completed\":true}");
    assert_eq!(resp, "HTTP/1.1 404 Not Found\r\n\r\nTask not found");
}

#[test]
fn get_lists_tasks_in_creation_order() {
    let mut app = TodoApp::new();
    send(&mut app, "POST /tasks HTTP/1.1\r\n\r\n{\"description\":\"a\"}");
    send(&mut app, "POST /tasks HTTP/1.1\r\n\r\n{\"description\":\"b\"}");
    let resp = send(&mut app, "GET /tasks HTTP/1.1\r\n\r\n");
    assert_eq!(
        resp,
        "HTTP/1.1 200 OK\r\nContent-Type: application/json\r\n\r\n[{\"id\":1,\"description\":\"a\",\"completed\":false},{\"id\":2,\"description\":\"b\",\"completed\":false}]"
    );
}

#[test]
fn delete_returns_removed_task_and_its_id_never_returns() {
    let mut app = TodoApp::new();
    send(&mut app, "POST /tasks HTTP/1.1\r\n\r\n{\"description\":\"a\"}");
    send(&mut app, "POST /tasks HTTP/1.1\r\n\r\n{\"description\":\"b\"}");
    let resp = send(&mut app, "DELETE /tasks/1 HTTP/1.1\r\n\r\n");
    assert_eq!(
        resp,
        "HTTP/1.1 200 OK\r\nContent-Type: application/json\r\n\r\n{\"id\":1,\"description\":\"a\",\"completed\":false}"
    );
    send(&mut app, "POST /tasks HTTP/1.1\r\n\r\n{\"description\":\"c\"}");
    let resp = send(&mut app, "GET /tasks HTTP/1.1\r\n\r\n");
    assert!(!resp.contains("\"id\":1,"));
    assert!(resp.contains("\"id\":2,"));
    assert!(resp.contains("\"id\":3,"));
}

#[test]
fn unknown_route_gives_404() {
    let mut app = TodoApp::new();
    let resp = send(&mut app, "GET /other HTTP/1.1\r\n\r\n");
    assert_eq!(resp, "HTTP/1.1 404 Not Found\r\n\r\nNot Found");
    let resp = send(&mut app, "PATCH /tasks HTTP/1.1\r\n\r\n");
    assert_eq!(resp, "HTTP/1.1 404 Not Found\r\n\r\nNot Found");
    let resp = send(&mut app, "PUT /tasks HTTP/1.1\r\n\r\n{}");
    assert_eq!(resp, "HTTP/1.1 404 Not Found\r\n\r\nNot Found");
}

#[test]
fn all_nul_buffer_routes_to_404() {
    let mut app = TodoApp::new();
    let buffer = vec![0u8; 1024];
    let resp = handle_request(&buffer, &mut app);
    assert_eq!(
        String::from_utf8(resp).unwrap(),
        "HTTP/1.1 404 Not Found\r\n\r\nNot Found"
    );
}

#[test]
fn empty_buffer_routes_to_404() {
    let mut app = TodoApp::new();
    let resp = handle_request(&[], &mut app);
    assert_eq!(
        String::from_utf8(resp).unwrap(),
        "HTTP/1.1 404 Not Found\r\n\r\nNot Found"
    );
}

#[test]
fn put_with_empty_envelope_returns_task_unchanged() {
    let mut app = TodoApp::new();
    send(&mut app, "POST /tasks HTTP/1.1\r\n\r\n{\"description\":\"same\"}");
    let resp = send(&mut app, "PUT /tasks/1 HTTP/1.1\r\n\r\n{}");
    assert_eq!(
        resp,
        "HTTP/1.1 200 OK\r\nContent-Type: application/json\r\n\r\n{\"id\":1,\"description\":\"same\",\"completed\":false}"
    );
}

#[test]
fn put_with_null_fields_counts_as_not_provided() {
    let mut app = TodoApp::new();
    send(&mut app, "POST /tasks HTTP/1.1\r\n\r\n{\"description\":\"stay\"}");
    let resp = send(
        &mut app,
        "PUT /tasks/1 HTTP/1.1\r\n\r\n{\"description\":null,\"completed\":null}",
    );
    assert_eq!(
        resp,
        "HTTP/1.1 200 OK\r\nContent-Type: application/json\r\n\r\n{\"id\":1,\"description\":\"stay\",\"completed\":false}"
    );
}

#[test]
fn put_with_wrongly_typed_field_gives_400() {
    let mut app = TodoApp::new();
    send(&mut app, "POST /tasks HTTP/1.1\r\n\r\n{\"description\":\"keep\"}");
    let resp = send(&mut app, "PUT /tasks/1 HTTP/1.1\r\n\r\n{\"completed\":\"yes\"}");
    assert_eq!(resp, "HTTP/1.1 400 Bad Request\r\n\r\nInvalid JSON body");
}

#[test]
fn id_above_u32_range_gives_400() {
    let mut app = TodoApp::new();
    let resp = send(&mut app, "DELETE /tasks/4294967296 HTTP/1.1\r\n\r\n");
    assert_eq!(resp, "HTTP/1.1 400 Bad Request\r\n\r\nInvalid task ID");
}

#[test]
fn put_with_empty_id_text_gives_400() {
    let mut app = TodoApp::new();
    let resp = send(&mut app, "PUT /tasks/ HTTP/1.1\r\n\r\n{\"completed\":true}");
    assert_eq!(resp, "HTTP/1.1 400 Bad Request\r\n\r\nInvalid task ID");
}

#[test]
fn id_with_plus_sign_parses_like_str_parse() {
    let mut app = TodoApp::new();
    send(&mut app, "POST /tasks HTTP/1.1\r\n\r\n{\"description\":\"a\"}");
    let resp = send(&mut app, "DELETE /tasks/+1 HTTP/1.1\r\n\r\n");
    assert_eq!(
        resp,
        "HTTP/1.1 200 OK\r\nContent-Type: application/json\r\n\r\n{\"id\":1,\"description\":\"a\",\"completed\":false}"
    );
}
