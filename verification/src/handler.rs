//! The connection handler's compute path: one raw request buffer in, one
//! complete HTTP response out, with the store mutated accordingly.
//!
//! `spec_handle` is the whole exchange as a mathematical function (of the
//! buffer, the store, and the named outcomes of the JSON envelope parses);
//! `handle_request` returns exactly its value. Reading the buffer from the
//! connection and writing the response back are the caller's.

use vstd::prelude::*;
use vstd::utf8::encode_utf8;

use crate::codec::{
    new_task_of, parse_new_task, parse_update_task, serialize_task, serialize_tasks, str_to_bytes,
    task_json, tasks_json, update_task_of,
};
use crate::request::{
    body_span, bytes_eq, bytes_starts_with, extract_body, first_line, method_of, parse_u32,
    parse_u32_spec, path_of, request_line_tokens, subrange_vec, BodyError,
};
use crate::store::{create_model, delete_model, update_model, StoreModel, TodoApp};

verus! {

pub open spec fn head_ok() -> Seq<u8> {
    encode_utf8("HTTP/1.1 200 OK\r\nContent-Type: application/json\r\n\r\n"@)
}

pub open spec fn head_created() -> Seq<u8> {
    encode_utf8("HTTP/1.1 201 Created\r\nContent-Type: application/json\r\n\r\n"@)
}

pub open spec fn resp_invalid_json() -> Seq<u8> {
    encode_utf8("HTTP/1.1 400 Bad Request\r\n\r\nInvalid JSON"@)
}

pub open spec fn resp_invalid_json_format() -> Seq<u8> {
    encode_utf8("HTTP/1.1 400 Bad Request\r\n\r\nInvalid JSON format"@)
}

pub open spec fn resp_invalid_json_body() -> Seq<u8> {
    encode_utf8("HTTP/1.1 400 Bad Request\r\n\r\nInvalid JSON body"@)
}

pub open spec fn resp_missing_open() -> Seq<u8> {
    encode_utf8("HTTP/1.1 400 Bad Request\r\n\r\nInvalid body format (missing opening bracket)"@)
}

pub open spec fn resp_missing_close() -> Seq<u8> {
    encode_utf8("HTTP/1.1 400 Bad Request\r\n\r\nInvalid body format (missing closing bracket)"@)
}

pub open spec fn resp_invalid_id() -> Seq<u8> {
    encode_utf8("HTTP/1.1 400 Bad Request\r\n\r\nInvalid task ID"@)
}

pub open spec fn resp_task_not_found() -> Seq<u8> {
    encode_utf8("HTTP/1.1 404 Not Found\r\n\r\nTask not found"@)
}

pub open spec fn resp_route_not_found() -> Seq<u8> {
    encode_utf8("HTTP/1.1 404 Not Found\r\n\r\nNot Found"@)
}

/// Whether the path names a single task: the prefix `/tasks/` followed by
/// the identifier text (which may still fail to parse).
pub open spec fn is_task_path(p: Seq<u8>) -> bool {
    p.len() >= encode_utf8("/tasks/"@).len() && p.subrange(
        0,
        encode_utf8("/tasks/"@).len() as int,
    ) == encode_utf8("/tasks/"@)
}

/// The identifier text: everything after the `/tasks/` prefix.
pub open spec fn task_path_id(p: Seq<u8>) -> Seq<u8> {
    p.skip(encode_utf8("/tasks/"@).len() as int)
}

/// The create exchange: cut the body candidate out of the buffer (or answer
/// 400), parse it as the creation envelope (or answer 400), create the task
/// and answer 201 with its rendering.
pub open spec fn spec_handle_post(input: Seq<u8>, s: StoreModel) -> (StoreModel, Seq<u8>) {
    match body_span(input) {
        Err(_) => (s, resp_invalid_json_format()),
        Ok(b) => match new_task_of(b) {
            None => (s, resp_invalid_json()),
            Some(d) => {
                let (s2, t) = create_model(s, d);
                (s2, head_created() + task_json(t))
            },
        },
    }
}

/// The update exchange: parse the identifier (or answer 400 without touching
/// the store), cut out and parse the body (or answer 400), update the task
/// and answer 200 with its new rendering, or 404 when the identifier is
/// unknown.
pub open spec fn spec_handle_put(input: Seq<u8>, idb: Seq<u8>, s: StoreModel) -> (
    StoreModel,
    Seq<u8>,
) {
    match parse_u32_spec(idb) {
        None => (s, resp_invalid_id()),
        Some(id) => match body_span(input) {
            Err(BodyError::MissingOpen) => (s, resp_missing_open()),
            Err(BodyError::MissingClose) => (s, resp_missing_close()),
            Ok(b) => match update_task_of(b) {
                None => (s, resp_invalid_json_body()),
                Some(u) => {
                    let (s2, r) = update_model(s, id, u.0, u.1);
                    match r {
                        None => (s2, resp_task_not_found()),
                        Some(t) => (s2, head_ok() + task_json(t)),
                    }
                },
            },
        },
    }
}

/// The delete exchange: parse the identifier (or answer 400), remove the
/// task and answer 200 with the removed record, or 404 when the identifier
/// is unknown.
pub open spec fn spec_handle_delete(idb: Seq<u8>, s: StoreModel) -> (StoreModel, Seq<u8>) {
    match parse_u32_spec(idb) {
        None => (s, resp_invalid_id()),
        Some(id) => {
            let (s2, r) = delete_model(s, id);
            match r {
                None => (s2, resp_task_not_found()),
                Some(t) => (s2, head_ok() + task_json(t)),
            }
        },
    }
}

/// One whole request/response exchange: the store after it and the response
/// bytes, as a function of the request buffer and the store before it.
///
/// The route is the pair of the first line's first two tokens. A buffer
/// with no or one token routes like any unknown pair, to 404.
pub open spec fn spec_handle(input: Seq<u8>, s: StoreModel) -> (StoreModel, Seq<u8>) {
    let line = first_line(input);
    let m = method_of(line);
    let p = path_of(line);
    if m == encode_utf8("GET"@) && p == encode_utf8("/tasks"@) {
        (s, head_ok() + tasks_json(s.tasks))
    } else if m == encode_utf8("POST"@) && p == encode_utf8("/tasks"@) {
        spec_handle_post(input, s)
    } else if m == encode_utf8("PUT"@) && is_task_path(p) {
        spec_handle_put(input, task_path_id(p), s)
    } else if m == encode_utf8("DELETE"@) && is_task_path(p) {
        spec_handle_delete(task_path_id(p), s)
    } else {
        (s, resp_route_not_found())
    }
}

/// Whether the response begins with the given head.
pub open spec fn has_prefix(r: Seq<u8>, p: Seq<u8>) -> bool {
    r.len() >= p.len() && r.subrange(0, p.len() as int) == p
}

/// A request that is turned away — an unknown route, a bad identifier, a
/// missing or unparsable body, an unknown task — leaves the store exactly
/// as it was: the store changes only when the response reports success
/// (a 200 or 201 head).
pub proof fn lemma_store_unchanged_unless_success(input: Seq<u8>, s: StoreModel)
    ensures
        ({
            let (s2, r) = spec_handle(input, s);
            s2 == s || has_prefix(r, head_ok()) || has_prefix(r, head_created())
        }),
{
    let (s2, r) = spec_handle(input, s);
    if s2 != s {
        let line = first_line(input);
        let m = method_of(line);
        let pth = path_of(line);
        if m == encode_utf8("POST"@) && pth == encode_utf8("/tasks"@) {
            match body_span(input) {
                Ok(b) => match new_task_of(b) {
                    Some(d) => lemma_prefix_of_concat(
                        head_created(),
                        task_json(create_model(s, d).1),
                    ),
                    None => (),
                },
                Err(_) => (),
            }
        } else if m == encode_utf8("PUT"@) && is_task_path(pth) {
            match parse_u32_spec(task_path_id(pth)) {
                Some(id) => match body_span(input) {
                    Ok(b) => match update_task_of(b) {
                        Some(u) => match update_model(s, id, u.0, u.1).1 {
                            Some(t) => lemma_prefix_of_concat(head_ok(), task_json(t)),
                            None => (),
                        },
                        None => (),
                    },
                    Err(_) => (),
                },
                None => (),
            }
        } else if m == encode_utf8("DELETE"@) && is_task_path(pth) {
            match parse_u32_spec(task_path_id(pth)) {
                Some(id) => match delete_model(s, id).1 {
                    Some(t) => lemma_prefix_of_concat(head_ok(), task_json(t)),
                    None => (),
                },
                None => (),
            }
        }
    }
}

/// A concatenation begins with its first part.
proof fn lemma_prefix_of_concat(p: Seq<u8>, b: Seq<u8>)
    ensures
        has_prefix(p + b, p),
{
    assert((p + b).subrange(0, p.len() as int) =~= p);
}

/// Handles one request buffer against the store and returns the complete
/// response, exactly as `spec_handle` describes: statuses 200, 201, 400 and
/// 404 and their bodies come out if and only if `spec_handle` says so, and
/// the store changes exactly on a successful create, update or delete.
pub fn handle_request(input: &[u8], app: &mut TodoApp) -> (r: Vec<u8>)
    requires
        old(app).wf(),
        old(app)@.next_id < u32::MAX,
    ensures
        final(app).wf(),
        final(app)@ == spec_handle(input@, old(app)@).0,
        r@ == spec_handle(input@, old(app)@).1,
{
    let (method, path) = request_line_tokens(input);
    let lit = str_to_bytes("GET");
    let is_get = bytes_eq(method.as_slice(), lit.as_slice());
    let lit = str_to_bytes("POST");
    let is_post = bytes_eq(method.as_slice(), lit.as_slice());
    let lit = str_to_bytes("PUT");
    let is_put = bytes_eq(method.as_slice(), lit.as_slice());
    let lit = str_to_bytes("DELETE");
    let is_delete = bytes_eq(method.as_slice(), lit.as_slice());
    let lit = str_to_bytes("/tasks");
    let is_tasks = bytes_eq(path.as_slice(), lit.as_slice());
    let prefix = str_to_bytes("/tasks/");
    let has_prefix = bytes_starts_with(path.as_slice(), prefix.as_slice());

    if is_get && is_tasks {
        let tasks = app.get_all_tasks();
        let mut out = str_to_bytes("HTTP/1.1 200 OK\r\nContent-Type: application/json\r\n\r\n");
        let mut body = serialize_tasks(&tasks);
        out.append(&mut body);
        out
    } else if is_post && is_tasks {
        match extract_body(input) {
            Err(_) => str_to_bytes("HTTP/1.1 400 Bad Request\r\n\r\nInvalid JSON format"),
            Ok(b) => match parse_new_task(b.as_slice()) {
                None => str_to_bytes("HTTP/1.1 400 Bad Request\r\n\r\nInvalid JSON"),
                Some(d) => {
                    let t = app.create_task(d);
                    let mut out = str_to_bytes(
                        "HTTP/1.1 201 Created\r\nContent-Type: application/json\r\n\r\n",
                    );
                    let mut body = serialize_task(&t);
                    out.append(&mut body);
                    out
                },
            },
        }
    } else if is_put && has_prefix {
        let idb = subrange_vec(path.as_slice(), prefix.len(), path.len());
        proof {
            assert(idb@ =~= task_path_id(path@));
        }
        match parse_u32(idb.as_slice()) {
            None => str_to_bytes("HTTP/1.1 400 Bad Request\r\n\r\nInvalid task ID"),
            Some(id) => match extract_body(input) {
                Err(BodyError::MissingOpen) => str_to_bytes(
                    "HTTP/1.1 400 Bad Request\r\n\r\nInvalid body format (missing opening bracket)",
                ),
                Err(BodyError::MissingClose) => str_to_bytes(
                    "HTTP/1.1 400 Bad Request\r\n\r\nInvalid body format (missing closing bracket)",
                ),
                Ok(b) => match parse_update_task(b.as_slice()) {
                    None => str_to_bytes("HTTP/1.1 400 Bad Request\r\n\r\nInvalid JSON body"),
                    Some(u) => {
                        let (d, c) = u;
                        match app.update_task(id, d, c) {
                            None => str_to_bytes("HTTP/1.1 404 Not Found\r\n\r\nTask not found"),
                            Some(t) => {
                                let mut out = str_to_bytes(
                                    "HTTP/1.1 200 OK\r\nContent-Type: application/json\r\n\r\n",
                                );
                                let mut body = serialize_task(&t);
                                out.append(&mut body);
                                out
                            },
                        }
                    },
                },
            },
        }
    } else if is_delete && has_prefix {
        let idb = subrange_vec(path.as_slice(), prefix.len(), path.len());
        proof {
            assert(idb@ =~= task_path_id(path@));
        }
        match parse_u32(idb.as_slice()) {
            None => str_to_bytes("HTTP/1.1 400 Bad Request\r\n\r\nInvalid task ID"),
            Some(id) => match app.delete_task(id) {
                None => str_to_bytes("HTTP/1.1 404 Not Found\r\n\r\nTask not found"),
                Some(t) => {
                    let mut out = str_to_bytes(
                        "HTTP/1.1 200 OK\r\nContent-Type: application/json\r\n\r\n",
                    );
                    let mut body = serialize_task(&t);
                    out.append(&mut body);
                    out
                },
            },
        }
    } else {
        str_to_bytes("HTTP/1.1 404 Not Found\r\n\r\nNot Found")
    }
}

} // verus!
