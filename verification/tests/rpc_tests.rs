use torudo::rpc::Scalar;
use torudo::rpc::RpcError;
use torudo::rpc::encode_request;
use torudo::rpc::decode_response;
use torudo::rpc::build_focus_command;
use torudo::mcp::plan_path;
use torudo::grouping::group_todos_by_project_owned;
use torudo::mcp::ListTodosParams;
use torudo::mcp::list_todos;
use torudo::load::load_todos;

#[test]
fn encode_request_exact_bytes() {
    let method = b"nvim_command".to_vec();
    let args = vec![Scalar::Str(b":e x.md<CR>".to_vec())];
    let frame = encode_request(0, &method, &args);

    let mut expected: Vec<u8> = vec![0x94, 0x00];
    // the fixed request id, eight big-endian bytes
    expected.push(0xcf);
    expected.extend_from_slice(&[0, 0, 0, 0, 0, 0, 0, 0]);
    // the method name
    expected.push(0xdb);
    expected.extend_from_slice(&[0, 0, 0, 12]);
    expected.extend_from_slice(b"nvim_command");
    // one argument
    expected.push(0xdd);
    expected.extend_from_slice(&[0, 0, 0, 1]);
    expected.push(0xdb);
    expected.extend_from_slice(&[0, 0, 0, 11]);
    expected.extend_from_slice(b":e x.md<CR>");

    assert_eq!(frame, expected);
}

fn response_frame(err: &[u8], result: &[u8]) -> Vec<u8> {
    let mut bytes: Vec<u8> = vec![0x94, 0x01, 0xcf, 0, 0, 0, 0, 0, 0, 0, 0];
    bytes.extend_from_slice(err);
    bytes.extend_from_slice(result);
    bytes
}

#[test]
fn decode_response_ok_result() {
    // error nil, result the integer 42
    let bytes = response_frame(&[0xc0], &[0xcf, 0, 0, 0, 0, 0, 0, 0, 42]);
    match decode_response(&bytes) {
        Ok(Scalar::Int(n)) => assert_eq!(n, 42),
        _ => panic!("a nil error must yield the result"),
    }
}

#[test]
fn decode_response_remote_error() {
    let mut err: Vec<u8> = vec![0xdb, 0, 0, 0, 4];
    err.extend_from_slice(b"boom");
    let bytes = response_frame(&err, &[0xc0]);
    match decode_response(&bytes) {
        Err(RpcError::Remote(m)) => assert_eq!(m, b"boom".to_vec()),
        _ => panic!("a non-nil error must fail the call with the remote message"),
    }
}

#[test]
fn decode_response_rejects_malformed_frames() {
    // a request frame is not a response
    assert!(matches!(decode_response(&vec![0x94, 0x00, 0xc0, 0xc0, 0xc0]), Err(RpcError::Protocol)));
    // truncated
    assert!(matches!(decode_response(&vec![0x94, 0x01, 0xcf, 0, 0]), Err(RpcError::Protocol)));
    // trailing garbage after the frame
    let mut bytes = response_frame(&[0xc0], &[0xc0]);
    bytes.push(0x00);
    assert!(matches!(decode_response(&bytes), Err(RpcError::Protocol)));
    assert!(matches!(decode_response(&Vec::new()), Err(RpcError::Protocol)));
}

#[test]
fn focus_command_and_plan_path() {
    let path = plan_path("/home/u/todotxt", "abc-1");
    assert_eq!(path, "/home/u/todotxt/todos/abc-1.md");
    assert_eq!(build_focus_command(&path), ":e /home/u/todotxt/todos/abc-1.md<CR>");
}

#[test]
fn grouping_places_each_record_under_each_tag() {
    let todos = load_todos("a +work +urgent id:1\nb id:2\nc +work id:3");
    let groups = group_todos_by_project_owned(&todos);
    let names = groups.names();
    let expected: Vec<String> =
        vec!["No Project".to_string(), "urgent".to_string(), "work".to_string()];
    assert_eq!(names, expected);
    assert_eq!(groups.get("work").unwrap().len(), 2);
    assert_eq!(groups.get("urgent").unwrap().len(), 1);
    assert_eq!(groups.get("No Project").unwrap().len(), 1);
    assert!(groups.get("absent").is_none());
}

#[test]
fn list_todos_filters_by_project() {
    let todos = load_todos("(A) Fix bug +torudo @coding id:abc-123\n(B) Add feature +other @work id:def-456");
    let all = list_todos(&todos, &ListTodosParams { project: None });
    assert_eq!(all.len(), 2);
    let filtered = list_todos(&todos, &ListTodosParams { project: Some("torudo".to_string()) });
    assert_eq!(filtered.len(), 1);
    assert_eq!(filtered[0].id, Some("abc-123".to_string()));
}
