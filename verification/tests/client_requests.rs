use memcached::client::{format_get_request, format_set_request};
use memcached::command::{handle_command, stored_response};
use memcached::store::Store;
use memcached::tokens::strip_eol;

#[test]
fn set_request_exact_bytes() {
    let r = format_set_request(&b"foo".to_vec(), 0, 0, &b"bar".to_vec());
    assert_eq!(r, b"SET foo 0 0 3\r\nbar\r\n".to_vec());
}

#[test]
fn set_request_with_flags_and_ttl() {
    let r = format_set_request(&b"k".to_vec(), -7, 30, &b"abcd".to_vec());
    assert_eq!(r, b"SET k -7 30 4\r\nabcd\r\n".to_vec());
}

#[test]
fn get_request_exact_bytes() {
    let r = format_get_request(&vec![b"foo".to_vec()]);
    assert_eq!(r, b"GET foo\r\n".to_vec());
    let r = format_get_request(&vec![b"a".to_vec(), b"b".to_vec()]);
    assert_eq!(r, b"GET a b\r\n".to_vec());
}

#[test]
fn formatted_requests_round_trip_through_the_executor() {
    let request = format_set_request(&b"foo".to_vec(), 5, 0, &b"bar".to_vec());
    let mut parts = request.split(|&b| b == b'\n');
    let mut command_line = parts.next().unwrap().to_vec();
    command_line.push(b'\n');
    strip_eol(&mut command_line);
    let mut payload_line = parts.next().unwrap().to_vec();
    payload_line.push(b'\n');
    strip_eol(&mut payload_line);

    let mut store = Store::new();
    let response = handle_command(&mut store, 1, &command_line, Some(payload_line));
    assert_eq!(response, stored_response());

    let request = format_get_request(&vec![b"foo".to_vec()]);
    let mut line = request.clone();
    strip_eol(&mut line);
    let response = handle_command(&mut store, 1, &line, None);
    assert_eq!(response, b"VALUE foo 5 3\r\nbar\r\nEND\r\n".to_vec());
}
