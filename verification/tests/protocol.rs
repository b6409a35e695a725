use memcached::command::{
    bad_args_response, bad_data_response, error_response, handle_command, handle_get, handle_set,
    needs_payload, stored_response,
};
use memcached::conn::{handle_connection, ReadOutcome};
use memcached::store::Store;
use memcached::tokens::{strip_eol, tokenize};

fn args(words: &[&str]) -> Vec<Vec<u8>> {
    words.iter().map(|w| w.as_bytes().to_vec()).collect()
}

fn command(store: &mut Store, now: u64, line: &str, payload: Option<&[u8]>) -> Vec<u8> {
    handle_command(store, now, &line.as_bytes().to_vec(), payload.map(|p| p.to_vec()))
}

#[test]
fn tokenize_splits_on_whitespace_runs() {
    let toks = tokenize(&b"set  foo\t0 0  3".to_vec());
    assert_eq!(toks, args(&["set", "foo", "0", "0", "3"]));
    assert_eq!(tokenize(&b"".to_vec()), Vec::<Vec<u8>>::new());
    assert_eq!(tokenize(&b"   ".to_vec()), Vec::<Vec<u8>>::new());
    assert_eq!(tokenize(&b" one ".to_vec()), args(&["one"]));
}

#[test]
fn strip_eol_tolerates_crlf_and_lf() {
    let mut line = b"set foo 0 0 3\r\n".to_vec();
    strip_eol(&mut line);
    assert_eq!(line, b"set foo 0 0 3".to_vec());

    let mut line = b"bar\n".to_vec();
    strip_eol(&mut line);
    assert_eq!(line, b"bar".to_vec());

    let mut line = b"bar".to_vec();
    strip_eol(&mut line);
    assert_eq!(line, b"bar".to_vec());

    let mut line = b"bar\r".to_vec();
    strip_eol(&mut line);
    assert_eq!(line, b"bar\r".to_vec());

    let mut line = b"\r\n".to_vec();
    strip_eol(&mut line);
    assert_eq!(line, Vec::<u8>::new());
}

#[test]
fn needs_payload_only_for_set_verb() {
    assert!(needs_payload(&b"set foo 0 0 3".to_vec()));
    assert!(needs_payload(&b"SET foo 0 0 3".to_vec()));
    assert!(!needs_payload(&b"get foo".to_vec()));
    assert!(!needs_payload(&b"".to_vec()));
    assert!(!needs_payload(&b"delete foo".to_vec()));
}

#[test]
fn empty_command_line_answers_error() {
    let mut store = Store::new();
    assert_eq!(command(&mut store, 1, "", None), error_response());
    assert_eq!(command(&mut store, 1, " \t ", None), error_response());
}

#[test]
fn unrecognized_verb_answers_nothing() {
    let mut store = Store::new();
    assert_eq!(command(&mut store, 1, "delete foo", None), Vec::<u8>::new());
    assert_eq!(command(&mut store, 1, "Set foo 0 0 3", Some(b"bar")), Vec::<u8>::new());
}

#[test]
fn set_without_payload_line_is_bad_data_chunk() {
    let mut store = Store::new();
    assert_eq!(command(&mut store, 1, "set foo 0 0 3", None), bad_data_response());
    assert_eq!(command(&mut store, 1, "get foo", None), Vec::<u8>::new());
}

#[test]
fn set_with_wrong_arity_is_rejected() {
    let mut store = Store::new();
    assert_eq!(command(&mut store, 1, "set foo 0 0", Some(b"bar")), bad_args_response());
    assert_eq!(
        command(&mut store, 1, "set foo 0 0 3 noreply extra", Some(b"bar")),
        bad_args_response()
    );
    assert_eq!(command(&mut store, 1, "get foo", None), Vec::<u8>::new());
}

#[test]
fn set_with_non_numeric_fields_is_rejected() {
    let mut store = Store::new();
    assert_eq!(command(&mut store, 1, "set foo x 0 3", Some(b"bar")), bad_args_response());
    assert_eq!(command(&mut store, 1, "set foo 0 x 3", Some(b"bar")), bad_args_response());
    assert_eq!(command(&mut store, 1, "set foo 0 0 x", Some(b"bar")), bad_args_response());
    assert_eq!(command(&mut store, 1, "set foo 0 -1 3", Some(b"bar")), bad_args_response());
    assert_eq!(command(&mut store, 1, "get foo", None), Vec::<u8>::new());
}

#[test]
fn length_mismatch_is_rejected_and_nothing_stored() {
    let mut store = Store::new();
    assert_eq!(command(&mut store, 1, "set k 0 0 5", Some(b"bar")), bad_data_response());
    assert_eq!(command(&mut store, 1, "get k", None), Vec::<u8>::new());
}

#[test]
fn set_then_get_reproduces_flags_and_data() {
    let mut store = Store::new();
    assert_eq!(command(&mut store, 1, "set foo 7 0 5", Some(b"hello")), stored_response());
    assert_eq!(
        command(&mut store, 1, "get foo", None),
        b"VALUE foo 7 5\r\nhello\r\nEND\r\n".to_vec()
    );
}

#[test]
fn negative_flags_are_returned_verbatim() {
    let mut store = Store::new();
    assert_eq!(command(&mut store, 1, "set k -42 0 1", Some(b"x")), stored_response());
    assert_eq!(command(&mut store, 1, "get k", None), b"VALUE k -42 1\r\nx\r\nEND\r\n".to_vec());
}

#[test]
fn ttl_expires_strictly_after_its_instant() {
    let mut store = Store::new();
    assert_eq!(command(&mut store, 100, "set k 0 30 1", Some(b"x")), stored_response());
    assert_eq!(command(&mut store, 120, "get k", None), b"VALUE k 0 1\r\nx\r\nEND\r\n".to_vec());
    assert_eq!(command(&mut store, 130, "get k", None), b"VALUE k 0 1\r\nx\r\nEND\r\n".to_vec());
    assert_eq!(command(&mut store, 131, "get k", None), Vec::<u8>::new());
}

#[test]
fn identical_set_twice_is_idempotent() {
    let mut one = Store::new();
    command(&mut one, 5, "set k 3 0 2", Some(b"ab"));
    let mut twice = Store::new();
    command(&mut twice, 5, "set k 3 0 2", Some(b"ab"));
    assert_eq!(command(&mut twice, 5, "set k 3 0 2", Some(b"ab")), stored_response());
    assert_eq!(command(&mut one, 6, "get k", None), command(&mut twice, 6, "get k", None));
}

#[test]
fn overwrite_returns_only_the_second_value() {
    let mut store = Store::new();
    command(&mut store, 1, "set k 1 0 2", Some(b"d1"));
    command(&mut store, 2, "set k 2 0 3", Some(b"d22"));
    assert_eq!(command(&mut store, 3, "get k", None), b"VALUE k 2 3\r\nd22\r\nEND\r\n".to_vec());
}

#[test]
fn noreply_suppresses_acknowledgment_only_when_exact() {
    let mut store = Store::new();
    assert_eq!(command(&mut store, 1, "set k 0 0 1 noreply", Some(b"x")), Vec::<u8>::new());
    assert_eq!(command(&mut store, 1, "get k", None), b"VALUE k 0 1\r\nx\r\nEND\r\n".to_vec());
    assert_eq!(command(&mut store, 1, "set j 0 0 1 anythingElse", Some(b"y")), stored_response());
    assert_eq!(command(&mut store, 1, "set j 0 0 1 NOREPLY", Some(b"y")), stored_response());
}

#[test]
fn get_emits_blocks_in_argument_order_once_per_occurrence() {
    let mut store = Store::new();
    command(&mut store, 1, "set a 0 0 1", Some(b"1"));
    command(&mut store, 1, "set b 0 0 1", Some(b"2"));
    assert_eq!(
        command(&mut store, 1, "get b missing a b", None),
        b"VALUE b 0 1\r\n2\r\nEND\r\nVALUE a 0 1\r\n1\r\nEND\r\nVALUE b 0 1\r\n2\r\nEND\r\n"
            .to_vec()
    );
}

#[test]
fn upper_case_verbs_are_accepted() {
    let mut store = Store::new();
    assert_eq!(command(&mut store, 1, "SET k 0 0 1", Some(b"x")), stored_response());
    assert_eq!(command(&mut store, 1, "GET k", None), b"VALUE k 0 1\r\nx\r\nEND\r\n".to_vec());
}

#[test]
fn handle_set_and_handle_get_directly() {
    let mut store = Store::new();
    let r = handle_set(&mut store, 9, &args(&["k", "5", "0", "3"]), b"abc".to_vec());
    assert_eq!(r, stored_response());
    let r = handle_get(&store, 9, &args(&["k"]));
    assert_eq!(r, b"VALUE k 5 3\r\nabc\r\nEND\r\n".to_vec());
}

#[test]
fn end_to_end_store_and_read_back() {
    let mut store = Store::new();
    let r = handle_connection(
        &mut store,
        50,
        ReadOutcome::Line(b"set foo 0 0 3".to_vec()),
        Some(ReadOutcome::Line(b"bar".to_vec())),
    );
    assert_eq!(r, b"STORED\r\n".to_vec());
    let r = handle_connection(&mut store, 51, ReadOutcome::Line(b"get foo".to_vec()), None);
    assert_eq!(r, b"VALUE foo 0 3\r\nbar\r\nEND\r\n".to_vec());
}

#[test]
fn closed_connection_answers_error_line() {
    let mut store = Store::new();
    let r = handle_connection(&mut store, 1, ReadOutcome::Closed, None);
    assert_eq!(r, b"ERROR\r\n".to_vec());
}

#[test]
fn failed_reads_echo_the_transport_message() {
    let mut store = Store::new();
    let r = handle_connection(&mut store, 1, ReadOutcome::Failed(b"broken pipe".to_vec()), None);
    assert_eq!(r, b"broken pipe\r\n".to_vec());
    let r = handle_connection(
        &mut store,
        1,
        ReadOutcome::Line(b"set k 0 0 1".to_vec()),
        Some(ReadOutcome::Failed(b"timed out".to_vec())),
    );
    assert_eq!(r, b"timed out\r\n".to_vec());
    assert_eq!(command(&mut store, 1, "get k", None), Vec::<u8>::new());
}

#[test]
fn set_payload_stream_end_is_bad_data_chunk() {
    let mut store = Store::new();
    let r = handle_connection(
        &mut store,
        1,
        ReadOutcome::Line(b"set k 0 0 1".to_vec()),
        Some(ReadOutcome::Closed),
    );
    assert_eq!(r, b"CLIENT_ERROR bad data chunk\r\n".to_vec());
}
