use kv_server::command::{Command, ConditionSet, ExpireSet, Reply, SetCmd};
use kv_server::executor::respond;
use kv_server::frame::{extract_cmd, extract_token, parse_header_number, FrameReader};
use kv_server::keyspace::KeySpace;
use kv_server::wire::encode_reply;

fn format_error<T>() -> Result<T, String> {
    Err("Input format error".to_string())
}

/// What the server sends back for the request text `input`, if anything.
fn serve(keyspace: &mut KeySpace, input: &str, now: u128) -> Option<String> {
    respond(extract_cmd(input), keyspace, now).map(|reply| encode_reply(&reply))
}

#[test]
fn header_number_follows_the_first_character() {
    assert_eq!(parse_header_number("*1\r\n"), Some(1));
    assert_eq!(parse_header_number("$12\r\n"), Some(12));
    assert_eq!(parse_header_number("* 3 \n"), Some(3));
    assert_eq!(parse_header_number("x7"), Some(7));
    assert_eq!(parse_header_number("$+5\r\n"), Some(5));
    assert_eq!(parse_header_number("$0\r\n"), Some(0));
}

#[test]
fn header_number_refuses_malformed_lines() {
    assert_eq!(parse_header_number(""), None);
    assert_eq!(parse_header_number("*"), None);
    assert_eq!(parse_header_number("*\r\n"), None);
    assert_eq!(parse_header_number("*-1\r\n"), None);
    assert_eq!(parse_header_number("*1 2\r\n"), None);
    assert_eq!(parse_header_number("*abc\r\n"), None);
    assert_eq!(parse_header_number("€1\r\n"), None);
    assert_eq!(parse_header_number("*99999999999999999999999999999999999999999\r\n"), None);
}

#[test]
fn token_is_cut_trimmed_and_lower_cased() {
    assert_eq!(extract_token("PING\r\n", 4), Some("ping".to_string()));
    assert_eq!(extract_token("PING\r\n", 6), Some("ping".to_string()));
    assert_eq!(extract_token("PING\r\n", 2), Some("pi".to_string()));
    assert_eq!(extract_token("  Foo \r\n", 6), Some("foo".to_string()));
    assert_eq!(extract_token("abc\r\n", 0), Some("".to_string()));
    assert_eq!(extract_token("ÄB\r\n", 3), Some("äb".to_string()));
}

#[test]
fn token_needs_its_bytes() {
    assert_eq!(extract_token("PING\r\n", 7), None);
    assert_eq!(extract_token("", 0), None);
    assert_eq!(extract_token("ÄB\r\n", 1), None);
}

#[test]
fn reader_reads_a_frame_line_by_line() {
    let mut reader = FrameReader::new();
    assert_eq!(reader.feed("*2\r\n"), None);
    assert_eq!(reader.feed("$4\r\n"), None);
    assert_eq!(reader.feed("ECHO\r\n"), None);
    assert_eq!(reader.feed("$3\r\n"), None);
    assert_eq!(reader.feed("foo\r\n"), Some(Ok(Command::Echo("foo".to_string()))));
    assert_eq!(reader.feed("*1\r\n"), None);
    assert_eq!(reader.feed("$4\r\n"), None);
    assert_eq!(reader.feed("ping\r\n"), Some(Ok(Command::Ping)));
}

#[test]
fn reader_ends_at_the_end_of_the_stream() {
    let mut reader = FrameReader::new();
    assert_eq!(reader.feed(""), Some(Ok(Command::Exit)));
    assert_eq!(reader.feed("*0\r\n"), Some(Ok(Command::Exit)));
}

#[test]
fn reader_refuses_what_is_no_frame() {
    let mut reader = FrameReader::new();
    assert_eq!(reader.feed("PING\r\n"), Some(format_error()));
    assert_eq!(reader.feed("\r\n"), Some(format_error()));
    assert_eq!(reader.feed("*x\r\n"), Some(format_error()));
    assert_eq!(reader.feed("*1\r\n"), None);
    assert_eq!(reader.feed("$x\r\n"), Some(format_error()));
    assert_eq!(reader.feed("*1\r\n"), None);
    assert_eq!(reader.feed("$9\r\n"), None);
    assert_eq!(reader.feed("PING\r\n"), Some(format_error()));
    assert_eq!(reader.feed("*1\r\n"), None);
    assert_eq!(reader.feed("$4\r\n"), None);
    assert_eq!(reader.feed("PING\r\n"), Some(Ok(Command::Ping)));
}

#[test]
fn reader_fails_where_the_stream_ends_inside_a_frame() {
    let mut reader = FrameReader::new();
    assert_eq!(reader.feed("*1\r\n"), None);
    assert_eq!(reader.feed(""), Some(format_error()));
    assert_eq!(reader.feed("*1\r\n"), None);
    assert_eq!(reader.feed("$0\r\n"), None);
    assert_eq!(reader.feed(""), Some(format_error()));
    assert_eq!(reader.feed(""), Some(Ok(Command::Exit)));
}

#[test]
fn reader_starts_anew_after_an_error() {
    let mut reader = FrameReader::new();
    assert_eq!(reader.feed("*2\r\n"), None);
    assert_eq!(reader.feed("$3\r\n"), None);
    assert_eq!(reader.feed("get\r\n"), None);
    assert_eq!(reader.feed("oops\r\n"), Some(format_error()));
    assert_eq!(reader.feed("*2\r\n"), None);
    assert_eq!(reader.feed("$3\r\n"), None);
    assert_eq!(reader.feed("get\r\n"), None);
    assert_eq!(reader.feed("$1\r\n"), None);
    assert_eq!(reader.feed("k\r\n"), Some(Ok(Command::Get("k".to_string()))));
}

#[test]
fn reader_hands_parse_errors_on() {
    let mut reader = FrameReader::new();
    assert_eq!(reader.feed("*1\r\n"), None);
    assert_eq!(reader.feed("$4\r\n"), None);
    assert_eq!(
        reader.feed("ECHO\r\n"),
        Some(Err("ERR wrong number of arguments for 'echo' command".to_string()))
    );
}

#[test]
fn extract_cmd_reads_the_first_request() {
    assert_eq!(extract_cmd("*1\r\n$4\r\nPING\r\n"), Ok(Command::Ping));
    assert_eq!(extract_cmd("*1\r\n$4\r\nPING\r\n*1\r\n$4\r\nECHO\r\n"), Ok(Command::Ping));
    assert_eq!(extract_cmd("*2\r\n$3\r\nGET\r\n$1\r\na"), Ok(Command::Get("a".to_string())));
    assert_eq!(extract_cmd("*2\n$3\nGET\n$1\na\n"), Ok(Command::Get("a".to_string())));
    assert_eq!(extract_cmd(""), Ok(Command::Exit));
    assert_eq!(extract_cmd("*0\r\n"), Ok(Command::Exit));
}

#[test]
fn extract_cmd_reads_set_with_options() {
    let input = "*6\r\n$3\r\nSET\r\n$4\r\nName\r\n$3\r\nTom\r\n$2\r\nPX\r\n$4\r\n3000\r\n$2\r\nXX\r\n";
    let expected = SetCmd::new_with_options(
        "name".to_string(),
        "tom".to_string(),
        Some(ExpireSet::PX(3000)),
        Some(ConditionSet::XX),
    );
    assert_eq!(extract_cmd(input), Ok(Command::SetKey(expected)));
}

#[test]
fn extract_cmd_refuses_what_is_no_frame() {
    assert_eq!(extract_cmd("PING\r\n"), format_error());
    assert_eq!(extract_cmd("\n"), format_error());
    assert_eq!(extract_cmd("*1\r\n"), format_error());
    assert_eq!(extract_cmd("*1\r\n$4\r\n"), format_error());
    assert_eq!(extract_cmd("*1\r\n$4\r\nPI"), format_error());
    assert_eq!(extract_cmd("*two\r\n"), format_error());
    assert_eq!(extract_cmd("*1\r\n$1\r\n€\r\n"), format_error());
}

#[test]
fn extract_cmd_counts_the_length_in_bytes() {
    assert_eq!(extract_cmd("*2\r\n$4\r\necho\r\n$3\r\n€\r\n"), Ok(Command::Echo("€".to_string())));
    assert_eq!(
        extract_cmd("*2\r\n$4\r\necho\r\n$2\r\nfoo\r\n"),
        Ok(Command::Echo("fo".to_string()))
    );
}

#[test]
fn ping_is_answered_with_pong() {
    let mut keyspace = KeySpace::new();
    assert_eq!(serve(&mut keyspace, "*1\r\n$4\r\nPING\r\n", 0), Some("+PONG\r\n".to_string()));
}

#[test]
fn set_then_get_is_answered_with_the_value() {
    let mut keyspace = KeySpace::new();
    assert_eq!(
        serve(&mut keyspace, "*3\r\n$3\r\nSET\r\n$1\r\na\r\n$1\r\nb\r\n", 100),
        Some("+OK\r\n".to_string())
    );
    assert_eq!(
        serve(&mut keyspace, "*2\r\n$3\r\nGET\r\n$1\r\na\r\n", 200),
        Some("+b\r\n".to_string())
    );
}

#[test]
fn echo_is_answered_with_its_argument_or_an_arity_error() {
    let mut keyspace = KeySpace::new();
    assert_eq!(
        serve(&mut keyspace, "*2\r\n$4\r\nECHO\r\n$3\r\nfoo\r\n", 0),
        Some("+foo\r\n".to_string())
    );
    assert_eq!(
        serve(&mut keyspace, "*1\r\n$4\r\nECHO\r\n", 0),
        Some("-ERR wrong number of arguments for 'echo' command\r\n".to_string())
    );
}

#[test]
fn get_of_a_missing_key_is_answered_with_nil() {
    let mut keyspace = KeySpace::new();
    assert_eq!(
        serve(&mut keyspace, "*2\r\n$3\r\nGET\r\n$1\r\na\r\n", 0),
        Some("$-1\r\n".to_string())
    );
}

#[test]
fn duplicate_expiry_is_answered_with_an_error_and_writes_nothing() {
    let mut keyspace = KeySpace::new();
    let input = "*7\r\n$3\r\nSET\r\n$1\r\na\r\n$1\r\nb\r\n$2\r\nex\r\n$1\r\n1\r\n$2\r\npx\r\n$1\r\n1\r\n";
    assert_eq!(serve(&mut keyspace, input, 0), Some("-Expire set duplicate\r\n".to_string()));
    assert_eq!(keyspace.get("a", 0), Reply::BulkNil);
}

#[test]
fn malformed_input_is_answered_with_a_format_error() {
    let mut keyspace = KeySpace::new();
    assert_eq!(serve(&mut keyspace, "hello\r\n", 0), Some("-Input format error\r\n".to_string()));
}

#[test]
fn the_end_of_the_input_closes_the_connection() {
    let mut keyspace = KeySpace::new();
    assert_eq!(serve(&mut keyspace, "", 0), None);
}

#[test]
fn an_expired_key_is_answered_with_nil() {
    let mut keyspace = KeySpace::new();
    let input = "*5\r\n$3\r\nSET\r\n$1\r\na\r\n$1\r\nb\r\n$2\r\nPX\r\n$1\r\n0\r\n";
    assert_eq!(serve(&mut keyspace, input, 500), Some("+OK\r\n".to_string()));
    assert_eq!(
        serve(&mut keyspace, "*2\r\n$3\r\nGET\r\n$1\r\na\r\n", 501),
        Some("$-1\r\n".to_string())
    );
}
