//! The wire text: how a reply is written for the client, and how a
//! request is written so that the frame reader reads it back.

use vstd::prelude::*;
use vstd::string::*;
use vstd::utf8::*;
use crate::command::{Command, CommandView, ConditionSet, ExpireSet, Reply, ReplyView};
use crate::frame::{
    decode_request, element_token, header_number, lemma_first_line_found, read_frame, split_lines,
    ReaderView,
};
use crate::parser::{command_tokens, law_parse_command_tokens, token_views};
use crate::text::{
    byte_prefix, chars_of, decimal_digits, decimal_string, is_digit, is_whitespace,
    lemma_decimal_digits, lemma_trim_end, lemma_trim_start, lowercase, str_eq, to_lowercase, trim,
    trimmed,
};

verus! {

/// What ends a line on the wire: a carriage return and a line feed.
pub open spec fn line_end() -> Seq<char> {
    seq!['\r', '\n']
}

/// The wire text of a reply: `+` and the text for a simple string, `$-1`
/// for nil, `-` and the message for an error, each ended as a line.
/// Nothing is escaped.
pub open spec fn reply_text(reply: ReplyView) -> Seq<char> {
    match reply {
        ReplyView::SimpleString(text) => seq!['+'] + text + line_end(),
        ReplyView::BulkNil => seq!['$', '-', '1'] + line_end(),
        ReplyView::Error(message) => seq!['-'] + message + line_end(),
    }
}

/// Writes a reply as wire text.
pub fn encode_reply(reply: &Reply) -> (text: String)
    ensures
        text@ == reply_text(reply@),
{
    proof {
        reveal_strlit("+");
        reveal_strlit("-");
        reveal_strlit("$-1\r\n");
        reveal_strlit("\r\n");
    }
    match reply {
        Reply::SimpleString(body) => {
            let text = String::from_str("+").concat(body.as_str()).concat("\r\n");
            assert(text@ =~= reply_text(reply@));
            text
        },
        Reply::BulkNil => {
            let text = String::from_str("$-1\r\n");
            assert(text@ =~= reply_text(reply@));
            text
        },
        Reply::Error(message) => {
            let text = String::from_str("-").concat(message.as_str()).concat("\r\n");
            assert(text@ =~= reply_text(reply@));
            text
        },
    }
}

/// The number of bytes of `s` in UTF-8.
pub open spec fn utf8_len(s: Seq<char>) -> nat {
    encode_utf8(s).len()
}

/// The line that opens a frame of `count` elements.
pub open spec fn count_line(count: nat) -> Seq<char> {
    seq!['*'] + decimal_digits(count) + line_end()
}

/// The line that gives the length of the element `token` in bytes.
pub open spec fn length_line(token: Seq<char>) -> Seq<char> {
    seq!['$'] + decimal_digits(utf8_len(token)) + line_end()
}

/// The line that holds the element `token`.
pub open spec fn content_line(token: Seq<char>) -> Seq<char> {
    token + line_end()
}

/// The wire text of the elements `tokens`: for each its length line and
/// its content line.
pub open spec fn elements_text(tokens: Seq<Seq<char>>) -> Seq<char>
    decreases tokens.len(),
{
    if tokens.len() == 0 {
        seq![]
    } else {
        length_line(tokens[0]) + content_line(tokens[0]) + elements_text(tokens.skip(1))
    }
}

/// The wire text of the frame that holds `tokens`.
pub open spec fn frame_text(tokens: Seq<Seq<char>>) -> Seq<char> {
    count_line(tokens.len()) + elements_text(tokens)
}

/// The wire text of the request for `cmd`.
pub open spec fn request_text(cmd: CommandView) -> Seq<char> {
    frame_text(command_tokens(cmd))
}

/// The text of elements with one more at their end is their text with
/// the two lines of that one at its end.
pub proof fn lemma_elements_text_push(tokens: Seq<Seq<char>>, token: Seq<char>)
    ensures
        elements_text(tokens.push(token)) == elements_text(tokens) + length_line(token)
            + content_line(token),
    decreases tokens.len(),
{
    let all = tokens.push(token);
    if tokens.len() == 0 {
        assert(all.skip(1) =~= tokens);
        assert(elements_text(tokens) =~= Seq::<char>::empty());
        assert(elements_text(all) =~= elements_text(tokens) + length_line(token) + content_line(
            token,
        ));
    } else {
        lemma_elements_text_push(tokens.skip(1), token);
        assert(all.skip(1) =~= tokens.skip(1).push(token));
        assert(all[0] == tokens[0]);
        let head = length_line(tokens[0]) + content_line(tokens[0]);
        let tail = elements_text(tokens.skip(1));
        assert(elements_text(all) == head + (tail + length_line(token) + content_line(token)));
        assert(elements_text(tokens) == head + tail);
        assert(head + (tail + length_line(token) + content_line(token)) =~= (head + tail)
            + length_line(token) + content_line(token));
    }
}

/// Writes the frame that holds `tokens` as wire text.
pub fn encode_frame(tokens: &Vec<String>) -> (text: String)
    ensures
        text@ == frame_text(token_views(tokens@)),
{
    proof {
        reveal_strlit("*");
        reveal_strlit("$");
        reveal_strlit("\r\n");
    }
    let ghost all = token_views(tokens@);
    let mut text = String::from_str("*");
    text.append(decimal_string(tokens.len() as u128).as_str());
    text.append("\r\n");
    assert(text@ =~= count_line(all.len()));
    let mut i: usize = 0;
    assert(all.take(0) =~= Seq::<Seq<char>>::empty());
    while i < tokens.len()
        invariant
            i <= tokens.len(),
            all == token_views(tokens@),
            "$"@ == seq!['$'],
            "\r\n"@ == line_end(),
            text@ == count_line(all.len()) + elements_text(all.take(i as int)),
        decreases tokens.len() - i,
    {
        let token = tokens[i].as_str();
        let len: usize = token.as_bytes().len();
        let ghost before = text@;
        text.append("$");
        text.append(decimal_string(len as u128).as_str());
        text.append("\r\n");
        text.append(token);
        text.append("\r\n");
        proof {
            assert(all[i as int] == token@);
            assert(text@ =~= before + length_line(token@) + content_line(token@));
            lemma_elements_text_push(all.take(i as int), token@);
            assert(all.take(i as int).push(token@) =~= all.take(i + 1));
        }
        i += 1;
    }
    assert(all.take(i as int) =~= all);
    text
}

/// Whether the frame reader gives the element `token` back as it is: it
/// holds no line feed, trimming and lower-casing leave it as it is, and
/// its length in bytes fits the machine's word.
pub open spec fn wire_token(token: Seq<char>) -> bool {
    &&& forall|i: int| 0 <= i < token.len() ==> token[i] != '\n'
    &&& lowercase(trimmed(token)) == token
    &&& utf8_len(token) <= usize::MAX
}

/// Whether the frame reader gives the elements `tokens` back as they are.
pub open spec fn wire_tokens(tokens: Seq<Seq<char>>) -> bool {
    &&& tokens.len() <= usize::MAX
    &&& forall|i: int| 0 <= i < tokens.len() ==> wire_token(#[trigger] tokens[i])
}

/// The UTF-8 encoding of two texts, one after the other, is the encoding
/// of the first and then that of the second.
pub proof fn lemma_encode_utf8_concat(a: Seq<char>, b: Seq<char>)
    ensures
        encode_utf8(a + b) == encode_utf8(a) + encode_utf8(b),
    decreases a.len(),
{
    if a.len() == 0 {
        assert(a + b =~= b);
        assert(encode_utf8(a) + encode_utf8(b) =~= encode_utf8(b));
    } else {
        lemma_encode_utf8_concat(a.drop_first(), b);
        assert((a + b).drop_first() =~= a.drop_first() + b);
        assert((a + b)[0] == a[0]);
        assert(encode_utf8(a + b) =~= encode_utf8(a) + encode_utf8(b));
    }
}

/// In the encoding of two texts, one after the other, the second starts
/// between two characters.
proof fn lemma_char_boundary_between(a: Seq<char>, b: Seq<char>)
    ensures
        is_char_boundary(encode_utf8(a + b), encode_utf8(a).len() as int),
    decreases a.len(),
{
    let bytes = encode_utf8(a + b);
    encode_utf8_valid_utf8(a + b);
    lemma_encode_utf8_concat(a, b);
    if a.len() > 0 {
        let tail = a.drop_first();
        encode_utf8_first_scalar(a + b);
        assert((a + b).drop_first() =~= tail + b);
        assert((a + b)[0] == a[0]);
        assert(pop_first_scalar(bytes) =~= encode_utf8(tail + b));
        lemma_char_boundary_between(tail, b);
        assert(encode_utf8(a).len() == encode_scalar(a[0] as u32).len() + encode_utf8(tail).len());
    }
}

/// The first bytes of a text that starts with `a`, as many as `a` has,
/// are `a`.
pub proof fn lemma_byte_prefix_concat(a: Seq<char>, b: Seq<char>)
    ensures
        byte_prefix(a + b, utf8_len(a)) == Some(a),
{
    lemma_encode_utf8_concat(a, b);
    lemma_char_boundary_between(a, b);
    assert(encode_utf8(a + b).subrange(0, utf8_len(a) as int) =~= encode_utf8(a));
    encode_utf8_decode_utf8(a);
}

/// A text that starts with a line is split into that line and the lines
/// of what follows it.
pub proof fn lemma_split_first_line(line: Seq<char>, rest: Seq<char>)
    requires
        line.len() > 0,
        line.last() == '\n',
        forall|j: int| 0 <= j < line.len() - 1 ==> line[j] != '\n',
    ensures
        split_lines(line + rest) == seq![line] + split_lines(rest),
{
    let s = line + rest;
    lemma_first_line_found(s, 0, line.len() - 1);
    assert(s.skip(0) =~= s);
    assert(s.take(line.len() as int) =~= line);
    assert(s.skip(line.len() as int) =~= rest);
}

/// A header line that is written as a mark, the digits of a number and
/// the line's end is one line, and the number is read back from it.
pub proof fn lemma_header_line(mark: char, number: nat)
    requires
        (mark as u32) < 0x80,
        mark != '\n',
        number <= usize::MAX,
    ensures
        ({
            let line = seq![mark] + decimal_digits(number) + line_end();
            &&& header_number(line) == Some(number)
            &&& line.len() > 0
            &&& line[0] == mark
            &&& line.last() == '\n'
            &&& forall|j: int| 0 <= j < line.len() - 1 ==> line[j] != '\n'
        }),
{
    let digits = decimal_digits(number);
    let line = seq![mark] + digits + line_end();
    let body = line.skip(1);
    lemma_decimal_digits(number);
    assert(body =~= digits + line_end());
    assert forall|j: int| 0 <= j < digits.len() implies !is_whitespace(#[trigger] body[j])
        && body[j] != '\n' by {
        assert(is_digit(digits[j]));
    }
    lemma_trim_start(body, 0);
    assert(body.skip(0) =~= body);
    lemma_trim_end(body, digits.len() as int);
    assert(body.take(digits.len() as int) =~= digits);
    assert forall|j: int| 0 <= j < line.len() - 1 implies line[j] != '\n' by {
        if 1 <= j <= digits.len() {
            assert(line[j] == body[j - 1]);
        }
    }
}

/// The content line of an element that the reader gives back as it is
/// is one line, and the element is read back from it.
pub proof fn lemma_content_line(token: Seq<char>)
    requires
        wire_token(token),
    ensures
        ({
            let line = content_line(token);
            &&& element_token(line, utf8_len(token)) == Some(token)
            &&& line.len() > 0
            &&& line.last() == '\n'
            &&& forall|j: int| 0 <= j < line.len() - 1 ==> line[j] != '\n'
        }),
{
    lemma_byte_prefix_concat(token, line_end());
}

/// Inside a frame, the reader reads the elements that are written on the
/// wire one after the other and ends the frame with them, whatever
/// follows them.
proof fn lemma_read_elements(tokens: Seq<Seq<char>>, seen: Seq<Seq<char>>, more: Seq<char>)
    requires
        tokens.len() > 0,
        wire_tokens(tokens),
    ensures
        read_frame(
            ReaderView::Length { remaining: tokens.len(), tokens: seen },
            split_lines(elements_text(tokens) + more),
        ) == Ok::<Seq<Seq<char>>, Seq<char>>(seen + tokens),
    decreases tokens.len(),
{
    let token = tokens[0];
    let rest = tokens.skip(1);
    let head = length_line(token);
    let body = content_line(token);
    let tail = elements_text(rest) + more;
    let start = ReaderView::Length { remaining: tokens.len(), tokens: seen };
    let inside = ReaderView::Content {
        remaining: tokens.len(),
        len: utf8_len(token),
        tokens: seen,
    };
    lemma_header_line('$', utf8_len(token));
    lemma_content_line(token);
    assert(elements_text(tokens) + more =~= head + (body + tail));
    lemma_split_first_line(head, body + tail);
    lemma_split_first_line(body, tail);
    let lines = split_lines(elements_text(tokens) + more);
    assert(lines[0] == head);
    assert(lines.skip(1) =~= seq![body] + split_lines(tail));
    assert(start.outcome(head) is None);
    assert(start.next(head) == inside);
    assert(read_frame(start, lines) == read_frame(inside, lines.skip(1)));
    assert(lines.skip(1)[0] == body);
    assert(lines.skip(1).skip(1) =~= split_lines(tail));
    if tokens.len() > 1 {
        let after = ReaderView::Length {
            remaining: (tokens.len() - 1) as nat,
            tokens: seen.push(token),
        };
        assert(inside.outcome(body) is None);
        assert(inside.next(body) == after);
        assert(read_frame(inside, lines.skip(1)) == read_frame(after, split_lines(tail)));
        assert forall|i: int| 0 <= i < rest.len() implies wire_token(#[trigger] rest[i]) by {
            assert(rest[i] == tokens[i + 1]);
        }
        lemma_read_elements(rest, seen.push(token), more);
        assert(seen.push(token) + rest =~= seen + tokens);
    } else {
        assert(inside.outcome(body) == Some(
            Ok::<Seq<Seq<char>>, Seq<char>>(seen.push(token)),
        ));
        assert(seen.push(token) =~= seen + tokens);
    }
}

/// A frame that is written on the wire is read back as it was: the reader
/// ends it with the very tokens that were written, whatever text `more`
/// follows the frame, provided it gives each of the tokens back as it is.
pub proof fn law_read_written_frame(tokens: Seq<Seq<char>>, more: Seq<char>)
    requires
        wire_tokens(tokens),
    ensures
        read_frame(ReaderView::Idle, split_lines(frame_text(tokens) + more)) == Ok::<
            Seq<Seq<char>>,
            Seq<char>,
        >(tokens),
{
    let head = count_line(tokens.len());
    let tail = elements_text(tokens) + more;
    lemma_header_line('*', tokens.len());
    lemma_split_first_line(head, tail);
    assert(frame_text(tokens) + more =~= head + tail);
    let lines = split_lines(frame_text(tokens) + more);
    assert(lines[0] == head);
    if tokens.len() > 0 {
        let start = ReaderView::Length { remaining: tokens.len(), tokens: seq![] };
        assert(lines.skip(1) =~= split_lines(tail));
        assert(ReaderView::Idle.outcome(head) is None);
        assert(ReaderView::Idle.next(head) == start);
        lemma_read_elements(tokens, seq![], more);
        assert(Seq::<Seq<char>>::empty() + tokens =~= tokens);
    } else {
        assert(tokens =~= Seq::<Seq<char>>::empty());
    }
}

/// A command that is written on the wire is read back as it was:
/// decoding the request text of a command gives that command, provided
/// the reader gives each of its tokens back as it is.
pub proof fn law_decode_written_request(cmd: CommandView)
    requires
        wire_tokens(command_tokens(cmd)),
    ensures
        decode_request(request_text(cmd)) == Ok::<CommandView, Seq<char>>(cmd),
{
    law_decode_first_request(cmd, seq![]);
    assert(request_text(cmd) + Seq::<char>::empty() =~= request_text(cmd));
}

/// The reader reads one request at a time: decoding a text that starts
/// with the request text of a command gives that command, whatever text
/// `more` follows it, provided the reader gives each of the command's
/// tokens back as it is.
pub proof fn law_decode_first_request(cmd: CommandView, more: Seq<char>)
    requires
        wire_tokens(command_tokens(cmd)),
    ensures
        decode_request(request_text(cmd) + more) == Ok::<CommandView, Seq<char>>(cmd),
{
    law_read_written_frame(command_tokens(cmd), more);
    law_parse_command_tokens(cmd);
}

/// Whether the frame reader gives the element `token` back as it is.
pub fn is_wire_token(token: &str) -> (r: bool)
    ensures
        r == wire_token(token@),
{
    let chars = chars_of(token);
    let mut i: usize = 0;
    while i < chars.len()
        invariant
            i <= chars.len(),
            chars@ == token@,
            forall|j: int| 0 <= j < i ==> token@[j] != '\n',
        decreases chars.len() - i,
    {
        if chars[i] == '\n' {
            return false;
        }
        i += 1;
    }
    let len: usize = token.as_bytes().len();
    assert(utf8_len(token@) == len);
    let folded = to_lowercase(trim(token));
    str_eq(folded.as_str(), token)
}

/// The tokens that denote `cmd`.
pub fn command_to_tokens(cmd: &Command) -> (tokens: Vec<String>)
    ensures
        token_views(tokens@) == command_tokens(cmd@),
{
    let mut tokens: Vec<String> = Vec::new();
    match cmd {
        Command::Exit => {},
        Command::Ping => {
            tokens.push(String::from_str("ping"));
        },
        Command::Echo(message) => {
            tokens.push(String::from_str("echo"));
            tokens.push(message.clone());
        },
        Command::Get(key) => {
            tokens.push(String::from_str("get"));
            tokens.push(key.clone());
        },
        Command::SetKey(set) => {
            tokens.push(String::from_str("set"));
            tokens.push(set.key.clone());
            tokens.push(set.val.clone());
            match set.expired {
                None => {},
                Some(ExpireSet::EX(seconds)) => {
                    tokens.push(String::from_str("ex"));
                    tokens.push(decimal_string(seconds as u128));
                },
                Some(ExpireSet::PX(millis)) => {
                    tokens.push(String::from_str("px"));
                    tokens.push(decimal_string(millis));
                },
            }
            match set.condition {
                None => {},
                Some(ConditionSet::NX) => {
                    tokens.push(String::from_str("nx"));
                },
                Some(ConditionSet::XX) => {
                    tokens.push(String::from_str("xx"));
                },
            }
        },
    }
    assert(token_views(tokens@) =~= command_tokens(cmd@));
    tokens
}

/// Writes the request for `cmd` as wire text, where the frame reader
/// gives each of its tokens back as it is; decoding the text then gives
/// `cmd` again. Returns `None` for any other command: one with a key, a
/// value or a message that holds a line feed, upper-case letters or white
/// space at its ends.
pub fn encode_command(cmd: &Command) -> (r: Option<String>)
    ensures
        r is Some <==> wire_tokens(command_tokens(cmd@)),
        r matches Some(text) ==> text@ == request_text(cmd@),
        r matches Some(text) ==> decode_request(text@) == Ok::<CommandView, Seq<char>>(cmd@),
{
    let tokens = command_to_tokens(cmd);
    let mut i: usize = 0;
    while i < tokens.len()
        invariant
            i <= tokens.len(),
            token_views(tokens@) == command_tokens(cmd@),
            forall|j: int| 0 <= j < i ==> wire_token(#[trigger] token_views(tokens@)[j]),
        decreases tokens.len() - i,
    {
        assert(token_views(tokens@)[i as int] == tokens@[i as int]@);
        if !is_wire_token(tokens[i].as_str()) {
            return None;
        }
        i += 1;
    }
    proof {
        law_decode_written_request(cmd@);
    }
    Some(encode_frame(&tokens))
}

} // verus!
