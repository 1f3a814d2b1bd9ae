//! The frame reader: from the lines of a connection to the tokens of one
//! request. A request is a line `*N` and then, `N` times, a line `$L` and
//! a line that holds an element of `L` bytes.

use vstd::prelude::*;
use vstd::string::*;
use crate::command::{Command, CommandView};
use crate::parser::{construct_cmd, parse_tokens, token_views};
use crate::text::{
    byte_prefix, chars_of, decimal_up_to, lowercase, parse_decimal, take_bytes, to_lowercase, trim,
    trimmed,
};

verus! {

/// What reading a frame ends with: its tokens, or the error to send.
pub type FrameResult = Result<Seq<Seq<char>>, Seq<char>>;

/// The error for input that is no frame.
pub open spec fn format_error() -> Seq<char> {
    "Input format error"@
}

/// The number that a header line gives: what follows its first character,
/// without the white space around it, read as a decimal number that fits
/// the machine's word. The first character is one byte long; which one it
/// is does not matter here.
pub open spec fn header_number(line: Seq<char>) -> Option<nat> {
    if line.len() > 0 && (line[0] as u32) < 0x80 {
        decimal_up_to(trimmed(line.skip(1)), usize::MAX as nat)
    } else {
        None
    }
}

/// The token that a content line gives for an element of `len` bytes: the
/// first `len` bytes of the line, without the white space around them, in
/// lower case. A line without any character, which is how the end of the
/// stream shows, gives none.
pub open spec fn element_token(line: Seq<char>, len: nat) -> Option<Seq<char>> {
    if line.len() == 0 {
        None
    } else {
        match byte_prefix(line, len) {
            Some(head) => Some(lowercase(trimmed(head))),
            None => None,
        }
    }
}

/// Where a frame reader stands.
pub enum ReaderView {
    /// Between two frames: the next line is to be a count line.
    Idle,
    /// Inside a frame, before the length line of an element. `remaining`
    /// elements are still to be read, `tokens` were read.
    Length { remaining: nat, tokens: Seq<Seq<char>> },
    /// Inside a frame, before the content line of an element of `len`
    /// bytes.
    Content { remaining: nat, len: nat, tokens: Seq<Seq<char>> },
}

impl ReaderView {
    /// Where the reader stands after `line`.
    pub open spec fn next(self, line: Seq<char>) -> ReaderView {
        match self {
            ReaderView::Idle => {
                if line.len() > 0 && line[0] == '*' {
                    match header_number(line) {
                        Some(count) => if count > 0 {
                            ReaderView::Length { remaining: count, tokens: seq![] }
                        } else {
                            ReaderView::Idle
                        },
                        None => ReaderView::Idle,
                    }
                } else {
                    ReaderView::Idle
                }
            },
            ReaderView::Length { remaining, tokens } => {
                match header_number(line) {
                    Some(len) => ReaderView::Content { remaining, len, tokens },
                    None => ReaderView::Idle,
                }
            },
            ReaderView::Content { remaining, len, tokens } => {
                match element_token(line, len) {
                    Some(token) => if remaining > 1 {
                        ReaderView::Length {
                            remaining: (remaining - 1) as nat,
                            tokens: tokens.push(token),
                        }
                    } else {
                        ReaderView::Idle
                    },
                    None => ReaderView::Idle,
                }
            },
        }
    }

    /// What `line` ends the frame with, if it ends it. A line without any
    /// character stands for the end of the stream: between two frames it
    /// is the frame without tokens, inside a frame it is an error. A
    /// frame ends with its last element, and with the first line that is
    /// malformed.
    pub open spec fn outcome(self, line: Seq<char>) -> Option<FrameResult> {
        match self {
            ReaderView::Idle => {
                if line.len() == 0 {
                    Some(Ok(seq![]))
                } else if line[0] != '*' {
                    Some(Err(format_error()))
                } else {
                    match header_number(line) {
                        Some(count) => if count > 0 {
                            None
                        } else {
                            Some(Ok(seq![]))
                        },
                        None => Some(Err(format_error())),
                    }
                }
            },
            ReaderView::Length { remaining, tokens } => {
                match header_number(line) {
                    Some(len) => None,
                    None => Some(Err(format_error())),
                }
            },
            ReaderView::Content { remaining, len, tokens } => {
                match element_token(line, len) {
                    Some(token) => if remaining > 1 {
                        None
                    } else {
                        Some(Ok(tokens.push(token)))
                    },
                    None => Some(Err(format_error())),
                }
            },
        }
    }
}

/// The request that a frame's end stands for: the command that its tokens
/// denote, or the error.
pub open spec fn request_of(frame: FrameResult) -> Result<CommandView, Seq<char>> {
    match frame {
        Ok(tokens) => parse_tokens(tokens),
        Err(message) => Err(message),
    }
}

/// Reads the number of a header line.
pub fn parse_header_number(line: &str) -> (r: Option<usize>)
    ensures
        match r {
            Some(number) => header_number(line@) == Some(number as nat),
            None => header_number(line@) is None,
        },
{
    let n: usize = line.unicode_len();
    if n == 0 {
        return None;
    }
    let first = line.get_char(0);
    if first as u32 >= 0x80 {
        return None;
    }
    let rest = line.substring_char(1, n);
    assert(rest@ =~= line@.skip(1));
    match parse_decimal(trim(rest), usize::MAX as u128) {
        Some(number) => Some(number as usize),
        None => None,
    }
}

/// Reads the token of a content line for an element of `len` bytes.
pub fn extract_token(line: &str, len: usize) -> (r: Option<String>)
    ensures
        match r {
            Some(token) => element_token(line@, len as nat) == Some(token@),
            None => element_token(line@, len as nat) is None,
        },
{
    if line.is_empty() {
        return None;
    }
    match take_bytes(line, len) {
        Some(head) => Some(to_lowercase(trim(head))),
        None => None,
    }
}

/// Reads frames line by line. The caller reads the lines, each with its
/// line feed, and hands them over one at a time until a request comes
/// back; at the end of the stream it hands over a line without any
/// character.
pub struct FrameReader {
    remaining: usize,
    pending: Option<usize>,
    tokens: Vec<String>,
}

impl View for FrameReader {
    type V = ReaderView;

    closed spec fn view(&self) -> ReaderView {
        if self.remaining == 0 {
            ReaderView::Idle
        } else {
            match self.pending {
                None => ReaderView::Length {
                    remaining: self.remaining as nat,
                    tokens: token_views(self.tokens@),
                },
                Some(len) => ReaderView::Content {
                    remaining: self.remaining as nat,
                    len: len as nat,
                    tokens: token_views(self.tokens@),
                },
            }
        }
    }
}

impl FrameReader {
    /// A reader between two frames.
    pub fn new() -> (reader: Self)
        ensures
            reader@ == ReaderView::Idle,
    {
        FrameReader { remaining: 0, pending: None, tokens: Vec::new() }
    }

    /// Takes the next line of the connection. Returns `None` while the
    /// frame goes on. Where the line ends the frame, returns the request:
    /// the command that the frame's tokens denote, or the error to send;
    /// the reader then stands between two frames again.
    pub fn feed(&mut self, line: &str) -> (r: Option<Result<Command, String>>)
        ensures
            final(self)@ == old(self)@.next(line@),
            r is Some ==> final(self)@ is Idle,
            match r {
                None => old(self)@.outcome(line@) is None,
                Some(Ok(cmd)) => old(self)@.outcome(line@) matches Some(frame) && request_of(frame)
                    == Ok::<CommandView, Seq<char>>(cmd@),
                Some(Err(message)) => old(self)@.outcome(line@) matches Some(frame) && request_of(
                    frame,
                ) == Err::<CommandView, Seq<char>>(message@),
            },
    {
        if self.remaining == 0 {
            if line.is_empty() {
                return Some(Ok(Command::Exit));
            }
            if line.get_char(0) != '*' {
                return Some(Err(String::from_str("Input format error")));
            }
            match parse_header_number(line) {
                Some(count) => {
                    if count == 0 {
                        Some(Ok(Command::Exit))
                    } else {
                        self.remaining = count;
                        self.pending = None;
                        self.tokens = Vec::new();
                        assert(token_views(self.tokens@) =~= Seq::<Seq<char>>::empty());
                        None
                    }
                },
                None => Some(Err(String::from_str("Input format error"))),
            }
        } else {
            match self.pending {
                None => {
                    match parse_header_number(line) {
                        Some(len) => {
                            self.pending = Some(len);
                            None
                        },
                        None => {
                            self.remaining = 0;
                            Some(Err(String::from_str("Input format error")))
                        },
                    }
                },
                Some(len) => {
                    match extract_token(line, len) {
                        Some(token) => {
                            let ghost before = token_views(self.tokens@);
                            let ghost text = token@;
                            self.tokens.push(token);
                            assert(token_views(self.tokens@) =~= before.push(text));
                            self.pending = None;
                            self.remaining = self.remaining - 1;
                            if self.remaining == 0 {
                                let mut tokens: Vec<String> = Vec::new();
                                core::mem::swap(&mut self.tokens, &mut tokens);
                                Some(construct_cmd(tokens))
                            } else {
                                None
                            }
                        },
                        None => {
                            self.remaining = 0;
                            Some(Err(String::from_str("Input format error")))
                        },
                    }
                },
            }
        }
    }
}

/// The length of the first line of `s`: up to and with its first line
/// feed, or all of `s` where it holds none.
pub open spec fn first_line_len(s: Seq<char>) -> nat
    decreases s.len(),
{
    if s.len() == 0 {
        0
    } else if s[0] == '\n' {
        1
    } else {
        1 + first_line_len(s.skip(1))
    }
}

/// The first line of a text is no longer than the text, and not empty
/// unless the text is.
pub proof fn lemma_first_line_len(s: Seq<char>)
    ensures
        first_line_len(s) <= s.len(),
        s.len() > 0 ==> first_line_len(s) >= 1,
    decreases s.len(),
{
    if s.len() > 0 && s[0] != '\n' {
        lemma_first_line_len(s.skip(1));
    }
}

/// The lines of `s`, each with the line feed that ends it; the last one
/// has none where `s` does not end with one.
pub open spec fn split_lines(s: Seq<char>) -> Seq<Seq<char>>
    decreases s.len(),
{
    if s.len() == 0 {
        seq![]
    } else {
        proof {
            lemma_first_line_len(s);
        }
        let n = first_line_len(s) as int;
        seq![s.take(n)] + split_lines(s.skip(n))
    }
}

/// What the frame that starts in `state` with the lines `lines` ends with.
/// After the last line the stream has ended.
pub open spec fn read_frame(state: ReaderView, lines: Seq<Seq<char>>) -> FrameResult
    decreases lines.len(),
{
    let line = if lines.len() == 0 {
        seq![]
    } else {
        lines[0]
    };
    match state.outcome(line) {
        Some(frame) => frame,
        None => if lines.len() == 0 {
            Err(format_error())
        } else {
            read_frame(state.next(line), lines.skip(1))
        },
    }
}

/// The request that the text `input` starts with.
pub open spec fn decode_request(input: Seq<char>) -> Result<CommandView, Seq<char>> {
    request_of(read_frame(ReaderView::Idle, split_lines(input)))
}

/// Where the characters of `s` from `start` up to `end` hold no line feed
/// and `end` is the end of `s` or holds one, the first line of what
/// follows `start` reaches as far as `end`, with that line feed.
pub proof fn lemma_first_line_found(s: Seq<char>, start: int, end: int)
    requires
        0 <= start <= end <= s.len(),
        forall|j: int| start <= j < end ==> s[j] != '\n',
        end < s.len() ==> s[end] == '\n',
    ensures
        first_line_len(s.skip(start)) == if end < s.len() {
            end + 1 - start
        } else {
            end - start
        },
    decreases end - start,
{
    let rest = s.skip(start);
    if start < end {
        assert(rest[0] == s[start]);
        lemma_first_line_found(s, start + 1, end);
        assert(rest.skip(1) =~= s.skip(start + 1));
    } else if end < s.len() {
        assert(rest[0] == s[end]);
    }
}

/// A line without any character ends the frame, wherever the reader
/// stands.
pub proof fn lemma_end_of_stream(state: ReaderView)
    ensures
        state.outcome(seq![]) is Some,
        state is Idle ==> state.outcome(seq![]) == Some(Ok::<Seq<Seq<char>>, Seq<char>>(seq![])),
        !(state is Idle) ==> state.outcome(seq![]) == Some(
            Err::<Seq<Seq<char>>, Seq<char>>(format_error()),
        ),
{
}

/// Reads the request that the text `input` starts with: splits it into
/// lines and hands them to a frame reader until the frame ends. Where the
/// text ends first, the stream has ended.
pub fn extract_cmd(input: &str) -> (r: Result<Command, String>)
    ensures
        match r {
            Ok(cmd) => decode_request(input@) == Ok::<CommandView, Seq<char>>(cmd@),
            Err(message) => decode_request(input@) == Err::<CommandView, Seq<char>>(message@),
        },
{
    let chars = chars_of(input);
    let n: usize = chars.len();
    let mut reader = FrameReader::new();
    let mut start: usize = 0;
    assert(input@.skip(0) =~= input@);
    while start < n
        invariant
            start <= n,
            n == input@.len(),
            chars@ == input@,
            read_frame(ReaderView::Idle, split_lines(input@)) == read_frame(
                reader@,
                split_lines(input@.skip(start as int)),
            ),
        decreases n - start,
    {
        let mut end: usize = start;
        while end < n && chars[end] != '\n'
            invariant
                start <= end <= n,
                n == chars@.len(),
                forall|j: int| start <= j < end ==> chars@[j] != '\n',
            decreases n - end,
        {
            end += 1;
        }
        proof {
            lemma_first_line_found(input@, start as int, end as int);
        }
        if end < n {
            end += 1;
        }
        let line = input.substring_char(start, end);
        let ghost rest = input@.skip(start as int);
        proof {
            assert(rest.take(end - start) =~= line@);
            assert(rest.skip(end - start) =~= input@.skip(end as int));
            let lines = split_lines(rest);
            assert(lines[0] == line@);
            assert(lines.skip(1) =~= split_lines(input@.skip(end as int)));
        }
        match reader.feed(line) {
            Some(request) => {
                return request;
            },
            None => {},
        }
        start = end;
    }
    proof {
        lemma_end_of_stream(reader@);
        reveal_strlit("");
        assert(input@.skip(start as int) =~= Seq::<char>::empty());
    }
    match reader.feed("") {
        Some(request) => request,
        None => Err(String::from_str("Input format error")),
    }
}

} // verus!
