//! The command parser: from the tokens of one frame to a typed command.

use vstd::prelude::*;
use vstd::string::*;
use crate::command::{Command, CommandView, ConditionSet, ExpireSet, SetCmd, SetCmdView};
use crate::text::{decimal_digits, decimal_up_to, lemma_decimal_digits, parse_decimal, str_eq};

verus! {

/// The expiry and the condition that the options of a `SET` give.
pub type SetOptions = (Option<ExpireSet>, Option<ConditionSet>);

/// The texts of `tokens`.
pub open spec fn token_views(tokens: Seq<String>) -> Seq<Seq<char>> {
    tokens.map_values(|token: String| token@)
}

/// The error for a command with the wrong number of arguments.
pub open spec fn arity_error(verb: Seq<char>) -> Seq<char> {
    "ERR wrong number of arguments for '"@ + verb + "' command"@
}

/// The error for an option that is given twice.
pub open spec fn duplicate_error() -> Seq<char> {
    "Expire set duplicate"@
}

/// The error for an expiry option that nothing follows.
pub open spec fn missing_value_error() -> Seq<char> {
    "ERR syntax error"@
}

/// The error for an expiry that is no number, or too large a one.
pub open spec fn bad_number_error() -> Seq<char> {
    "ERR value is not an integer or out of range"@
}

/// The error for a word that is no option.
pub open spec fn invalid_option_error(word: Seq<char>) -> Seq<char> {
    "Invalid Option: "@ + word
}

/// The error for a verb that is no command.
pub open spec fn unknown_command_error(verb: Seq<char>) -> Seq<char> {
    "Unknown command: "@ + verb
}

/// The expiry that the option `word` gives with the argument `arg`: `ex`
/// takes seconds that fit 32 bits, `px` milliseconds that fit 128 bits.
pub open spec fn expiry_of(word: Seq<char>, arg: Seq<char>) -> Option<ExpireSet> {
    if word == "ex"@ {
        match decimal_up_to(arg, u32::MAX as nat) {
            Some(seconds) => Some(ExpireSet::EX(seconds as u32)),
            None => None,
        }
    } else {
        match decimal_up_to(arg, u128::MAX as nat) {
            Some(millis) => Some(ExpireSet::PX(millis as u128)),
            None => None,
        }
    }
}

/// The options of a `SET`, read from left to right, where `expired` and
/// `condition` are what the options before `options` gave. `ex` and `px`
/// take the word after them as their argument; `nx` and `xx` take none.
/// An expiry after an expiry, or a condition after a condition, is an
/// error, and so is any other word.
pub open spec fn scan_options(
    options: Seq<Seq<char>>,
    expired: Option<ExpireSet>,
    condition: Option<ConditionSet>,
) -> Result<SetOptions, Seq<char>>
    decreases options.len(),
{
    if options.len() == 0 {
        Ok((expired, condition))
    } else {
        let word = options[0];
        if word == "ex"@ || word == "px"@ {
            if expired is Some {
                Err(duplicate_error())
            } else if options.len() < 2 {
                Err(missing_value_error())
            } else {
                match expiry_of(word, options[1]) {
                    Some(ttl) => scan_options(options.skip(2), Some(ttl), condition),
                    None => Err(bad_number_error()),
                }
            }
        } else if word == "nx"@ || word == "xx"@ {
            if condition is Some {
                Err(duplicate_error())
            } else {
                scan_options(
                    options.skip(1),
                    expired,
                    Some(
                        if word == "nx"@ {
                            ConditionSet::NX
                        } else {
                            ConditionSet::XX
                        },
                    ),
                )
            }
        } else {
            Err(invalid_option_error(word))
        }
    }
}

/// The command that `tokens` denote. No token is the end of the input.
/// Otherwise the first token is the verb: `ping` takes anything after it,
/// `echo` and `get` take one argument, `set` a key, a value and options.
pub open spec fn parse_tokens(tokens: Seq<Seq<char>>) -> Result<CommandView, Seq<char>> {
    if tokens.len() == 0 {
        Ok(CommandView::Exit)
    } else {
        let verb = tokens[0];
        let args = tokens.skip(1);
        if verb == "ping"@ {
            Ok(CommandView::Ping)
        } else if verb == "echo"@ {
            if args.len() == 1 {
                Ok(CommandView::Echo(args[0]))
            } else {
                Err(arity_error(verb))
            }
        } else if verb == "set"@ {
            if args.len() < 2 {
                Err(arity_error(verb))
            } else {
                match scan_options(args.skip(2), None, None) {
                    Ok((expired, condition)) => Ok(
                        CommandView::SetKey(
                            SetCmdView { key: args[0], val: args[1], expired, condition },
                        ),
                    ),
                    Err(message) => Err(message),
                }
            }
        } else if verb == "get"@ {
            if args.len() == 1 {
                Ok(CommandView::Get(args[0]))
            } else {
                Err(arity_error(verb))
            }
        } else {
            Err(unknown_command_error(verb))
        }
    }
}

/// The error for `verb` with the wrong number of arguments.
fn arity_message(verb: &str) -> (message: String)
    ensures
        message@ == arity_error(verb@),
{
    String::from_str("ERR wrong number of arguments for '").concat(verb).concat("' command")
}

/// Reads the argument `arg` of the expiry option `word`.
fn parse_expiry(word: &str, arg: &str) -> (r: Option<ExpireSet>)
    ensures
        r == expiry_of(word@, arg@),
{
    if str_eq(word, "ex") {
        match parse_decimal(arg, u32::MAX as u128) {
            Some(seconds) => Some(ExpireSet::EX(seconds as u32)),
            None => None,
        }
    } else {
        match parse_decimal(arg, u128::MAX) {
            Some(millis) => Some(ExpireSet::PX(millis)),
            None => None,
        }
    }
}

/// Reads the options of a `SET`: the tokens from the index `from` on.
fn parse_set_options(tokens: &Vec<String>, from: usize) -> (r: Result<SetOptions, String>)
    requires
        from <= tokens.len(),
    ensures
        match r {
            Ok(options) => scan_options(token_views(tokens@).skip(from as int), None, None) == Ok::<
                SetOptions,
                Seq<char>,
            >(options),
            Err(message) => scan_options(token_views(tokens@).skip(from as int), None, None)
                == Err::<SetOptions, Seq<char>>(message@),
        },
{
    let ghost all = token_views(tokens@);
    let mut expired: Option<ExpireSet> = None;
    let mut condition: Option<ConditionSet> = None;
    let mut i: usize = from;
    while i < tokens.len()
        invariant
            from <= i <= tokens.len(),
            all == token_views(tokens@),
            scan_options(all.skip(from as int), None, None) == scan_options(
                all.skip(i as int),
                expired,
                condition,
            ),
        decreases tokens.len() - i,
    {
        let word = tokens[i].as_str();
        let ghost rest = all.skip(i as int);
        assert(rest.len() == tokens.len() - i);
        assert(rest[0] == word@);
        if str_eq(word, "ex") || str_eq(word, "px") {
            if expired.is_some() {
                return Err(String::from_str("Expire set duplicate"));
            }
            if i + 1 >= tokens.len() {
                return Err(String::from_str("ERR syntax error"));
            }
            let arg = tokens[i + 1].as_str();
            assert(rest[1] == arg@);
            match parse_expiry(word, arg) {
                Some(ttl) => {
                    expired = Some(ttl);
                },
                None => {
                    return Err(String::from_str("ERR value is not an integer or out of range"));
                },
            }
            assert(rest.skip(2) =~= all.skip(i + 2));
            i += 2;
        } else if str_eq(word, "nx") || str_eq(word, "xx") {
            if condition.is_some() {
                return Err(String::from_str("Expire set duplicate"));
            }
            if str_eq(word, "nx") {
                condition = Some(ConditionSet::NX);
            } else {
                condition = Some(ConditionSet::XX);
            }
            assert(rest.skip(1) =~= all.skip(i + 1));
            i += 1;
        } else {
            return Err(String::from_str("Invalid Option: ").concat(word));
        }
    }
    Ok((expired, condition))
}

/// Parses the tokens of one frame into a command. An empty frame is the
/// end of the input. Every other outcome is decided by the verb, the
/// number of its arguments and, for `set`, its options; what cannot be
/// parsed is returned as the error text to send to the client.
pub fn construct_cmd(cmd_with_options: Vec<String>) -> (r: Result<Command, String>)
    ensures
        match r {
            Ok(cmd) => parse_tokens(token_views(cmd_with_options@)) == Ok::<
                CommandView,
                Seq<char>,
            >(cmd@),
            Err(message) => parse_tokens(token_views(cmd_with_options@)) == Err::<
                CommandView,
                Seq<char>,
            >(message@),
        },
{
    let ghost tokens = token_views(cmd_with_options@);
    let n: usize = cmd_with_options.len();
    if n == 0 {
        return Ok(Command::Exit);
    }
    let verb = cmd_with_options[0].as_str();
    assert(tokens[0] == verb@);
    assert(tokens.skip(1).len() == n - 1);
    if str_eq(verb, "ping") {
        Ok(Command::Ping)
    } else if str_eq(verb, "echo") {
        if n == 2 {
            assert(tokens.skip(1)[0] == cmd_with_options@[1]@);
            Ok(Command::Echo(cmd_with_options[1].clone()))
        } else {
            Err(arity_message(verb))
        }
    } else if str_eq(verb, "set") {
        if n < 3 {
            Err(arity_message(verb))
        } else {
            assert(tokens.skip(1)[0] == cmd_with_options@[1]@);
            assert(tokens.skip(1)[1] == cmd_with_options@[2]@);
            assert(tokens.skip(1).skip(2) =~= tokens.skip(3));
            match parse_set_options(&cmd_with_options, 3) {
                Ok((expired, condition)) => {
                    let key = cmd_with_options[1].clone();
                    let val = cmd_with_options[2].clone();
                    if n == 3 {
                        Ok(Command::SetKey(SetCmd::new(key, val)))
                    } else {
                        Ok(Command::SetKey(SetCmd::new_with_options(key, val, expired, condition)))
                    }
                },
                Err(message) => Err(message),
            }
        }
    } else if str_eq(verb, "get") {
        if n == 2 {
            assert(tokens.skip(1)[0] == cmd_with_options@[1]@);
            Ok(Command::Get(cmd_with_options[1].clone()))
        } else {
            Err(arity_message(verb))
        }
    } else {
        Err(String::from_str("Unknown command: ").concat(verb))
    }
}

/// The tokens that name the expiry `expired`.
pub open spec fn expiry_tokens(expired: Option<ExpireSet>) -> Seq<Seq<char>> {
    match expired {
        None => seq![],
        Some(ExpireSet::EX(seconds)) => seq!["ex"@, decimal_digits(seconds as nat)],
        Some(ExpireSet::PX(millis)) => seq!["px"@, decimal_digits(millis as nat)],
    }
}

/// The tokens that name the condition `condition`.
pub open spec fn condition_tokens(condition: Option<ConditionSet>) -> Seq<Seq<char>> {
    match condition {
        None => seq![],
        Some(ConditionSet::NX) => seq!["nx"@],
        Some(ConditionSet::XX) => seq!["xx"@],
    }
}

/// The tokens that denote `cmd`: its verb, its arguments and, for a `SET`,
/// the expiry and then the condition. The end of the input is no token.
pub open spec fn command_tokens(cmd: CommandView) -> Seq<Seq<char>> {
    match cmd {
        CommandView::Exit => seq![],
        CommandView::Ping => seq!["ping"@],
        CommandView::Echo(message) => seq!["echo"@, message],
        CommandView::Get(key) => seq!["get"@, key],
        CommandView::SetKey(set) => seq!["set"@, set.key, set.val] + expiry_tokens(set.expired)
            + condition_tokens(set.condition),
    }
}

/// The key words of the protocol differ from one another.
proof fn lemma_key_words_differ()
    ensures
        "ping"@ != "echo"@,
        "ping"@ != "set"@,
        "ping"@ != "get"@,
        "echo"@ != "set"@,
        "echo"@ != "get"@,
        "set"@ != "get"@,
        "ex"@ != "px"@,
        "ex"@ != "nx"@,
        "ex"@ != "xx"@,
        "px"@ != "nx"@,
        "px"@ != "xx"@,
        "nx"@ != "xx"@,
{
    reveal_strlit("ping");
    reveal_strlit("echo");
    reveal_strlit("set");
    reveal_strlit("get");
    reveal_strlit("ex");
    reveal_strlit("px");
    reveal_strlit("nx");
    reveal_strlit("xx");
    assert("ping"@[0] != "echo"@[0]);
    assert("ping"@[0] != "get"@[0]);
    assert("echo"@[0] != "get"@[0]);
    assert("set"@[0] != "get"@[0]);
    assert("ex"@[0] != "px"@[0]);
    assert("ex"@[0] != "nx"@[0]);
    assert("ex"@[0] != "xx"@[0]);
    assert("px"@[0] != "nx"@[0]);
    assert("px"@[0] != "xx"@[0]);
    assert("nx"@[0] != "xx"@[0]);
}

/// Every command is what its own tokens denote.
pub proof fn law_parse_command_tokens(cmd: CommandView)
    ensures
        parse_tokens(command_tokens(cmd)) == Ok::<CommandView, Seq<char>>(cmd),
{
    lemma_key_words_differ();
    let tokens = command_tokens(cmd);
    match cmd {
        CommandView::Exit => {},
        CommandView::Ping => {},
        CommandView::Echo(message) => {},
        CommandView::Get(key) => {},
        CommandView::SetKey(set) => {
            let options = expiry_tokens(set.expired) + condition_tokens(set.condition);
            assert(tokens.skip(1).skip(2) =~= options);
            let tail = condition_tokens(set.condition);
            assert(scan_options(tail, set.expired, None) == Ok::<SetOptions, Seq<char>>(
                (set.expired, set.condition),
            )) by {
                reveal_with_fuel(scan_options, 2);
                if set.condition is Some {
                    assert(tail.skip(1) =~= Seq::<Seq<char>>::empty());
                }
            }
            match set.expired {
                None => {
                    assert(options =~= tail);
                },
                Some(ExpireSet::EX(seconds)) => {
                    lemma_decimal_digits(seconds as nat);
                    assert(options.skip(2) =~= tail);
                },
                Some(ExpireSet::PX(millis)) => {
                    lemma_decimal_digits(millis as nat);
                    assert(options.skip(2) =~= tail);
                },
            }
        },
    }
}

/// Options that were read without error are read the same way with more
/// options after them, and those are then read from where the first left
/// off.
pub proof fn lemma_scan_options_append(
    first: Seq<Seq<char>>,
    rest: Seq<Seq<char>>,
    expired: Option<ExpireSet>,
    condition: Option<ConditionSet>,
)
    ensures
        scan_options(first, expired, condition) matches Ok((e, c)) ==> scan_options(
            first + rest,
            expired,
            condition,
        ) == scan_options(rest, e, c),
    decreases first.len(),
{
    let all = first + rest;
    if first.len() == 0 {
        assert(all =~= rest);
    } else if scan_options(first, expired, condition) is Ok {
        let word = first[0];
        assert(all[0] == word);
        if word == "ex"@ || word == "px"@ {
            assert(all[1] == first[1]);
            let ttl = expiry_of(word, first[1]);
            assert(all.skip(2) =~= first.skip(2) + rest);
            lemma_scan_options_append(first.skip(2), rest, ttl, condition);
        } else {
            let chosen = Some(
                if word == "nx"@ {
                    ConditionSet::NX
                } else {
                    ConditionSet::XX
                },
            );
            assert(all.skip(1) =~= first.skip(1) + rest);
            lemma_scan_options_append(first.skip(1), rest, expired, chosen);
        }
    }
}

/// A `SET` that names an expiry twice is refused: once the options `first`
/// have given an expiry, an `ex` or `px` after them is an error, whatever
/// its argument is and whatever follows.
pub proof fn law_second_expiry_refused(
    key: Seq<char>,
    val: Seq<char>,
    first: Seq<Seq<char>>,
    rest: Seq<Seq<char>>,
)
    requires
        scan_options(first, None, None) matches Ok((expired, _)) && expired is Some,
        rest.len() > 0,
        rest[0] == "ex"@ || rest[0] == "px"@,
    ensures
        parse_tokens(seq!["set"@, key, val] + first + rest) == Err::<CommandView, Seq<char>>(
            duplicate_error(),
        ),
{
    lemma_key_words_differ();
    let tokens = seq!["set"@, key, val] + first + rest;
    assert(tokens.skip(1).skip(2) =~= first + rest);
    lemma_scan_options_append(first, rest, None, None);
}

} // verus!
