//! The command grammar: one decoded text line becomes either a join
//! command or broadcast content.
//!
//! A line is split on ASCII whitespace. If the first token is `join`
//! (case-insensitive), the line must be exactly `join <room> <username>`
//! with both names non-empty and shorter than twenty characters; any other
//! non-empty line is implicit broadcast content, and an empty line is a
//! parse error.

use vstd::prelude::*;

verus! {

/// ASCII whitespace, the separators the tokenizer splits on.
pub open spec fn is_space(c: char) -> bool {
    c == ' ' || c == '\t' || c == '\n' || c == '\r' || c == '\x0c'
}

/// Length of the leading run of non-whitespace characters.
pub open spec fn token_run(s: Seq<char>) -> nat
    decreases s.len(),
{
    if s.len() == 0 || is_space(s[0]) {
        0
    } else {
        (1 + token_run(s.skip(1))) as nat
    }
}

/// The whitespace-separated tokens of a line, in order.
pub open spec fn spec_tokens(s: Seq<char>) -> Seq<Seq<char>>
    decreases s.len(),
    via spec_tokens_decreases
{
    if s.len() == 0 {
        Seq::empty()
    } else if is_space(s[0]) {
        spec_tokens(s.skip(1))
    } else {
        seq![s.take(token_run(s) as int)] + spec_tokens(s.skip(token_run(s) as int))
    }
}

/// The leading token never runs past the end of the line.
proof fn lemma_token_run_le(s: Seq<char>)
    ensures
        token_run(s) <= s.len(),
    decreases s.len(),
{
    if s.len() != 0 && !is_space(s[0]) {
        lemma_token_run_le(s.skip(1));
    }
}

#[via_fn]
proof fn spec_tokens_decreases(s: Seq<char>) {
    if s.len() != 0 && !is_space(s[0]) {
        assert(token_run(s) == 1 + token_run(s.skip(1)));
        lemma_token_run_le(s);
    }
}

/// A room or display name is valid when non-empty and strictly shorter
/// than twenty characters.
pub open spec fn valid_name(t: Seq<char>) -> bool {
    0 < t.len() < 20
}

/// The token `join`, matched case-insensitively.
pub open spec fn is_join_keyword(t: Seq<char>) -> bool {
    &&& t.len() == 4
    &&& (t[0] == 'j' || t[0] == 'J')
    &&& (t[1] == 'o' || t[1] == 'O')
    &&& (t[2] == 'i' || t[2] == 'I')
    &&& (t[3] == 'n' || t[3] == 'N')
}

/// Is the username argument specified valid?
pub fn valid_username(username_arg: Option<&str>) -> (r: bool)
    ensures
        r == match username_arg {
            Some(u) => valid_name(u@),
            None => false,
        },
{
    match username_arg {
        Some(username) => {
            let n = username.unicode_len();
            0 < n && n < 20
        },
        None => false,
    }
}

/// Is the chatroom argument specified valid?
pub fn valid_chatroom_name(room_name_arg: Option<&str>) -> (r: bool)
    ensures
        r == match room_name_arg {
            Some(t) => valid_name(t@),
            None => false,
        },
{
    match room_name_arg {
        Some(room_name) => {
            let n = room_name.unicode_len();
            0 < n && n < 20
        },
        None => false,
    }
}

/// `token_run` is exactly the index of the first whitespace character
/// (or the whole length when there is none).
proof fn lemma_token_run(s: Seq<char>, k: int)
    requires
        0 <= k <= s.len(),
        forall|j: int| 0 <= j < k ==> !is_space(s[j]),
        k == s.len() || is_space(s[k]),
    ensures
        token_run(s) == k,
    decreases k,
{
    if k == 0 {
    } else {
        assert(!is_space(s[0]));
        lemma_token_run(s.skip(1), k - 1);
    }
}

fn is_space_char(c: char) -> (r: bool)
    ensures
        r == is_space(c),
{
    c == ' ' || c == '\t' || c == '\n' || c == '\r' || c == '\x0c'
}

/// The views of a vector of tokens.
pub open spec fn token_views(v: Seq<String>) -> Seq<Seq<char>> {
    v.map_values(|t: String| t@)
}

/// Split a line into its whitespace-separated tokens.
pub fn tokenize(s: &str) -> (tokens: Vec<String>)
    ensures
        token_views(tokens@) == spec_tokens(s@),
{
    let n = s.unicode_len();
    let mut tokens: Vec<String> = Vec::new();
    let mut i: usize = 0;
    proof {
        assert(s@.skip(0) =~= s@);
        assert(token_views(tokens@) + spec_tokens(s@) =~~= spec_tokens(s@));
    }
    while i < n
        invariant
            n == s@.len(),
            i <= n,
            spec_tokens(s@) == token_views(tokens@) + spec_tokens(s@.skip(i as int)),
        decreases n - i,
    {
        let c = s.get_char(i);
        if is_space_char(c) {
            proof {
                assert(s@.skip(i as int)[0] == s@[i as int]);
                assert(s@.skip(i as int).skip(1) =~= s@.skip(i + 1 as int));
            }
            i = i + 1;
        } else {
            let start = i;
            while i < n
                invariant_except_break
                    n == s@.len(),
                    start <= i <= n,
                    forall|j: int| start <= j < i ==> !is_space(s@[j]),
                ensures
                    start <= i <= n,
                    forall|j: int| start <= j < i ==> !is_space(s@[j]),
                    i == n || is_space(s@[i as int]),
                decreases n - i,
            {
                let c2 = s.get_char(i);
                if is_space_char(c2) {
                    break;
                }
                i = i + 1;
            }
            let tok: String = s.substring_char(start, i).to_owned();
            proof {
                let rest = s@.skip(start as int);
                assert(rest[0] == s@[start as int]);
                assert forall|j: int| 0 <= j < i - start implies !is_space(rest[j]) by {
                    assert(rest[j] == s@[start + j]);
                }
                if i < n {
                    assert(rest[i - start] == s@[i as int]);
                }
                lemma_token_run(rest, i - start);
                assert(rest.take(i - start) =~= s@.subrange(start as int, i as int));
                assert(rest.skip(i - start) =~= s@.skip(i as int));
                assert(token_views(tokens@.push(tok)) =~= token_views(tokens@) + seq![tok@]);
                assert(token_views(tokens@) + (seq![tok@] + spec_tokens(s@.skip(i as int)))
                    =~= token_views(tokens@.push(tok)) + spec_tokens(s@.skip(i as int)));
            }
            tokens.push(tok);
        }
    }
    proof {
        assert(s@.skip(n as int) =~= Seq::<char>::empty());
        assert(token_views(tokens@) + spec_tokens(s@.skip(n as int)) =~= token_views(tokens@));
    }
    tokens
}

/// A command as the TCP transport's grammar produces it.
#[derive(Debug, PartialEq, Eq)]
pub enum UserCommand {
    JoinChatRoom { username: String, room_name: String },
    BroadcastMessage(String),
}

/// A command as the WebSocket transport's grammar produces it.
#[derive(Debug, PartialEq, Eq)]
pub enum ChatSessionCommand {
    JoinChatRoom { username: String, room_name: String },
    BroadcastMessage(String),
}

/// The view of a parsed command.
#[verifier::ext_equal]
pub enum SpecCommand {
    JoinChatRoom { username: Seq<char>, room_name: Seq<char> },
    BroadcastMessage(Seq<char>),
}

impl View for UserCommand {
    type V = SpecCommand;

    open spec fn view(&self) -> SpecCommand {
        match self {
            UserCommand::JoinChatRoom { username, room_name } => SpecCommand::JoinChatRoom {
                username: username@,
                room_name: room_name@,
            },
            UserCommand::BroadcastMessage(content) => SpecCommand::BroadcastMessage(content@),
        }
    }
}

impl View for ChatSessionCommand {
    type V = SpecCommand;

    open spec fn view(&self) -> SpecCommand {
        match self {
            ChatSessionCommand::JoinChatRoom { username, room_name } => SpecCommand::JoinChatRoom {
                username: username@,
                room_name: room_name@,
            },
            ChatSessionCommand::BroadcastMessage(content) => SpecCommand::BroadcastMessage(
                content@,
            ),
        }
    }
}

/// What parsing a line yields: the command, or the error text the
/// original line is answered with.
#[verifier::ext_equal]
pub enum SpecParse {
    Parsed(SpecCommand),
    Rejected(Seq<char>),
}

/// The grammar itself, as a function of the line's characters.
pub open spec fn spec_parse(message: Seq<char>) -> SpecParse {
    let toks = spec_tokens(message);
    if toks.len() == 0 {
        SpecParse::Rejected("Command cannot be empty"@)
    } else if is_join_keyword(toks[0]) {
        if !(toks.len() >= 2 && valid_name(toks[1])) {
            SpecParse::Rejected("Invalid room name"@)
        } else if !(toks.len() >= 3 && valid_name(toks[2])) {
            SpecParse::Rejected("Invalid username"@)
        } else if toks.len() > 3 {
            SpecParse::Rejected("Invalid join command specified"@)
        } else {
            SpecParse::Parsed(SpecCommand::JoinChatRoom { username: toks[2], room_name: toks[1] })
        }
    } else {
        SpecParse::Parsed(SpecCommand::BroadcastMessage(message))
    }
}

/// The view of a concrete parse result.
pub open spec fn parse_view(r: Result<UserCommand, String>) -> SpecParse {
    match r {
        Ok(cmd) => SpecParse::Parsed(cmd@),
        Err(e) => SpecParse::Rejected(e@),
    }
}

fn is_join_token(t: &str) -> (r: bool)
    ensures
        r == is_join_keyword(t@),
{
    if t.unicode_len() != 4 {
        return false;
    }
    let c0 = t.get_char(0);
    let c1 = t.get_char(1);
    let c2 = t.get_char(2);
    let c3 = t.get_char(3);
    (c0 == 'j' || c0 == 'J') && (c1 == 'o' || c1 == 'O') && (c2 == 'i' || c2 == 'I') && (c3 == 'n'
        || c3 == 'N')
}

impl UserCommand {
    /// Parse one decoded line into a command.
    pub fn from_str(message: &str) -> (r: Result<UserCommand, String>)
        ensures
            parse_view(r) == spec_parse(message@),
    {
        let tokens = tokenize(message);
        if tokens.len() == 0 {
            return Err(String::from_str("Command cannot be empty"));
        }
        if is_join_token(tokens[0].as_str()) {
            let room_ok = if tokens.len() >= 2 {
                valid_chatroom_name(Some(tokens[1].as_str()))
            } else {
                valid_chatroom_name(None)
            };
            if !room_ok {
                return Err(String::from_str("Invalid room name"));
            }
            let user_ok = if tokens.len() >= 3 {
                valid_username(Some(tokens[2].as_str()))
            } else {
                valid_username(None)
            };
            if !user_ok {
                return Err(String::from_str("Invalid username"));
            }
            if tokens.len() > 3 {
                return Err(String::from_str("Invalid join command specified"));
            }
            let r = Ok(UserCommand::JoinChatRoom {
                username: tokens[2].clone(),
                room_name: tokens[1].clone(),
            });
            proof {
                assert(parse_view(r) =~~= spec_parse(message@));
            }
            r
        } else {
            let r = Ok(UserCommand::BroadcastMessage(message.to_owned()));
            r
        }
    }
}

impl ChatSessionCommand {
    /// Parse one decoded line into a command; both transports share one
    /// grammar.
    pub fn from_str(message: &str) -> (r: Result<ChatSessionCommand, String>)
        ensures
            match r {
                Ok(cmd) => spec_parse(message@) == SpecParse::Parsed(cmd@),
                Err(e) => spec_parse(message@) == SpecParse::Rejected(e@),
            },
    {
        match UserCommand::from_str(message) {
            Ok(UserCommand::JoinChatRoom { username, room_name }) => Ok(
                ChatSessionCommand::JoinChatRoom { username, room_name },
            ),
            Ok(UserCommand::BroadcastMessage(content)) => Ok(
                ChatSessionCommand::BroadcastMessage(content),
            ),
            Err(e) => Err(e),
        }
    }
}

} // verus!
