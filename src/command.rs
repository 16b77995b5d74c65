//! Commands of the interactive front end: what a line of words asks the
//! store to do.
use vstd::prelude::*;

use crate::model::{pairs_view, strings_view};
use crate::text::{bool_of, decimal_of, parse_bool, parse_decimal, str_eq};

verus! {

/// A call on the store that a line of words asks for.
#[derive(Debug, PartialEq, Eq)]
pub enum Command {
    Size,
    Get(String),
    Spop(String),
    Slen(String),
    Smembers(String),
    Hkeys(String),
    Hvalues(String),
    Hlen(String),
    ContainsKey(String),
    Sets(String, String),
    Srandmember(String, usize),
    Sismember(String, String),
    Hget(String, String),
    Hexists(String, String),
    Hdel(String, String),
    SetWith(String, String, bool, bool, Option<u64>),
    Sadd(String, Vec<String>),
    Srem(String, Vec<String>),
    Hset(String, String, String),
    Hmset(String, Vec<(String, String)>),
    Hmget(String, Vec<String>),
    Del(Vec<String>),
}

/// Why a line of words asks for no call.
#[derive(Debug, PartialEq, Eq)]
pub enum ParseError {
    /// The verb is unknown, or does not take that many words.
    UnknownCommand,
    /// The count of `srandmember` is not a number; the word is kept.
    NotANumber(String),
    /// The verb is known but its arguments are malformed.
    InputError,
}

/// A command with its strings seen as character sequences.
pub enum CommandView {
    Size,
    Get(Seq<char>),
    Spop(Seq<char>),
    Slen(Seq<char>),
    Smembers(Seq<char>),
    Hkeys(Seq<char>),
    Hvalues(Seq<char>),
    Hlen(Seq<char>),
    ContainsKey(Seq<char>),
    Sets(Seq<char>, Seq<char>),
    Srandmember(Seq<char>, usize),
    Sismember(Seq<char>, Seq<char>),
    Hget(Seq<char>, Seq<char>),
    Hexists(Seq<char>, Seq<char>),
    Hdel(Seq<char>, Seq<char>),
    SetWith(Seq<char>, Seq<char>, bool, bool, Option<u64>),
    Sadd(Seq<char>, Seq<Seq<char>>),
    Srem(Seq<char>, Seq<Seq<char>>),
    Hset(Seq<char>, Seq<char>, Seq<char>),
    Hmset(Seq<char>, Seq<(Seq<char>, Seq<char>)>),
    Hmget(Seq<char>, Seq<Seq<char>>),
    Del(Seq<Seq<char>>),
}

/// A parse error with its word seen as a character sequence.
pub enum ParseErrorView {
    UnknownCommand,
    NotANumber(Seq<char>),
    InputError,
}

/// How a command is seen in contracts.
pub open spec fn command_view(c: Command) -> CommandView {
    match c {
        Command::Size => CommandView::Size,
        Command::Get(k) => CommandView::Get(k@),
        Command::Spop(k) => CommandView::Spop(k@),
        Command::Slen(k) => CommandView::Slen(k@),
        Command::Smembers(k) => CommandView::Smembers(k@),
        Command::Hkeys(k) => CommandView::Hkeys(k@),
        Command::Hvalues(k) => CommandView::Hvalues(k@),
        Command::Hlen(k) => CommandView::Hlen(k@),
        Command::ContainsKey(k) => CommandView::ContainsKey(k@),
        Command::Sets(k, v) => CommandView::Sets(k@, v@),
        Command::Srandmember(k, n) => CommandView::Srandmember(k@, n),
        Command::Sismember(k, m) => CommandView::Sismember(k@, m@),
        Command::Hget(k, f) => CommandView::Hget(k@, f@),
        Command::Hexists(k, f) => CommandView::Hexists(k@, f@),
        Command::Hdel(k, f) => CommandView::Hdel(k@, f@),
        Command::SetWith(k, v, ne, ae, e) => CommandView::SetWith(k@, v@, ne, ae, e),
        Command::Sadd(k, ms) => CommandView::Sadd(k@, strings_view(ms@)),
        Command::Srem(k, ms) => CommandView::Srem(k@, strings_view(ms@)),
        Command::Hset(k, f, v) => CommandView::Hset(k@, f@, v@),
        Command::Hmset(k, ps) => CommandView::Hmset(k@, pairs_view(ps@)),
        Command::Hmget(k, fs) => CommandView::Hmget(k@, strings_view(fs@)),
        Command::Del(ks) => CommandView::Del(strings_view(ks@)),
    }
}

/// How the outcome of parsing is seen in contracts.
pub open spec fn parse_view(r: Result<Option<Command>, ParseError>) -> Result<
    Option<CommandView>,
    ParseErrorView,
> {
    match r {
        Ok(Some(c)) => Ok(Some(command_view(c))),
        Ok(None) => Ok(None),
        Err(ParseError::UnknownCommand) => Err(ParseErrorView::UnknownCommand),
        Err(ParseError::NotANumber(w)) => Err(ParseErrorView::NotANumber(w@)),
        Err(ParseError::InputError) => Err(ParseErrorView::InputError),
    }
}

/// The field-value pairs written from the third word on.
pub open spec fn word_pairs(w: Seq<Seq<char>>) -> Seq<(Seq<char>, Seq<char>)> {
    Seq::new(((w.len() - 2) / 2) as nat, |j: int| (w[2 + 2 * j], w[3 + 2 * j]))
}

/// What a line of words asks for, by its number of words and its verb (the
/// first word); an empty line asks for nothing.
pub open spec fn parse_words(w: Seq<Seq<char>>) -> Result<Option<CommandView>, ParseErrorView> {
    let unknown = Err(ParseErrorView::UnknownCommand);
    if w.len() == 0 {
        Ok(None)
    } else if w.len() == 1 {
        if w[0] == "size"@ {
            Ok(Some(CommandView::Size))
        } else {
            unknown
        }
    } else if w.len() == 2 {
        let k = w[1];
        if w[0] == "get"@ {
            Ok(Some(CommandView::Get(k)))
        } else if w[0] == "spop"@ {
            Ok(Some(CommandView::Spop(k)))
        } else if w[0] == "slen"@ {
            Ok(Some(CommandView::Slen(k)))
        } else if w[0] == "smembers"@ {
            Ok(Some(CommandView::Smembers(k)))
        } else if w[0] == "hkeys"@ {
            Ok(Some(CommandView::Hkeys(k)))
        } else if w[0] == "hvalues"@ {
            Ok(Some(CommandView::Hvalues(k)))
        } else if w[0] == "hlen"@ {
            Ok(Some(CommandView::Hlen(k)))
        } else if w[0] == "exists"@ {
            Ok(Some(CommandView::ContainsKey(k)))
        } else {
            unknown
        }
    } else if w.len() == 3 {
        let k = w[1];
        let a = w[2];
        if w[0] == "set"@ {
            Ok(Some(CommandView::Sets(k, a)))
        } else if w[0] == "srandmember"@ {
            match decimal_of(a, usize::MAX as nat) {
                Some(n) => Ok(Some(CommandView::Srandmember(k, n as usize))),
                None => Err(ParseErrorView::NotANumber(a)),
            }
        } else if w[0] == "sismember"@ {
            Ok(Some(CommandView::Sismember(k, a)))
        } else if w[0] == "hget"@ {
            Ok(Some(CommandView::Hget(k, a)))
        } else if w[0] == "hexists"@ {
            Ok(Some(CommandView::Hexists(k, a)))
        } else if w[0] == "hdel"@ {
            Ok(Some(CommandView::Hdel(k, a)))
        } else {
            unknown
        }
    } else {
        let k = w[1];
        let rest = w.subrange(2, w.len() as int);
        if w[0] == "set"@ {
            if (w.len() == 5 || w.len() == 6) && bool_of(w[3]) is Some && bool_of(w[4]) is Some {
                let expire = if w.len() == 6 {
                    match decimal_of(w[5], u64::MAX as nat) {
                        Some(n) => Some(n as u64),
                        None => None,
                    }
                } else {
                    None
                };
                Ok(
                    Some(
                        CommandView::SetWith(
                            k,
                            w[2],
                            bool_of(w[3]).unwrap(),
                            bool_of(w[4]).unwrap(),
                            expire,
                        ),
                    ),
                )
            } else {
                Err(ParseErrorView::InputError)
            }
        } else if w[0] == "sadd"@ {
            Ok(Some(CommandView::Sadd(k, rest)))
        } else if w[0] == "srem"@ {
            Ok(Some(CommandView::Srem(k, rest)))
        } else if w[0] == "hset"@ {
            if w.len() == 4 {
                Ok(Some(CommandView::Hset(k, w[2], w[3])))
            } else {
                Err(ParseErrorView::InputError)
            }
        } else if w[0] == "hmset"@ {
            if w.len() % 2 == 0 {
                Ok(Some(CommandView::Hmset(k, word_pairs(w))))
            } else {
                Err(ParseErrorView::InputError)
            }
        } else if w[0] == "hmget"@ {
            Ok(Some(CommandView::Hmget(k, rest)))
        } else if w[0] == "del"@ {
            Ok(Some(CommandView::Del(w.subrange(1, w.len() as int))))
        } else {
            unknown
        }
    }
}

/// The words of `words` from `from` on.
fn words_from(words: &Vec<String>, from: usize) -> (r: Vec<String>)
    requires
        from <= words@.len(),
    ensures
        strings_view(r@) == strings_view(words@).subrange(from as int, words@.len() as int),
{
    let mut r: Vec<String> = Vec::new();
    let mut i: usize = from;
    while i < words.len()
        invariant
            from <= i <= words@.len(),
            r@.len() == i - from,
            forall|j: int| 0 <= j < r@.len() ==> (#[trigger] r@[j])@ == words@[j + from]@,
        decreases words@.len() - i,
    {
        r.push(words[i].clone());
        i = i + 1;
    }
    assert(strings_view(r@) =~= strings_view(words@).subrange(from as int, words@.len() as int));
    r
}

/// The field-value pairs written from the third word on.
fn pairs_from(words: &Vec<String>) -> (r: Vec<(String, String)>)
    requires
        words@.len() >= 2,
        words@.len() % 2 == 0,
    ensures
        pairs_view(r@) == word_pairs(strings_view(words@)),
{
    let total = words.len();
    let n = (total - 2) / 2;
    assert(2 * n + 2 == total);
    let mut r: Vec<(String, String)> = Vec::new();
    let mut j: usize = 0;
    while j < n
        invariant
            n == (words@.len() - 2) / 2,
            2 * n + 2 == total,
            total == words@.len(),
            words@.len() >= 2,
            words@.len() % 2 == 0,
            j <= n,
            r@.len() == j,
            forall|a: int|
                0 <= a < j ==> (#[trigger] r@[a]).0@ == words@[2 + 2 * a]@ && r@[a].1@
                    == words@[3 + 2 * a]@,
        decreases n - j,
    {
        let f = words[2 + 2 * j].clone();
        let v = words[3 + 2 * j].clone();
        r.push((f, v));
        j = j + 1;
    }
    assert(pairs_view(r@) =~= word_pairs(strings_view(words@)));
    r
}

/// What a line of words asks for; see [`parse_words`].
pub fn parse_command(words: &Vec<String>) -> (r: Result<Option<Command>, ParseError>)
    ensures
        parse_view(r) == parse_words(strings_view(words@)),
{
    let ghost w = strings_view(words@);
    let n = words.len();
    if n == 0 {
        return Ok(None);
    }
    let verb = words[0].as_str();
    assert(verb@ == w[0]);
    if n == 1 {
        if str_eq(verb, "size") {
            return Ok(Some(Command::Size));
        }
        return Err(ParseError::UnknownCommand);
    }
    let key = words[1].clone();
    assert(key@ == w[1]);
    if n == 2 {
        if str_eq(verb, "get") {
            Ok(Some(Command::Get(key)))
        } else if str_eq(verb, "spop") {
            Ok(Some(Command::Spop(key)))
        } else if str_eq(verb, "slen") {
            Ok(Some(Command::Slen(key)))
        } else if str_eq(verb, "smembers") {
            Ok(Some(Command::Smembers(key)))
        } else if str_eq(verb, "hkeys") {
            Ok(Some(Command::Hkeys(key)))
        } else if str_eq(verb, "hvalues") {
            Ok(Some(Command::Hvalues(key)))
        } else if str_eq(verb, "hlen") {
            Ok(Some(Command::Hlen(key)))
        } else if str_eq(verb, "exists") {
            Ok(Some(Command::ContainsKey(key)))
        } else {
            Err(ParseError::UnknownCommand)
        }
    } else if n == 3 {
        let arg = words[2].clone();
        assert(arg@ == w[2]);
        if str_eq(verb, "set") {
            Ok(Some(Command::Sets(key, arg)))
        } else if str_eq(verb, "srandmember") {
            match parse_decimal(arg.as_str(), usize::MAX as u64) {
                Some(count) => Ok(Some(Command::Srandmember(key, count as usize))),
                None => Err(ParseError::NotANumber(arg)),
            }
        } else if str_eq(verb, "sismember") {
            Ok(Some(Command::Sismember(key, arg)))
        } else if str_eq(verb, "hget") {
            Ok(Some(Command::Hget(key, arg)))
        } else if str_eq(verb, "hexists") {
            Ok(Some(Command::Hexists(key, arg)))
        } else if str_eq(verb, "hdel") {
            Ok(Some(Command::Hdel(key, arg)))
        } else {
            Err(ParseError::UnknownCommand)
        }
    } else if str_eq(verb, "set") {
        if n == 5 || n == 6 {
            let not_exists = parse_bool(words[3].as_str());
            let already_exists = parse_bool(words[4].as_str());
            match (not_exists, already_exists) {
                (Ok(ne), Ok(ae)) => {
                    let expire = if n == 6 {
                        parse_decimal(words[5].as_str(), u64::MAX)
                    } else {
                        None
                    };
                    let value = words[2].clone();
                    Ok(Some(Command::SetWith(key, value, ne, ae, expire)))
                },
                _ => Err(ParseError::InputError),
            }
        } else {
            Err(ParseError::InputError)
        }
    } else if str_eq(verb, "sadd") {
        Ok(Some(Command::Sadd(key, words_from(words, 2))))
    } else if str_eq(verb, "srem") {
        Ok(Some(Command::Srem(key, words_from(words, 2))))
    } else if str_eq(verb, "hset") {
        if n == 4 {
            Ok(Some(Command::Hset(key, words[2].clone(), words[3].clone())))
        } else {
            Err(ParseError::InputError)
        }
    } else if str_eq(verb, "hmset") {
        if n % 2 == 0 {
            Ok(Some(Command::Hmset(key, pairs_from(words))))
        } else {
            Err(ParseError::InputError)
        }
    } else if str_eq(verb, "hmget") {
        Ok(Some(Command::Hmget(key, words_from(words, 2))))
    } else if str_eq(verb, "del") {
        Ok(Some(Command::Del(words_from(words, 1))))
    } else {
        Err(ParseError::UnknownCommand)
    }
}

/// The characters with the Unicode White_Space property.
pub open spec fn is_white_space(c: char) -> bool {
    let u = c as u32;
    (0x09 <= u && u <= 0x0d) || u == 0x20 || u == 0x85 || u == 0xa0 || u == 0x1680 || (0x2000
        <= u && u <= 0x200a) || u == 0x2028 || u == 0x2029 || u == 0x202f || u == 0x205f || u
        == 0x3000
}

/// The words of `line`, in order.
pub uninterp spec fn words_of(line: Seq<char>) -> Seq<Seq<char>>;

/// Relies on `str::split_whitespace`: the maximal runs of characters of
/// `line` that are not Unicode white space, in order; so each word is
/// non-empty and holds no white space, and a line of white space alone has
/// no words.
#[verifier::external_body]
fn split_words(line: &str) -> (r: Vec<String>)
    ensures
        strings_view(r@) == words_of(line@),
        forall|i: int| 0 <= i < r@.len() ==> (#[trigger] r@[i])@.len() > 0,
        forall|i: int, j: int|
            0 <= i < r@.len() && 0 <= j < r@[i]@.len() ==> !is_white_space(#[trigger] r@[i]@[j]),
        (forall|j: int| 0 <= j < line@.len() ==> is_white_space(#[trigger] line@[j])) ==> r@.len()
            == 0,
{
    line.split_whitespace().map(String::from).collect()
}

/// What a line of input asks for: its words are read as by
/// [`parse_command`].
pub fn parse_line(line: &str) -> (r: Result<Option<Command>, ParseError>)
    ensures
        parse_view(r) == parse_words(words_of(line@)),
        (forall|j: int| 0 <= j < line@.len() ==> is_white_space(#[trigger] line@[j])) ==> r
            == Ok::<Option<Command>, ParseError>(None),
{
    let words = split_words(line);
    parse_command(&words)
}

} // verus!
