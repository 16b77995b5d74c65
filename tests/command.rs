use dbcore::cli::{cmd_hints, CmdHelper};
use dbcore::DEFAULT_DB_KEY_SIZE;
use dbcore::command::{parse_command, parse_line, Command, ParseError};
use dbcore::text::{parse_bool, parse_decimal, str_eq};
use dbcore::DBError;

fn s(x: &str) -> String {
    String::from(x)
}

fn words(xs: &[&str]) -> Vec<String> {
    xs.iter().map(|x| String::from(*x)).collect()
}

#[test]
fn parse_bool_reads_true_and_false() {
    assert_eq!(Ok(true), parse_bool("true"));
    assert_eq!(Ok(false), parse_bool("false"));
    assert_eq!(Err(DBError::WrongValueType), parse_bool("yes"));
    assert_eq!(Err(DBError::WrongValueType), parse_bool("True"));
    assert_eq!(Err(DBError::WrongValueType), parse_bool(""));
}

#[test]
fn parse_decimal_reads_digits() {
    assert_eq!(Some(42), parse_decimal("42", u64::MAX));
    assert_eq!(Some(7), parse_decimal("+7", u64::MAX));
    assert_eq!(Some(0), parse_decimal("000", u64::MAX));
    assert_eq!(None, parse_decimal("", u64::MAX));
    assert_eq!(None, parse_decimal("+", u64::MAX));
    assert_eq!(None, parse_decimal("-1", u64::MAX));
    assert_eq!(None, parse_decimal("4a", u64::MAX));
    assert_eq!(None, parse_decimal(" 4", u64::MAX));
    assert_eq!(
        Some(u64::MAX),
        parse_decimal("18446744073709551615", u64::MAX)
    );
    assert_eq!(None, parse_decimal("18446744073709551616", u64::MAX));
    assert_eq!(Some(255), parse_decimal("255", 255));
    assert_eq!(None, parse_decimal("256", 255));
}

#[test]
fn str_eq_compares_characters() {
    assert!(str_eq("abc", "abc"));
    assert!(str_eq("", ""));
    assert!(!str_eq("abc", "abd"));
    assert!(!str_eq("abc", "ab"));
    assert!(str_eq("日本", "日本"));
}

#[test]
fn parse_line_splits_on_white_space() {
    assert_eq!(Ok(Some(Command::Get(s("key")))), parse_line("  get \t key  "));
    assert_eq!(Ok(Some(Command::Size)), parse_line("size"));
    assert_eq!(Ok(None), parse_line("   "));
    assert_eq!(Ok(None), parse_line(""));
}

#[test]
fn parse_line_reads_each_verb() {
    assert_eq!(Ok(Some(Command::Spop(s("k")))), parse_line("spop k"));
    assert_eq!(Ok(Some(Command::Slen(s("k")))), parse_line("slen k"));
    assert_eq!(Ok(Some(Command::Smembers(s("k")))), parse_line("smembers k"));
    assert_eq!(Ok(Some(Command::Hkeys(s("k")))), parse_line("hkeys k"));
    assert_eq!(Ok(Some(Command::Hvalues(s("k")))), parse_line("hvalues k"));
    assert_eq!(Ok(Some(Command::Hlen(s("k")))), parse_line("hlen k"));
    assert_eq!(Ok(Some(Command::ContainsKey(s("k")))), parse_line("exists k"));
    assert_eq!(Ok(Some(Command::Sets(s("k"), s("v")))), parse_line("set k v"));
    assert_eq!(
        Ok(Some(Command::Srandmember(s("k"), 2))),
        parse_line("srandmember k 2")
    );
    assert_eq!(
        Ok(Some(Command::Sismember(s("k"), s("m")))),
        parse_line("sismember k m")
    );
    assert_eq!(Ok(Some(Command::Hget(s("k"), s("f")))), parse_line("hget k f"));
    assert_eq!(
        Ok(Some(Command::Hexists(s("k"), s("f")))),
        parse_line("hexists k f")
    );
    assert_eq!(Ok(Some(Command::Hdel(s("k"), s("f")))), parse_line("hdel k f"));
    assert_eq!(
        Ok(Some(Command::Sadd(s("k"), words(&["a", "b"])))),
        parse_line("sadd k a b")
    );
    assert_eq!(
        Ok(Some(Command::Srem(s("k"), words(&["a", "b"])))),
        parse_line("srem k a b")
    );
    assert_eq!(
        Ok(Some(Command::Hset(s("k"), s("f"), s("v")))),
        parse_line("hset k f v")
    );
    assert_eq!(
        Ok(Some(Command::Hmset(
            s("k"),
            vec![(s("a"), s("1")), (s("b"), s("2"))]
        ))),
        parse_line("hmset k a 1 b 2")
    );
    assert_eq!(
        Ok(Some(Command::Hmget(s("k"), words(&["a", "b"])))),
        parse_line("hmget k a b")
    );
    assert_eq!(
        Ok(Some(Command::Del(words(&["a", "b", "c"])))),
        parse_line("del a b c")
    );
}

#[test]
fn parse_line_reads_conditional_set() {
    assert_eq!(
        Ok(Some(Command::SetWith(s("k"), s("v"), true, false, Some(10)))),
        parse_line("set k v true false 10")
    );
    assert_eq!(
        Ok(Some(Command::SetWith(s("k"), s("v"), false, true, None))),
        parse_line("set k v false true")
    );
    assert_eq!(
        Ok(Some(Command::SetWith(s("k"), s("v"), false, false, None))),
        parse_line("set k v false false soon")
    );
    assert_eq!(Err(ParseError::InputError), parse_line("set k v true"));
    assert_eq!(Err(ParseError::InputError), parse_line("set k v maybe false"));
    assert_eq!(
        Err(ParseError::InputError),
        parse_line("set k v true false 1 2")
    );
}

#[test]
fn parse_line_reports_errors() {
    assert_eq!(Err(ParseError::UnknownCommand), parse_line("frob"));
    assert_eq!(Err(ParseError::UnknownCommand), parse_line("size k"));
    assert_eq!(Err(ParseError::UnknownCommand), parse_line("frob k v"));
    assert_eq!(Err(ParseError::UnknownCommand), parse_line("frob k v w"));
    assert_eq!(
        Err(ParseError::NotANumber(s("two"))),
        parse_line("srandmember k two")
    );
    assert_eq!(Err(ParseError::InputError), parse_line("hset k f v w"));
    assert_eq!(Err(ParseError::InputError), parse_line("hmset k a 1 b"));
}

#[test]
fn parse_command_takes_words() {
    assert_eq!(Ok(None), parse_command(&vec![]));
    assert_eq!(
        Ok(Some(Command::Get(s("two words")))),
        parse_command(&words(&["get", "two words"]))
    );
    assert_eq!(
        Err(ParseError::UnknownCommand),
        parse_command(&words(&["get k"]))
    );
}

#[test]
fn cmd_hints_lists_every_verb() {
    let hints = cmd_hints();
    assert_eq!(23, hints.len());
    assert_eq!(s("help"), hints[0]);
    assert!(hints.contains(&s("hmset key field value [field value ...]")));
    assert_eq!(s("size"), hints[22]);
    assert_eq!(
        s("set key value expire not_exists already_exists"),
        hints[3]
    );
    assert_eq!(256, DEFAULT_DB_KEY_SIZE);
}

#[test]
fn hint_completes_typed_verb() {
    let helper = CmdHelper::new();
    assert_eq!(&cmd_hints(), helper.hints());
    assert_eq!(Some(s("key")), helper.hint("get ", 4));
    assert_eq!(Some(s("key value")), helper.hint("set ", 4));
    assert_eq!(
        Some(s("field value [field value ...]")),
        helper.hint("hmset key ", 10)
    );
    assert_eq!(None, helper.hint("get", 3));
    assert_eq!(None, helper.hint("get ", 2));
    assert_eq!(None, helper.hint("zzz ", 4));
    assert_eq!(None, helper.hint("", 0));
    assert_eq!(None, helper.hint("get key ", 8));
}
