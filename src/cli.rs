//! Help for the interactive front end: the command templates it offers as
//! hints, and its start-up options.
use vstd::prelude::*;

use crate::model::strings_view;

verus! {

/// The key budget of a store started without another one.
pub const DEFAULT_DB_KEY_SIZE: usize = 256;

/// Start-up options of the front end: the key budget of its store and how
/// verbose it is.
pub struct BootstrapOpts {
    pub keys: usize,
    pub verbose: i32,
}

/// The command templates, one line each.
pub open spec fn hint_lines() -> Seq<Seq<char>> {
    seq![
        "help"@,
        "get key"@,
        "set key value"@,
        "set key value expire not_exists already_exists"@,
        "sadd key member [member ...]"@,
        "srandmember key count"@,
        "spop key"@,
        "sismember key member"@,
        "srem key member [member ...]"@,
        "slen key"@,
        "smembers key"@,
        "hget key field"@,
        "hset key field value"@,
        "hmset key field value [field value ...]"@,
        "hmget key field [field ...]"@,
        "hkeys key"@,
        "hvalues key"@,
        "hexists key field"@,
        "hlen key"@,
        "hdel key field"@,
        "del key [key ...]"@,
        "exists key"@,
        "size"@,
    ]
}

/// The command templates.
pub fn cmd_hints() -> (r: Vec<String>)
    ensures
        strings_view(r@) == hint_lines(),
{
    let r: Vec<String> = vec![
        "help".to_owned(),
        "get key".to_owned(),
        "set key value".to_owned(),
        "set key value expire not_exists already_exists".to_owned(),
        "sadd key member [member ...]".to_owned(),
        "srandmember key count".to_owned(),
        "spop key".to_owned(),
        "sismember key member".to_owned(),
        "srem key member [member ...]".to_owned(),
        "slen key".to_owned(),
        "smembers key".to_owned(),
        "hget key field".to_owned(),
        "hset key field value".to_owned(),
        "hmset key field value [field value ...]".to_owned(),
        "hmget key field [field ...]".to_owned(),
        "hkeys key".to_owned(),
        "hvalues key".to_owned(),
        "hexists key field".to_owned(),
        "hlen key".to_owned(),
        "hdel key field".to_owned(),
        "del key [key ...]".to_owned(),
        "exists key".to_owned(),
        "size".to_owned(),
    ];
    assert(strings_view(r@) =~= hint_lines());
    r
}

/// `line` is a non-empty prefix of `template` that ends with a space.
pub open spec fn completes(template: Seq<char>, line: Seq<char>) -> bool {
    &&& line.len() > 0
    &&& line.last() == ' '
    &&& line.len() <= template.len()
    &&& template.subrange(0, line.len() as int) == line
}

/// The rest of the first template that `line` completes.
pub open spec fn first_completion(templates: Seq<Seq<char>>, line: Seq<char>) -> Option<Seq<char>>
    decreases templates.len(),
{
    if templates.len() == 0 {
        None
    } else if completes(templates[0], line) {
        Some(templates[0].subrange(line.len() as int, templates[0].len() as int))
    } else {
        first_completion(templates.drop_first(), line)
    }
}

/// Offers the command templates as hints while a line is typed.
pub struct CmdHelper {
    hints: Vec<String>,
}

impl View for CmdHelper {
    type V = Seq<Seq<char>>;

    closed spec fn view(&self) -> Seq<Seq<char>> {
        strings_view(self.hints@)
    }
}

/// Whether `line` completes `template`.
fn completes_exec(template: &str, line: &str) -> (r: bool)
    ensures
        r == completes(template@, line@),
{
    let n = line.unicode_len();
    if n == 0 || line.get_char(n - 1) != ' ' || n > template.unicode_len() {
        return false;
    }
    let mut i: usize = 0;
    while i < n
        invariant
            n == line@.len(),
            n <= template@.len(),
            i <= n,
            forall|j: int| 0 <= j < i ==> template@[j] == line@[j],
        decreases n - i,
    {
        if template.get_char(i) != line.get_char(i) {
            assert(template@.subrange(0, n as int)[i as int] != line@[i as int]);
            return false;
        }
        i = i + 1;
    }
    assert(template@.subrange(0, n as int) =~= line@);
    true
}

impl CmdHelper {
    /// A helper that offers the templates of [`cmd_hints`].
    pub fn new() -> (r: Self)
        ensures
            r@ == hint_lines(),
    {
        CmdHelper { hints: cmd_hints() }
    }

    /// The templates, in the order in which hints are looked for.
    pub fn hints(&self) -> (r: &Vec<String>)
        ensures
            strings_view(r@) == self@,
    {
        &self.hints
    }

    /// The hint for `line` with the cursor at byte `pos`: none unless the
    /// cursor is at the end of the line; else what remains of the first
    /// template that the line, ending with a space, begins.
    pub fn hint(&self, line: &str, pos: usize) -> (r: Option<String>)
        ensures
            match r {
                Some(s) => pos >= line.len() && first_completion(self@, line@) == Some(
                    s@,
                ),
                None => pos < line.len() || first_completion(self@, line@) is None,
            },
    {
        if pos < line.len() {
            return None;
        }
        let n = line.unicode_len();
        let mut i: usize = 0;
        assert(self@.subrange(0, self@.len() as int) =~= self@);
        while i < self.hints.len()
            invariant
                i <= self.hints@.len(),
                n == line@.len(),
                pos >= line.len(),
                first_completion(self@, line@) == first_completion(
                    self@.subrange(i as int, self@.len() as int),
                    line@,
                ),
            decreases self.hints@.len() - i,
        {
            let template = self.hints[i].as_str();
            let ghost rest = self@.subrange(i as int, self@.len() as int);
            assert(rest[0] == template@);
            assert(rest.drop_first() =~= self@.subrange(i + 1, self@.len() as int));
            if completes_exec(template, line) {
                let tail = template.substring_char(n, template.unicode_len());
                assert(first_completion(rest, line@) == Some(
                    template@.subrange(n as int, template@.len() as int),
                ));
                return Some(tail.to_owned());
            }
            i = i + 1;
        }
        None
    }
}

} // verus!
