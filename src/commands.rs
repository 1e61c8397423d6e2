//! The shell's command language: splitting a command line into a command and its
//! arguments, and reading the arguments of `list`, `edit` and `rename`.
use vstd::prelude::*;
use vstd::string::StringExecFns;
use crate::keyorder::key_cmp;
use crate::store::EditOp;

verus! {

/// The characters with Unicode's White_Space property.
pub open spec fn is_ws(c: char) -> bool {
    let u = c as u32;
    (9 <= u <= 13) || u == 32 || u == 0x85 || u == 0xA0 || u == 0x1680 || (0x2000 <= u <= 0x200A)
        || u == 0x2028 || u == 0x2029 || u == 0x202F || u == 0x205F || u == 0x3000
}

pub fn is_white_space(c: char) -> (r: bool)
    ensures
        r == is_ws(c),
{
    let u = c as u32;
    (9 <= u && u <= 13) || u == 32 || u == 0x85 || u == 0xA0 || u == 0x1680 || (0x2000 <= u && u <= 0x200A)
        || u == 0x2028 || u == 0x2029 || u == 0x202F || u == 0x205F || u == 0x3000
}

/// `s` without its leading white space.
pub open spec fn trim_start_spec(s: Seq<char>) -> Seq<char>
    decreases s.len(),
{
    if s.len() > 0 && is_ws(s[0]) {
        trim_start_spec(s.drop_first())
    } else {
        s
    }
}

/// `s` without its trailing white space.
pub open spec fn trim_end_spec(s: Seq<char>) -> Seq<char>
    decreases s.len(),
{
    if s.len() > 0 && is_ws(s.last()) {
        trim_end_spec(s.drop_last())
    } else {
        s
    }
}

pub open spec fn trim_spec(s: Seq<char>) -> Seq<char> {
    trim_end_spec(trim_start_spec(s))
}

/// `s` without leading and trailing white space.
pub fn trim(s: &str) -> (r: &str)
    ensures
        r@ == trim_spec(s@),
{
    let n = s.unicode_len();
    let mut a: usize = 0;
    assert(s@.subrange(0, n as int) =~= s@);
    while a < n && is_white_space(s.get_char(a))
        invariant
            a <= n,
            n == s@.len(),
            trim_start_spec(s@) == trim_start_spec(s@.subrange(a as int, n as int)),
        decreases n - a,
    {
        assert(s@.subrange(a as int, n as int).drop_first() =~= s@.subrange(a + 1, n as int));
        a = a + 1;
    }
    let mut b: usize = n;
    while b > a && is_white_space(s.get_char(b - 1))
        invariant
            a <= b <= n,
            n == s@.len(),
            trim_end_spec(s@.subrange(a as int, n as int)) == trim_end_spec(s@.subrange(a as int, b as int)),
            trim_start_spec(s@) == s@.subrange(a as int, n as int),
        decreases b,
    {
        assert(s@.subrange(a as int, b as int).drop_last() =~= s@.subrange(a as int, b - 1));
        b = b - 1;
    }
    s.substring_char(a, b)
}

/// Where the command word of `s` ends: at its first space, or at its end.
pub open spec fn cmd_end(s: Seq<char>) -> int
    decreases s.len(),
{
    if s.len() == 0 || s[0] == ' ' {
        0
    } else {
        1 + cmd_end(s.drop_first())
    }
}

proof fn lemma_cmd_end_bound(s: Seq<char>)
    ensures
        0 <= cmd_end(s) <= s.len(),
    decreases s.len(),
{
    if s.len() > 0 && s[0] != ' ' {
        lemma_cmd_end_bound(s.drop_first());
    }
}

/// Splits a command line at its first space into the command and the rest, trimmed.
pub fn parse_cmd_line(cmd_line: &str) -> (r: (&str, &str))
    ensures
        r.0@ == cmd_line@.subrange(0, cmd_end(cmd_line@)),
        r.1@ == trim_spec(
            cmd_line@.subrange(
                if cmd_end(cmd_line@) < cmd_line@.len() { cmd_end(cmd_line@) + 1 } else { cmd_line@.len() as int },
                cmd_line@.len() as int,
            ),
        ),
{
    let n = cmd_line.unicode_len();
    let mut i: usize = 0;
    proof {
        assert(cmd_line@.subrange(0, n as int) =~= cmd_line@);
    }
    while i < n && cmd_line.get_char(i) != ' '
        invariant
            i <= n,
            n == cmd_line@.len(),
            cmd_end(cmd_line@) == i + cmd_end(cmd_line@.subrange(i as int, n as int)),
        decreases n - i,
    {
        assert(cmd_line@.subrange(i as int, n as int).drop_first() =~= cmd_line@.subrange(i + 1, n as int));
        i = i + 1;
    }
    let cmd = cmd_line.substring_char(0, i);
    let from: usize = if i < n { i + 1 } else { n };
    let rest = trim(cmd_line.substring_char(from, n));
    (cmd, rest)
}

/// The words of `s` read from position `i` on, where the current word began at `start`
/// (`start == i` when no word is under way) and `acc` holds the words before it.
pub open spec fn words_from(s: Seq<char>, i: int, start: int, acc: Seq<Seq<char>>) -> Seq<Seq<char>>
    decreases s.len() - i,
{
    if i >= s.len() {
        if start < i { acc.push(s.subrange(start, i)) } else { acc }
    } else if is_ws(s[i]) {
        words_from(s, i + 1, i + 1, if start < i { acc.push(s.subrange(start, i)) } else { acc })
    } else {
        words_from(s, i + 1, start, acc)
    }
}

/// The maximal runs of characters other than white space in `s`, in order.
pub open spec fn words_spec(s: Seq<char>) -> Seq<Seq<char>> {
    words_from(s, 0, 0, Seq::empty())
}

pub open spec fn views(v: Seq<String>) -> Seq<Seq<char>> {
    v.map_values(|w: String| w@)
}

/// The words of `s`, separated by white space.
pub fn split_words(s: &str) -> (r: Vec<String>)
    ensures
        views(r@) == words_spec(s@),
{
    let n = s.unicode_len();
    let mut r: Vec<String> = Vec::new();
    let mut i: usize = 0;
    let mut start: usize = 0;
    assert(views(r@) =~= Seq::<Seq<char>>::empty());
    while i < n
        invariant
            start <= i <= n,
            n == s@.len(),
            words_spec(s@) == words_from(s@, i as int, start as int, views(r@)),
        decreases n - i,
    {
        if is_white_space(s.get_char(i)) {
            if start < i {
                let w = String::from_str(s.substring_char(start, i));
                let ghost before = r@;
                r.push(w);
                assert(views(r@) =~= views(before).push(s@.subrange(start as int, i as int)));
            }
            i = i + 1;
            start = i;
        } else {
            i = i + 1;
        }
    }
    if start < i {
        let w = String::from_str(s.substring_char(start, i));
        let ghost before = r@;
        r.push(w);
        assert(views(r@) =~= views(before).push(s@.subrange(start as int, i as int)));
    }
    r
}

/// The value of a run of decimal digits.
pub open spec fn digits_value(d: Seq<char>) -> int
    decreases d.len(),
{
    if d.len() == 0 {
        0
    } else {
        digits_value(d.drop_last()) * 10 + (d.last() as u32 - 48)
    }
}

pub open spec fn is_digit(c: char) -> bool {
    48 <= c as u32 <= 57
}

/// The text after an optional leading `+`.
pub open spec fn unsigned_digits(s: Seq<char>) -> Seq<char> {
    if s.len() > 0 && s[0] == '+' { s.drop_first() } else { s }
}

pub open spec fn all_digits(d: Seq<char>) -> bool {
    forall|i: int| 0 <= i < d.len() ==> is_digit(#[trigger] d[i])
}

/// What `usize::from_str` reads from `s`: an optional `+`, then at least one decimal
/// digit, of a value that fits in `usize`.
pub open spec fn usize_text(s: Seq<char>) -> Option<usize> {
    let d = unsigned_digits(s);
    if d.len() > 0 && all_digits(d) && digits_value(d) <= usize::MAX {
        Some(digits_value(d) as usize)
    } else {
        None
    }
}

proof fn lemma_digits_grow(d: Seq<char>, k: int)
    requires
        0 <= k <= d.len(),
        forall|i: int| 0 <= i < d.len() ==> is_digit(#[trigger] d[i]),
    ensures
        digits_value(d.subrange(0, k)) <= digits_value(d),
        0 <= digits_value(d.subrange(0, k)),
    decreases d.len() - k,
{
    if k < d.len() {
        lemma_digits_grow(d, k + 1);
        assert(d.subrange(0, k + 1).drop_last() =~= d.subrange(0, k));
        lemma_digits_nonneg(d.subrange(0, k));
    } else {
        assert(d.subrange(0, k) =~= d);
        lemma_digits_nonneg(d);
    }
}

proof fn lemma_digits_nonneg(d: Seq<char>)
    requires
        forall|i: int| 0 <= i < d.len() ==> is_digit(#[trigger] d[i]),
    ensures
        0 <= digits_value(d),
    decreases d.len(),
{
    if d.len() > 0 {
        lemma_digits_nonneg(d.drop_last());
    }
}

proof fn lemma_no_usize_text(s: Seq<char>)
    requires
        !all_digits(unsigned_digits(s)) || digits_value(unsigned_digits(s)) > usize::MAX,
    ensures
        usize_text(s) is None,
{
}

/// Reads a `usize` written in decimal, as `usize::from_str` does.
pub fn parse_usize(s: &str) -> (r: Option<usize>)
    ensures
        r == usize_text(s@),
{
    let n = s.unicode_len();
    let first: usize = if n > 0 && s.get_char(0) == '+' { 1 } else { 0 };
    let ghost d = unsigned_digits(s@);
    assert(d =~= s@.subrange(first as int, n as int));
    if first == n {
        return None;
    }
    let mut acc: usize = 0;
    let mut i: usize = first;
    assert(d.subrange(0, 0) =~= Seq::<char>::empty());
    while i < n
        invariant
            first <= i <= n,
            n == s@.len(),
            d == s@.subrange(first as int, n as int),
            d == unsigned_digits(s@),
            acc == digits_value(d.subrange(0, i - first)),
            forall|j: int| 0 <= j < i - first ==> is_digit(#[trigger] d[j]),
        decreases n - i,
    {
        let c = s.get_char(i);
        let u = c as u32;
        if u < 48 || u > 57 {
            proof {
                let k = i - first;
                assert(d[k as int] == s@[i as int]);
                assert(!is_digit(d[k as int]));
                assert(!all_digits(d));
                lemma_no_usize_text(s@);
            }
            return None;
        }
        let digit = (u - 48) as usize;
        let k = i - first;
        assert(d[k as int] == c);
        assert(d.subrange(0, k + 1).drop_last() =~= d.subrange(0, k as int));
        assert(d.subrange(0, k + 1).last() == c);
        match acc.checked_mul(10) {
            None => {
                proof {
                    if all_digits(d) {
                        lemma_digits_grow(d, k + 1);
                        lemma_digits_nonneg(d.subrange(0, k as int));
                        assert(digits_value(d.subrange(0, k + 1)) == acc * 10 + digit);
                        assert(acc * 10 > usize::MAX);
                        assert(digits_value(d) > usize::MAX);
                    }
                    lemma_no_usize_text(s@);
                }
                return None;
            },
            Some(t) => match t.checked_add(digit) {
                None => {
                    proof {
                        if all_digits(d) {
                            lemma_digits_grow(d, k + 1);
                            assert(digits_value(d.subrange(0, k + 1)) == t + digit);
                        }
                        lemma_no_usize_text(s@);
                    }
                    return None;
                },
                Some(v) => {
                    acc = v;
                },
            },
        }
        i = i + 1;
    }
    assert(d.subrange(0, i - first) =~= d);
    Some(acc)
}

/// The shell's commands.
#[derive(Clone, Copy, Debug, PartialEq, Eq, Structural)]
pub enum Command {
    Help,
    Quit,
    Add,
    Get,
    List,
    Find,
    Del,
    Dump,
    Import,
    Rename,
    Edit,
}

/// The command that a command word names.
pub open spec fn command_spec(name: Seq<char>) -> Option<Command> {
    if name == "help"@ {
        Some(Command::Help)
    } else if name == "quit"@ {
        Some(Command::Quit)
    } else if name == "add"@ {
        Some(Command::Add)
    } else if name == "get"@ {
        Some(Command::Get)
    } else if name == "list"@ {
        Some(Command::List)
    } else if name == "find"@ {
        Some(Command::Find)
    } else if name == "del"@ {
        Some(Command::Del)
    } else if name == "dump"@ {
        Some(Command::Dump)
    } else if name == "import"@ {
        Some(Command::Import)
    } else if name == "rename"@ {
        Some(Command::Rename)
    } else if name == "edit"@ {
        Some(Command::Edit)
    } else {
        None
    }
}

impl Command {
    pub fn from_name(name: &str) -> (r: Option<Command>)
        ensures
            r == command_spec(name@),
    {
        if key_cmp(name, "help") == 0 {
            Some(Command::Help)
        } else if key_cmp(name, "quit") == 0 {
            Some(Command::Quit)
        } else if key_cmp(name, "add") == 0 {
            Some(Command::Add)
        } else if key_cmp(name, "get") == 0 {
            Some(Command::Get)
        } else if key_cmp(name, "list") == 0 {
            Some(Command::List)
        } else if key_cmp(name, "find") == 0 {
            Some(Command::Find)
        } else if key_cmp(name, "del") == 0 {
            Some(Command::Del)
        } else if key_cmp(name, "dump") == 0 {
            Some(Command::Dump)
        } else if key_cmp(name, "import") == 0 {
            Some(Command::Import)
        } else if key_cmp(name, "rename") == 0 {
            Some(Command::Rename)
        } else if key_cmp(name, "edit") == 0 {
            Some(Command::Edit)
        } else {
            None
        }
    }
}

/// What `list` shows: every key, or the most recently changed ones (ten unless a count is given).
#[derive(Clone, Copy, Debug, PartialEq, Eq, Structural)]
pub enum ListCmd {
    AllKeys,
    Recent(Option<usize>),
}

pub open spec fn list_cmd_spec(ws: Seq<Seq<char>>) -> Option<ListCmd> {
    if ws.len() == 0 {
        Some(ListCmd::AllKeys)
    } else if ws.len() == 1 && ws[0] == "recent"@ {
        Some(ListCmd::Recent(None))
    } else if ws.len() == 2 && ws[0] == "recent"@ {
        match usize_text(ws[1]) {
            Some(c) => Some(ListCmd::Recent(Some(c))),
            None => None,
        }
    } else {
        None
    }
}

impl ListCmd {
    /// Reads the arguments of `list`: nothing, `recent`, or `recent <count>`.
    pub fn parse(args_line: &str) -> (r: Option<ListCmd>)
        ensures
            r == list_cmd_spec(words_spec(args_line@)),
    {
        let args = split_words(args_line);
        proof {
            assert(views(args@).len() == args@.len());
        }
        if args.len() == 0 {
            Some(ListCmd::AllKeys)
        } else if args.len() == 1 && key_cmp(args[0].as_str(), "recent") == 0 {
            Some(ListCmd::Recent(None))
        } else if args.len() == 2 && key_cmp(args[0].as_str(), "recent") == 0 {
            proof {
                assert(views(args@)[1] == args@[1]@);
            }
            match parse_usize(args[1].as_str()) {
                Some(c) => Some(ListCmd::Recent(Some(c))),
                None => None,
            }
        } else {
            proof {
                if args@.len() == 1 || args@.len() == 2 {
                    assert(views(args@)[0] == args@[0]@);
                }
            }
            None
        }
    }
}

/// An argument of `edit` that the user is asked for when the command line lacks it.
#[derive(Clone, Copy, Debug, PartialEq, Eq, Structural)]
pub enum EditField {
    Key,
    Operation,
    Subkey,
    Value,
    NewSubkey,
}

/// An attribute edit of one record.
pub struct EditCmd {
    pub key: String,
    pub op: EditOp,
}

/// Where reading the arguments of `edit` stands.
pub enum EditStep {
    /// One more argument is needed.
    Ask(EditField),
    Ready(EditCmd),
    /// The arguments name no edit: an empty answer or an unknown operation.
    Invalid,
}

pub open spec fn edit_verb(w: Seq<char>) -> bool {
    w == "del"@ || w == "add"@ || w == "update"@ || w == "rename"@
}

/// What the arguments `ws` of `edit` still lack: `Some(Some(f))` asks for `f`,
/// `Some(None)` means they are complete, `None` that they name no edit.
pub open spec fn edit_need(ws: Seq<Seq<char>>) -> Option<Option<EditField>> {
    if ws.len() == 0 {
        Some(Some(EditField::Key))
    } else if ws[0].len() == 0 {
        None
    } else if ws.len() == 1 {
        Some(Some(EditField::Operation))
    } else if !edit_verb(ws[1]) {
        None
    } else if ws.len() == 2 {
        Some(Some(EditField::Subkey))
    } else if ws[2].len() == 0 {
        None
    } else if ws[1] == "del"@ {
        Some(None)
    } else if ws.len() == 3 {
        Some(Some(if ws[1] == "rename"@ { EditField::NewSubkey } else { EditField::Value }))
    } else if ws[3].len() == 0 {
        None
    } else {
        Some(None)
    }
}

/// `op` is the edit that the complete arguments `ws` name.
pub open spec fn edit_op_of(ws: Seq<Seq<char>>, op: EditOp) -> bool {
    match op {
        EditOp::Del(s) => ws[1] == "del"@ && s@ == ws[2],
        EditOp::Add(s, v) => ws[1] == "add"@ && s@ == ws[2] && v@ == ws[3],
        EditOp::Update(s, v) => ws[1] == "update"@ && s@ == ws[2] && v@ == ws[3],
        EditOp::Rename(s, n) => ws[1] == "rename"@ && s@ == ws[2] && n@ == ws[3],
    }
}

/// Reads the arguments of `edit` given so far: the key, the operation (`del`, `add`,
/// `update` or `rename`), the attribute, and for all but `del` a value or new name.
/// Words past those are ignored.
pub fn edit_step(words: &Vec<String>) -> (r: EditStep)
    ensures
        edit_need(views(words@)) == match r {
            EditStep::Ask(f) => Some(Some(f)),
            EditStep::Ready(_) => Some(None::<EditField>),
            EditStep::Invalid => None,
        },
        r matches EditStep::Ready(c) ==> c.key@ == views(words@)[0] && edit_op_of(views(words@), c.op),
{
    let ghost ws = views(words@);
    assert(ws.len() == words@.len());
    if words.len() == 0 {
        return EditStep::Ask(EditField::Key);
    }
    assert(ws[0] == words@[0]@);
    if words[0].as_str().unicode_len() == 0 {
        return EditStep::Invalid;
    }
    if words.len() == 1 {
        return EditStep::Ask(EditField::Operation);
    }
    assert(ws[1] == words@[1]@);
    let verb = words[1].as_str();
    let is_del = key_cmp(verb, "del") == 0;
    let is_add = key_cmp(verb, "add") == 0;
    let is_update = key_cmp(verb, "update") == 0;
    let is_rename = key_cmp(verb, "rename") == 0;
    if !(is_del || is_add || is_update || is_rename) {
        return EditStep::Invalid;
    }
    if words.len() == 2 {
        return EditStep::Ask(EditField::Subkey);
    }
    assert(ws[2] == words@[2]@);
    if words[2].as_str().unicode_len() == 0 {
        return EditStep::Invalid;
    }
    let key = words[0].clone();
    let sub = words[2].clone();
    if is_del {
        return EditStep::Ready(EditCmd { key, op: EditOp::Del(sub) });
    }
    if words.len() == 3 {
        return EditStep::Ask(if is_rename { EditField::NewSubkey } else { EditField::Value });
    }
    assert(ws[3] == words@[3]@);
    if words[3].as_str().unicode_len() == 0 {
        return EditStep::Invalid;
    }
    let arg = words[3].clone();
    let op = if is_add {
        EditOp::Add(sub, arg)
    } else if is_update {
        EditOp::Update(sub, arg)
    } else {
        EditOp::Rename(sub, arg)
    };
    EditStep::Ready(EditCmd { key, op })
}

/// Where reading the arguments of `rename` stands.
#[derive(Debug, PartialEq, Eq)]
pub enum RenameStep {
    AskOld,
    AskNew,
    Ready(String, String),
    /// More than two names were given.
    Invalid,
}

/// Reads the arguments of `rename` given so far: the old and the new key.
pub fn rename_step(words: &Vec<String>) -> (r: RenameStep)
    ensures
        words@.len() == 0 <==> r is AskOld,
        words@.len() == 1 <==> r is AskNew,
        words@.len() > 2 <==> r is Invalid,
        r matches RenameStep::Ready(from, to) ==> words@.len() == 2 && from@ == words@[0]@ && to@ == words@[1]@,
        words@.len() == 2 ==> r is Ready,
{
    if words.len() > 2 {
        RenameStep::Invalid
    } else if words.len() == 0 {
        RenameStep::AskOld
    } else if words.len() == 1 {
        RenameStep::AskNew
    } else {
        RenameStep::Ready(words[0].clone(), words[1].clone())
    }
}

} // verus!
