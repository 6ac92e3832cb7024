//! The JSON text of tasks and task lists: `{"tasks":[{"id":1,"name":"..","owner":".."},..]}`.
use vstd::prelude::*;
use vstd::string::StringExecFns;

use crate::task::{BackendError, Task, TaskSpec};
use crate::task_list::{lookup, TaskList};

verus! {

#[verifier::external_type_specification]
#[verifier::external_body]
pub struct ExJsonError(serde_json::Error);

/// The character of a decimal digit.
pub open spec fn digit_char(d: nat) -> char {
    ((d + 48) as u8) as char
}

/// The lowercase hexadecimal digit of `n < 16`.
pub open spec fn hex_digit(n: u32) -> char {
    if n < 10 {
        ((n + 48) as u8) as char
    } else {
        ((n + 87) as u8) as char
    }
}

/// How one character stands inside a JSON string: quote and backslash are
/// escaped, control characters take a short escape or `\u00XX`, the rest
/// stand as they are.
pub open spec fn escape_char(c: char) -> Seq<char> {
    if c == '"' {
        seq!['\\', '"']
    } else if c == '\\' {
        seq!['\\', '\\']
    } else if c == '\x08' {
        seq!['\\', 'b']
    } else if c == '\x0c' {
        seq!['\\', 'f']
    } else if c == '\n' {
        seq!['\\', 'n']
    } else if c == '\r' {
        seq!['\\', 'r']
    } else if c == '\t' {
        seq!['\\', 't']
    } else if (c as u32) < 0x20 {
        seq!['\\', 'u', '0', '0', hex_digit((c as u32) / 16), hex_digit((c as u32) % 16)]
    } else {
        seq![c]
    }
}

/// The escaped characters of `s`.
pub open spec fn escape(s: Seq<char>) -> Seq<char>
    decreases s.len(),
{
    if s.len() == 0 {
        Seq::empty()
    } else {
        escape_char(s[0]) + escape(s.drop_first())
    }
}

/// `s` as a JSON string literal.
pub open spec fn quoted(s: Seq<char>) -> Seq<char> {
    seq!['"'] + escape(s) + seq!['"']
}

/// The decimal digits of `n`, without leading zeros.
pub open spec fn digits(n: nat) -> Seq<char>
    decreases n,
{
    if n < 10 {
        seq![digit_char(n)]
    } else {
        digits(n / 10).push(digit_char(n % 10))
    }
}

/// `"id":`, after the opening brace of a task.
pub open spec fn id_key() -> Seq<char> {
    seq!['"', 'i', 'd', '"', ':']
}

/// `,"name":`, after the id.
pub open spec fn name_key() -> Seq<char> {
    seq![',', '"', 'n', 'a', 'm', 'e', '"', ':']
}

/// `,"owner":`, after the name.
pub open spec fn owner_key() -> Seq<char> {
    seq![',', '"', 'o', 'w', 'n', 'e', 'r', '"', ':']
}

/// `{"tasks":[`, the opening of a list document.
pub open spec fn tasks_key() -> Seq<char> {
    seq!['{', '"', 't', 'a', 's', 'k', 's', '"', ':', '[']
}

/// The JSON object of a task, fields in the order id, name, owner.
pub open spec fn task_json(t: TaskSpec) -> Seq<char> {
    seq!['{'] + id_key() + digits(t.id as nat) + name_key() + quoted(t.name) + owner_key()
        + quoted(t.owner) + seq!['}']
}

/// The task objects of `ts`, separated by commas.
pub open spec fn items_json(ts: Seq<TaskSpec>) -> Seq<char>
    decreases ts.len(),
{
    if ts.len() == 0 {
        Seq::empty()
    } else if ts.len() == 1 {
        task_json(ts[0])
    } else {
        task_json(ts[0]) + seq![','] + items_json(ts.drop_first())
    }
}

/// The JSON document of a task list.
pub open spec fn list_json(ts: Seq<TaskSpec>) -> Seq<char> {
    tasks_key() + items_json(ts) + seq![']', '}']
}

/// Relies on serde_json::to_string on a `str`: the string as a JSON string
/// literal, escaped by serde_json's escape table. Serializing a `str` into
/// the `Vec` that `to_string` writes to does not fail.
#[verifier::external_body]
fn quote_str(s: &str) -> (r: Result<String, serde_json::Error>)
    ensures
        r is Ok,
        r->Ok_0@ == quoted(s@),
{
    serde_json::to_string(s)
}

/// Relies on String::push: appends one character.
#[verifier::external_body]
pub(crate) fn push_char(out: &mut String, c: char)
    ensures
        final(out)@ == old(out)@.push(c),
{
    out.push(c)
}

/// Appends the characters of `cs`.
fn push_chars(out: &mut String, cs: &[char])
    ensures
        final(out)@ == old(out)@ + cs@,
{
    let mut i: usize = 0;
    while i < cs.len()
        invariant
            i <= cs.len(),
            out@ == old(out)@ + cs@.take(i as int),
        decreases cs.len() - i,
    {
        push_char(out, cs[i]);
        assert(cs@.take(i as int + 1) =~= cs@.take(i as int).push(cs@[i as int]));
        i = i + 1;
    }
    assert(cs@.take(i as int) =~= cs@);
}

/// Appends the decimal digits of `n`.
fn push_number(out: &mut String, n: u32)
    ensures
        final(out)@ == old(out)@ + digits(n as nat),
    decreases n,
{
    if n < 10 {
        push_char(out, ((n as u8) + 48) as char);
        assert(seq![digit_char(n as nat)] =~= seq![((n as u8 + 48) as u8) as char]);
    } else {
        push_number(out, n / 10);
        push_char(out, ((n % 10) as u8 + 48) as char);
    }
}

impl Task {
    /// The JSON object of the task; it never fails.
    pub fn to_json(&self) -> (r: Result<String, BackendError>)
        ensures
            r is Ok,
            r->Ok_0@ == task_json(self@),
    {
        let name = match quote_str(self.name.as_str()) {
            Ok(q) => q,
            Err(_) => return Err(BackendError::BadClientData),
        };
        let owner = match quote_str(self.owner.as_str()) {
            Ok(q) => q,
            Err(_) => return Err(BackendError::BadClientData),
        };
        let mut out = String::new();
        push_chars(&mut out, &['{', '"', 'i', 'd', '"', ':']);
        push_number(&mut out, self.id);
        push_chars(&mut out, &[',', '"', 'n', 'a', 'm', 'e', '"', ':']);
        out.append(name.as_str());
        push_chars(&mut out, &[',', '"', 'o', 'w', 'n', 'e', 'r', '"', ':']);
        out.append(owner.as_str());
        push_char(&mut out, '}');
        assert(out@ =~= task_json(self@));
        Ok(out)
    }
}

/// Adding one more task object to the items.
proof fn lemma_items_push(ts: Seq<TaskSpec>, t: TaskSpec)
    ensures
        items_json(ts.push(t)) == (if ts.len() == 0 {
            task_json(t)
        } else {
            items_json(ts) + seq![','] + task_json(t)
        }),
    decreases ts.len(),
{
    if ts.len() > 0 {
        assert(ts.push(t).drop_first() =~= ts.drop_first().push(t));
        lemma_items_push(ts.drop_first(), t);
        if ts.len() > 1 {
            assert(items_json(ts.push(t)) =~= items_json(ts) + seq![','] + task_json(t));
        }
    }
}

impl TaskList {
    /// The JSON object of the first task with the given id; bad client data
    /// when no task has it.
    pub fn get_task_json(&self, id: u32) -> (r: Result<String, BackendError>)
        ensures
            (match lookup(self@, id) {
                Some(t) => r is Ok && r->Ok_0@ == task_json(t),
                None => r == Err::<String, BackendError>(BackendError::BadClientData),
            }),
    {
        match self.get_by_id(id) {
            Some(t) => t.to_json(),
            None => Err(BackendError::BadClientData),
        }
    }

    /// The JSON document of the list; it never fails.
    pub fn to_string(&self) -> (r: Result<String, BackendError>)
        ensures
            r is Ok,
            r->Ok_0@ == list_json(self@),
    {
        let mut out = String::new();
        push_chars(&mut out, &['{', '"', 't', 'a', 's', 'k', 's', '"', ':', '[']);
        let mut i: usize = 0;
        while i < self.tasks.len()
            invariant
                i <= self.tasks.len(),
                out@ == tasks_key() + items_json(self@.take(i as int)),
            decreases self.tasks.len() - i,
        {
            let obj = match self.tasks[i].to_json() {
                Ok(o) => o,
                Err(e) => return Err(e),
            };
            if i > 0 {
                push_char(&mut out, ',');
            }
            out.append(obj.as_str());
            proof {
                lemma_items_push(self@.take(i as int), self@[i as int]);
                assert(self@.take(i as int + 1) =~= self@.take(i as int).push(self@[i as int]));
            }
            assert(out@ =~= tasks_key() + items_json(self@.take(i as int + 1)));
            i = i + 1;
        }
        push_chars(&mut out, &[']', '}']);
        assert(self@.take(i as int) =~= self@);
        assert(out@ =~= list_json(self@));
        Ok(out)
    }
}

/// A character is fixed by its code.
pub proof fn lemma_char_code(a: char, b: char)
    requires
        a as u32 == b as u32,
    ensures
        a == b,
{
}

/// Whitespace that JSON allows between tokens.
pub open spec fn is_ws(c: char) -> bool {
    c == ' ' || c == '\t' || c == '\n' || c == '\r'
}

/// A decimal digit, `0` to `9`.
pub open spec fn is_digit(c: char) -> bool {
    48 <= (c as u32) <= 57
}

/// The first position at or after `i` that holds no whitespace.
pub open spec fn skip_ws(s: Seq<char>, i: int) -> int
    decreases s.len() - i,
{
    if 0 <= i < s.len() && is_ws(s[i]) {
        skip_ws(s, i + 1)
    } else {
        i
    }
}

/// After optional whitespace, the character `c`; the position after it.
pub open spec fn expect(s: Seq<char>, i: int, c: char) -> Option<int> {
    let j = skip_ws(s, i);
    if 0 <= j < s.len() && s[j] == c {
        Some(j + 1)
    } else {
        None
    }
}

/// The first position at or after `i` that holds no digit.
pub open spec fn digits_end(s: Seq<char>, i: int) -> int
    decreases s.len() - i,
{
    if 0 <= i < s.len() && is_digit(s[i]) {
        digits_end(s, i + 1)
    } else {
        i
    }
}

/// The number that the digits `s[i..j]` write.
pub open spec fn digits_value(s: Seq<char>, i: int, j: int) -> nat
    decreases j - i,
{
    if j <= i {
        0
    } else {
        digits_value(s, i, j - 1) * 10 + ((s[j - 1] as u32) - 48) as nat
    }
}

/// After optional whitespace, a number without leading zeros that fits in
/// a `u32`; the number and the position after it.
pub open spec fn parse_number(s: Seq<char>, i: int) -> Option<(u32, int)> {
    let a = skip_ws(s, i);
    let b = digits_end(s, a);
    if b == a || (s[a] == '0' && b > a + 1) || digits_value(s, a, b) > u32::MAX {
        None
    } else {
        Some((digits_value(s, a, b) as u32, b))
    }
}

/// The value of a hexadecimal digit, or -1.
pub open spec fn hex_value(c: char) -> int {
    let v = c as u32;
    if 48 <= v <= 57 {
        v - 48
    } else if 97 <= v <= 102 {
        v - 87
    } else if 65 <= v <= 70 {
        v - 55
    } else {
        -1
    }
}

/// A code point that is a `char`: not a surrogate, at most 0x10FFFF.
pub open spec fn is_scalar(v: u32) -> bool {
    v < 0xD800 || (0xE000 <= v && v <= 0x10FFFF)
}

/// The value of the four hexadecimal digits from `i` on, or -1.
pub open spec fn hex4(s: Seq<char>, i: int) -> int {
    if 0 <= i && i + 3 < s.len() && hex_value(s[i]) >= 0 && hex_value(s[i + 1]) >= 0
        && hex_value(s[i + 2]) >= 0 && hex_value(s[i + 3]) >= 0 {
        hex_value(s[i]) * 4096 + hex_value(s[i + 1]) * 256 + hex_value(s[i + 2]) * 16 + hex_value(
            s[i + 3],
        )
    } else {
        -1
    }
}

/// The character whose code is `v`.
pub open spec fn char_of(v: int) -> char {
    choose|x: char| #[trigger] (x as u32) == v as u32
}

/// The escape whose letter stands at `i` (just after a backslash): the
/// character it stands for and the position after it. A `\u` escape of a
/// leading surrogate must be followed by one of a trailing surrogate, and the
/// two stand for one character.
pub open spec fn unescape(s: Seq<char>, i: int) -> Option<(char, int)> {
    if i < 0 || i >= s.len() {
        None
    } else {
        let c = s[i];
        if c == '"' {
            Some(('"', i + 1))
        } else if c == '\\' {
            Some(('\\', i + 1))
        } else if c == '/' {
            Some(('/', i + 1))
        } else if c == 'b' {
            Some(('\x08', i + 1))
        } else if c == 'f' {
            Some(('\x0c', i + 1))
        } else if c == 'n' {
            Some(('\n', i + 1))
        } else if c == 'r' {
            Some(('\r', i + 1))
        } else if c == 't' {
            Some(('\t', i + 1))
        } else if c == 'u' && hex4(s, i + 1) >= 0 {
            let v = hex4(s, i + 1);
            if is_scalar(v as u32) {
                Some((char_of(v), i + 5))
            } else if 0xD800 <= v < 0xDC00 && i + 6 < s.len() && s[i + 5] == '\\' && s[i + 6]
                == 'u' && 0xDC00 <= hex4(s, i + 7) < 0xE000 {
                Some((char_of(0x10000 + (v - 0xD800) * 1024 + (hex4(s, i + 7) - 0xDC00)), i + 11))
            } else {
                None
            }
        } else {
            None
        }
    }
}

/// Puts `pre` in front of a parsed string.
pub open spec fn prepend(pre: Seq<char>, r: Option<(Seq<char>, int)>) -> Option<(Seq<char>, int)> {
    match r {
        Some((rest, j)) => Some((pre + rest, j)),
        None => None,
    }
}

/// The contents of a JSON string from `i` (just after its opening quote) up
/// to its closing quote; the contents and the position after that quote.
pub open spec fn string_body(s: Seq<char>, i: int) -> Option<(Seq<char>, int)>
    decreases s.len() - i,
{
    if i < 0 || i >= s.len() {
        None
    } else if s[i] == '"' {
        Some((Seq::empty(), i + 1))
    } else if s[i] == '\\' {
        match unescape(s, i + 1) {
            Some((c, k)) => if k <= i {
                None
            } else {
                prepend(seq![c], string_body(s, k))
            },
            None => None,
        }
    } else if (s[i] as u32) < 0x20 {
        None
    } else {
        prepend(seq![s[i]], string_body(s, i + 1))
    }
}

/// After optional whitespace, a JSON string; its contents and the position
/// after it.
pub open spec fn parse_string(s: Seq<char>, i: int) -> Option<(Seq<char>, int)> {
    match expect(s, i, '"') {
        Some(j) => string_body(s, j),
        None => None,
    }
}

/// A string equal to `key` followed by a colon; the position after the colon.
pub open spec fn parse_key(s: Seq<char>, i: int, key: Seq<char>) -> Option<int> {
    match parse_string(s, i) {
        Some((k, j)) => if k == key {
            expect(s, j, ':')
        } else {
            None
        },
        None => None,
    }
}

/// The fields of a task object read so far.
pub struct Fields {
    pub id: Option<u32>,
    pub name: Option<Seq<char>>,
    pub owner: Option<Seq<char>>,
}

/// No field read yet.
pub open spec fn no_fields() -> Fields {
    Fields { id: None, name: None, owner: None }
}

/// One member of a task object: a key among `id`, `name` and `owner` that was
/// not read before, a colon and its value; the fields with it and the
/// position after it.
pub open spec fn parse_member(s: Seq<char>, i: int, f: Fields) -> Option<(Fields, int)> {
    match parse_string(s, i) {
        None => None,
        Some((k, j)) => match expect(s, j, ':') {
            None => None,
            Some(j2) => if k == seq!['i', 'd'] && f.id is None {
                match parse_number(s, j2) {
                    Some((n, j3)) => Some((Fields { id: Some(n), name: f.name, owner: f.owner }, j3)),
                    None => None,
                }
            } else if k == seq!['n', 'a', 'm', 'e'] && f.name is None {
                match parse_string(s, j2) {
                    Some((v, j3)) => Some((Fields { id: f.id, name: Some(v), owner: f.owner }, j3)),
                    None => None,
                }
            } else if k == seq!['o', 'w', 'n', 'e', 'r'] && f.owner is None {
                match parse_string(s, j2) {
                    Some((v, j3)) => Some((Fields { id: f.id, name: f.name, owner: Some(v) }, j3)),
                    None => None,
                }
            } else {
                None
            },
        },
    }
}

/// Members separated by commas and closed by `}`; the fields read and the
/// position after the brace.
pub open spec fn parse_members(s: Seq<char>, i: int, f: Fields) -> Option<(Fields, int)>
    decreases s.len() - i,
{
    match parse_member(s, i, f) {
        None => None,
        Some((g, j)) => match expect(s, j, ',') {
            Some(k) => if k <= i {
                None
            } else {
                parse_members(s, k, g)
            },
            None => match expect(s, j, '}') {
                Some(k) => Some((g, k)),
                None => None,
            },
        },
    }
}

/// A task object with the members `id`, `name` and `owner`, each once, in
/// any order; the task and the position after it.
pub open spec fn parse_task(s: Seq<char>, i: int) -> Option<(TaskSpec, int)> {
    match expect(s, i, '{') {
        None => None,
        Some(j) => match parse_members(s, j, no_fields()) {
            Some((g, k)) => if g.id is Some && g.name is Some && g.owner is Some {
                Some((TaskSpec { id: g.id->0, name: g.name->0, owner: g.owner->0 }, k))
            } else {
                None
            },
            None => None,
        },
    }
}

/// Puts `t` in front of parsed tasks.
pub open spec fn prepend_task(t: TaskSpec, r: Option<(Seq<TaskSpec>, int)>) -> Option<
    (Seq<TaskSpec>, int),
> {
    match r {
        Some((rest, j)) => Some((seq![t] + rest, j)),
        None => None,
    }
}

/// One or more task objects separated by commas and closed by `]`; the tasks
/// and the position after the bracket.
pub open spec fn parse_items(s: Seq<char>, i: int) -> Option<(Seq<TaskSpec>, int)>
    decreases s.len() - i,
{
    match parse_task(s, i) {
        None => None,
        Some((t, j)) => match expect(s, j, ',') {
            Some(k) => if k <= i {
                None
            } else {
                prepend_task(t, parse_items(s, k))
            },
            None => match expect(s, j, ']') {
                Some(k) => Some((seq![t], k)),
                None => None,
            },
        },
    }
}

/// The tasks of a whole task-list document, whitespace allowed between
/// tokens and at either end.
pub open spec fn parse_list(s: Seq<char>) -> Option<Seq<TaskSpec>> {
    match expect(s, 0, '{') {
        None => None,
        Some(j1) => match parse_key(s, j1, seq!['t', 'a', 's', 'k', 's']) {
            None => None,
            Some(j2) => match expect(s, j2, '[') {
                None => None,
                Some(j3) => {
                    let items = match expect(s, j3, ']') {
                        Some(k) => Some((Seq::<TaskSpec>::empty(), k)),
                        None => parse_items(s, j3),
                    };
                    match items {
                        None => None,
                        Some((ts, j4)) => match expect(s, j4, '}') {
                            None => None,
                            Some(j5) => if skip_ws(s, j5) == s.len() {
                                Some(ts)
                            } else {
                                None
                            },
                        },
                    }
                },
            },
        },
    }
}

} // verus!
