//! Reading a task-list document, proved to follow `parse_list`.
use vstd::prelude::*;

use crate::json::{
    char_of, digits_end, digits_value, expect, hex4, hex_value, is_digit, is_scalar, no_fields,
    parse_items, parse_key, parse_list, parse_member, parse_members, parse_number, parse_string,
    parse_task, prepend, skip_ws, string_body, unescape, Fields,
};
use crate::json::{lemma_char_code, push_char};
use crate::task::{Task, TaskSpec};
use crate::task_list::TaskList;

verus! {

/// A position found, as an integer.
pub open spec fn pos_view(r: Option<usize>) -> Option<int> {
    match r {
        Some(j) => Some(j as int),
        None => None,
    }
}

/// A number read and the position after it.
pub open spec fn number_view(r: Option<(u32, usize)>) -> Option<(u32, int)> {
    match r {
        Some((n, j)) => Some((n, j as int)),
        None => None,
    }
}

/// A character read and the position after it.
pub open spec fn char_view(r: Option<(char, usize)>) -> Option<(char, int)> {
    match r {
        Some((c, j)) => Some((c, j as int)),
        None => None,
    }
}

/// Characters read and the position after them.
pub open spec fn chars_view(r: Option<(Vec<char>, usize)>) -> Option<(Seq<char>, int)> {
    match r {
        Some((v, j)) => Some((v@, j as int)),
        None => None,
    }
}

/// The first position at or after `i` that holds no whitespace.
fn skip_ws_at(s: &Vec<char>, i: usize) -> (r: usize)
    requires
        i <= s.len(),
    ensures
        r as int == skip_ws(s@, i as int),
        i <= r <= s.len(),
{
    let mut j = i;
    while j < s.len() && (s[j] == ' ' || s[j] == '\t' || s[j] == '\n' || s[j] == '\r')
        invariant
            i <= j <= s.len(),
            skip_ws(s@, i as int) == skip_ws(s@, j as int),
        decreases s.len() - j,
    {
        j = j + 1;
    }
    j
}

/// After optional whitespace, the character `c`.
fn expect_at(s: &Vec<char>, i: usize, c: char) -> (r: Option<usize>)
    requires
        i <= s.len(),
    ensures
        pos_view(r) == expect(s@, i as int, c),
        r matches Some(j) ==> i < j <= s.len(),
{
    let j = skip_ws_at(s, i);
    if j < s.len() && s[j] == c {
        Some(j + 1)
    } else {
        None
    }
}

/// More digits never write a smaller number.
proof fn lemma_digits_value_grows(s: Seq<char>, a: int, k: int, b: int)
    requires
        a <= k <= b <= s.len(),
        forall|m: int| a <= m < b ==> is_digit(s[m]),
    ensures
        digits_value(s, a, k) <= digits_value(s, a, b),
    decreases b - k,
{
    if k < b {
        lemma_digits_value_grows(s, a, k, b - 1);
    }
}

/// After optional whitespace, a number that fits in a `u32`.
fn number_at(s: &Vec<char>, i: usize) -> (r: Option<(u32, usize)>)
    requires
        i <= s.len(),
    ensures
        number_view(r) == parse_number(s@, i as int),
        r matches Some((n, j)) ==> i < j <= s.len(),
{
    let a = skip_ws_at(s, i);
    let mut b = a;
    while b < s.len() && ('0' as u32) <= (s[b] as u32) && (s[b] as u32) <= ('9' as u32)
        invariant
            a <= b <= s.len(),
            digits_end(s@, a as int) == digits_end(s@, b as int),
            forall|m: int| a <= m < b ==> is_digit(s@[m]),
        decreases s.len() - b,
    {
        b = b + 1;
    }
    if b == a || (s[a] == '0' && b > a + 1) {
        return None;
    }
    let mut v: u64 = 0;
    let mut k = a;
    while k < b
        invariant
            a <= k <= b <= s.len(),
            i <= a,
            a as int == skip_ws(s@, i as int),
            b as int == digits_end(s@, a as int),
            forall|m: int| a <= m < b ==> is_digit(s@[m]),
            v as nat == digits_value(s@, a as int, k as int),
            v <= u32::MAX,
        decreases b - k,
    {
        v = v * 10 + ((s[k] as u32) - 48) as u64;
        k = k + 1;
        assert(v as nat == digits_value(s@, a as int, k as int));
        if v > u32::MAX as u64 {
            proof {
                lemma_digits_value_grows(s@, a as int, k as int, b as int);
            }
            return None;
        }
    }
    Some((v as u32, b))
}

/// The value of a hexadecimal digit.
fn hex_at(c: char) -> (r: Option<u32>)
    ensures
        r matches Some(v) ==> v == hex_value(c) && v < 16,
        r is None <==> hex_value(c) < 0,
{
    let v = c as u32;
    if 48 <= v && v <= 57 {
        Some(v - 48)
    } else if 97 <= v && v <= 102 {
        Some(v - 87)
    } else if 65 <= v && v <= 70 {
        Some(v - 55)
    } else {
        None
    }
}

/// Relies on char::from_u32: the character of a code point, `None` exactly
/// for surrogates and values past 0x10FFFF.
#[verifier::external_body]
fn char_from_code(v: u32) -> (r: Option<char>)
    ensures
        r matches Some(c) ==> c as u32 == v,
        r is None <==> !is_scalar(v),
{
    char::from_u32(v)
}

/// The escape whose letter stands at `i`, just after a backslash.
fn unescape_at(s: &Vec<char>, i: usize) -> (r: Option<(char, usize)>)
    requires
        i <= s.len(),
    ensures
        char_view(r) == unescape(s@, i as int),
        r matches Some((c, j)) ==> i < j <= s.len(),
{
    if i >= s.len() {
        return None;
    }
    let c = s[i];
    if c == '"' {
        Some(('"', i + 1))
    } else if c == '\\' {
        Some(('\\', i + 1))
    } else if c == '/' {
        Some(('/', i + 1))
    } else if c == 'b' {
        Some(('\x08', i + 1))
    } else if c == 'f' {
        Some(('\x0c', i + 1))
    } else if c == 'n' {
        Some(('\n', i + 1))
    } else if c == 'r' {
        Some(('\r', i + 1))
    } else if c == 't' {
        Some(('\t', i + 1))
    } else if c == 'u' {
        let v = match hex4_at(s, i + 1) {
            Some(v) => v,
            None => return None,
        };
        if v < 0xD800 || v >= 0xE000 {
            match char_from_code(v) {
                Some(x) => {
                    proof {
                        lemma_char_of(x, v as int);
                    }
                    Some((x, i + 5))
                },
                None => None,
            }
        } else if v < 0xDC00 && s.len() - i > 6 && s[i + 5] == '\\' && s[i + 6] == 'u' {
            let w = match hex4_at(s, i + 7) {
                Some(w) => w,
                None => return None,
            };
            if 0xDC00 <= w && w < 0xE000 {
                let code = 0x10000 + (v - 0xD800) * 1024 + (w - 0xDC00);
                match char_from_code(code) {
                    Some(x) => {
                        proof {
                            lemma_char_of(x, code as int);
                        }
                        Some((x, i + 11))
                    },
                    None => None,
                }
            } else {
                None
            }
        } else {
            None
        }
    } else {
        None
    }
}

/// The character with a given code is the one `char_of` names.
proof fn lemma_char_of(x: char, v: int)
    requires
        0 <= v <= u32::MAX,
        x as u32 == v as u32,
    ensures
        char_of(v) == x,
{
    assert(exists|y: char| #[trigger] (y as u32) == v as u32);
    lemma_char_code(x, char_of(v));
}

/// The value of the four hexadecimal digits from `i` on.
fn hex4_at(s: &Vec<char>, i: usize) -> (r: Option<u32>)
    requires
        i <= s.len(),
    ensures
        r matches Some(v) ==> v as int == hex4(s@, i as int) && v < 0x10000,
        r is None <==> hex4(s@, i as int) < 0,
{
    if s.len() - i < 4 {
        return None;
    }
    match (hex_at(s[i]), hex_at(s[i + 1]), hex_at(s[i + 2]), hex_at(s[i + 3])) {
        (Some(a), Some(b), Some(d), Some(e)) => Some(a * 4096 + b * 256 + d * 16 + e),
        _ => None,
    }
}

/// The contents of a JSON string whose opening quote stands just before `i`.
fn string_body_at(s: &Vec<char>, i: usize) -> (r: Option<(Vec<char>, usize)>)
    requires
        i <= s.len(),
    ensures
        chars_view(r) == string_body(s@, i as int),
        r matches Some((v, j)) ==> i < j <= s.len(),
{
    let mut acc: Vec<char> = Vec::new();
    let mut j = i;
    assert(acc@ + Seq::<char>::empty() =~= acc@);
    loop
        invariant
            i <= j <= s.len(),
            string_body(s@, i as int) == prepend(acc@, string_body(s@, j as int)),
        decreases s.len() - j,
    {
        if j >= s.len() {
            return None;
        }
        let c = s[j];
        if c == '"' {
            assert(acc@ + Seq::<char>::empty() =~= acc@);
            return Some((acc, j + 1));
        } else if c == '\\' {
            match unescape_at(s, j + 1) {
                None => {
                    return None;
                },
                Some((x, k)) => {
                    let ghost old_acc = acc@;
                    acc.push(x);
                    proof {
                        match string_body(s@, k as int) {
                            Some((rest, e)) => {
                                assert(old_acc + (seq![x] + rest) =~= acc@ + rest);
                            },
                            None => {},
                        }
                    }
                    j = k;
                },
            }
        } else if (c as u32) < 0x20 {
            return None;
        } else {
            let ghost old_acc = acc@;
            acc.push(c);
            proof {
                match string_body(s@, j + 1) {
                    Some((rest, e)) => {
                        assert(old_acc + (seq![c] + rest) =~= acc@ + rest);
                    },
                    None => {},
                }
            }
            j = j + 1;
        }
    }
}

/// After optional whitespace, a JSON string.
fn string_at(s: &Vec<char>, i: usize) -> (r: Option<(Vec<char>, usize)>)
    requires
        i <= s.len(),
    ensures
        chars_view(r) == crate::json::parse_string(s@, i as int),
        r matches Some((v, j)) ==> i < j <= s.len(),
{
    match expect_at(s, i, '"') {
        Some(j) => string_body_at(s, j),
        None => None,
    }
}

/// A task read and the position after it.
pub open spec fn task_view(r: Option<(Task, usize)>) -> Option<(TaskSpec, int)> {
    match r {
        Some((t, j)) => Some((t@, j as int)),
        None => None,
    }
}

/// The values of the tasks of `v`.
pub open spec fn tasks_view(v: Vec<Task>) -> Seq<TaskSpec> {
    v@.map_values(|t: Task| t@)
}

/// Tasks read and the position after them.
pub open spec fn items_view(r: Option<(Vec<Task>, usize)>) -> Option<(Seq<TaskSpec>, int)> {
    match r {
        Some((v, j)) => Some((tasks_view(v), j as int)),
        None => None,
    }
}

/// Puts `pre` in front of parsed tasks.
pub open spec fn prepend_tasks(pre: Seq<TaskSpec>, r: Option<(Seq<TaskSpec>, int)>) -> Option<
    (Seq<TaskSpec>, int),
> {
    match r {
        Some((rest, j)) => Some((pre + rest, j)),
        None => None,
    }
}

/// A string equal to `key`, then a colon.
fn key_at(s: &Vec<char>, i: usize, key: &[char]) -> (r: Option<usize>)
    requires
        i <= s.len(),
    ensures
        pos_view(r) == parse_key(s@, i as int, key@),
        r matches Some(j) ==> i < j <= s.len(),
{
    match string_at(s, i) {
        None => None,
        Some((k, j)) => if same_chars(&k, key) {
            expect_at(s, j, ':')
        } else {
            None
        },
    }
}

/// The string of the characters of `v`.
fn string_of(v: &Vec<char>) -> (r: String)
    ensures
        r@ == v@,
{
    let mut r = String::new();
    let mut i: usize = 0;
    while i < v.len()
        invariant
            i <= v.len(),
            r@ == v@.take(i as int),
        decreases v.len() - i,
    {
        push_char(&mut r, v[i]);
        assert(v@.take(i as int + 1) =~= v@.take(i as int).push(v@[i as int]));
        i = i + 1;
    }
    assert(v@.take(i as int) =~= v@);
    r
}

/// The characters of `v` equal those of `key`.
fn same_chars(v: &Vec<char>, key: &[char]) -> (r: bool)
    ensures
        r == (v@ == key@),
{
    if v.len() != key.len() {
        assert(v@.len() != key@.len());
        return false;
    }
    let mut m: usize = 0;
    while m < v.len()
        invariant
            v.len() == key.len(),
            m <= v.len(),
            forall|x: int| 0 <= x < m ==> v@[x] == key@[x],
        decreases v.len() - m,
    {
        if v[m] != key[m] {
            assert(v@[m as int] != key@[m as int]);
            return false;
        }
        m = m + 1;
    }
    assert(v@ =~= key@);
    true
}

/// The value of optional characters.
pub open spec fn opt_chars(v: Option<Vec<char>>) -> Option<Seq<char>> {
    match v {
        Some(c) => Some(c@),
        None => None,
    }
}

/// The fields read so far, as values.
pub open spec fn fields_of(id: Option<u32>, name: Option<Vec<char>>, owner: Option<Vec<char>>) -> Fields {
    Fields { id, name: opt_chars(name), owner: opt_chars(owner) }
}

/// A task object, its members in any order.
fn task_at(s: &Vec<char>, i: usize) -> (r: Option<(Task, usize)>)
    requires
        i <= s.len(),
    ensures
        task_view(r) == parse_task(s@, i as int),
        r matches Some((t, j)) ==> i < j <= s.len(),
{
    let j1 = match expect_at(s, i, '{') {
        Some(j) => j,
        None => return None,
    };
    let mut id: Option<u32> = None;
    let mut name: Option<Vec<char>> = None;
    let mut owner: Option<Vec<char>> = None;
    let mut j = j1;
    assert(fields_of(id, name, owner) == no_fields());
    loop
        invariant
            i < j1 <= j <= s.len(),
            expect(s@, i as int, '{') == Some(j1 as int),
            parse_members(s@, j1 as int, no_fields()) == parse_members(
                s@,
                j as int,
                fields_of(id, name, owner),
            ),
        decreases s.len() - j,
    {
        let ghost f = fields_of(id, name, owner);
        let (k, j2) = match string_at(s, j) {
            Some(p) => p,
            None => return None,
        };
        let j3 = match expect_at(s, j2, ':') {
            Some(e) => e,
            None => return None,
        };
        let j4;
        if same_chars(&k, &['i', 'd']) && id.is_none() {
            match number_at(s, j3) {
                Some((n, e)) => {
                    id = Some(n);
                    j4 = e;
                },
                None => return None,
            }
        } else if same_chars(&k, &['n', 'a', 'm', 'e']) && name.is_none() {
            match string_at(s, j3) {
                Some((v, e)) => {
                    name = Some(v);
                    j4 = e;
                },
                None => return None,
            }
        } else if same_chars(&k, &['o', 'w', 'n', 'e', 'r']) && owner.is_none() {
            match string_at(s, j3) {
                Some((v, e)) => {
                    owner = Some(v);
                    j4 = e;
                },
                None => return None,
            }
        } else {
            return None;
        }
        assert(parse_member(s@, j as int, f) == Some((fields_of(id, name, owner), j4 as int)));
        match expect_at(s, j4, ',') {
            Some(m) => {
                j = m;
            },
            None => match expect_at(s, j4, '}') {
                Some(m) => {
                    return match (id, name, owner) {
                        (Some(n), Some(a), Some(b)) => Some(
                            (Task { id: n, name: string_of(&a), owner: string_of(&b) }, m),
                        ),
                        _ => None,
                    };
                },
                None => return None,
            },
        }
    }
}

/// Task objects separated by commas, closed by `]`.
fn items_at(s: &Vec<char>, i: usize) -> (r: Option<(Vec<Task>, usize)>)
    requires
        i <= s.len(),
    ensures
        items_view(r) == parse_items(s@, i as int),
        r matches Some((v, j)) ==> i < j <= s.len(),
{
    let mut acc: Vec<Task> = Vec::new();
    let mut j = i;
    assert(tasks_view(acc) + Seq::<TaskSpec>::empty() =~= tasks_view(acc));
    loop
        invariant
            i <= j <= s.len(),
            parse_items(s@, i as int) == prepend_tasks(tasks_view(acc), parse_items(s@, j as int)),
        decreases s.len() - j,
    {
        let (t, k) = match task_at(s, j) {
            Some(p) => p,
            None => return None,
        };
        let ghost old_acc = tasks_view(acc);
        match expect_at(s, k, ',') {
            Some(m) => {
                acc.push(t);
                assert(tasks_view(acc) =~= old_acc.push(t@));
                proof {
                    match parse_items(s@, m as int) {
                        Some((rest, e)) => {
                            assert(old_acc + (seq![t@] + rest) =~= tasks_view(acc) + rest);
                        },
                        None => {},
                    }
                }
                j = m;
            },
            None => match expect_at(s, k, ']') {
                Some(m) => {
                    acc.push(t);
                    assert(tasks_view(acc) =~= old_acc + seq![t@]);
                    return Some((acc, m));
                },
                None => return None,
            },
        }
    }
}

/// Collects the characters of `text`.
fn chars_of(text: &str) -> (r: Vec<char>)
    ensures
        r@ == text@,
{
    let mut r: Vec<char> = Vec::new();
    for c in it: text.chars()
        invariant
            r@ == it.seq().take(it.index() as int),
    {
        r.push(c);
    }
    r
}

impl TaskList {
    /// Reads a task-list document; `None` when `text` is not one.
    pub fn from_json(text: &str) -> (r: Option<TaskList>)
        ensures
            r matches Some(l) ==> parse_list(text@) == Some(l@),
            r is None <==> parse_list(text@) is None,
    {
        let s = chars_of(text);
        let j1 = match expect_at(&s, 0, '{') {
            Some(j) => j,
            None => return None,
        };
        let j2 = match key_at(&s, j1, &['t', 'a', 's', 'k', 's']) {
            Some(j) => j,
            None => return None,
        };
        let j3 = match expect_at(&s, j2, '[') {
            Some(j) => j,
            None => return None,
        };
        let (tasks, j4) = match expect_at(&s, j3, ']') {
            Some(k) => (Vec::new(), k),
            None => match items_at(&s, j3) {
                Some(p) => p,
                None => return None,
            },
        };
        proof {
            if expect(s@, j3 as int, ']') is Some {
                assert(tasks_view(tasks) =~= Seq::<TaskSpec>::empty());
            }
        }
        let j5 = match expect_at(&s, j4, '}') {
            Some(j) => j,
            None => return None,
        };
        if skip_ws_at(&s, j5) != s.len() {
            return None;
        }
        Some(TaskList { tasks })
    }
}

} // verus!
