//! Reading back what the encoder writes gives the tasks that were written.
use vstd::prelude::*;

use crate::json::{
    digit_char, digits, digits_end, digits_value, escape, escape_char, expect, hex_digit,
    hex_value, id_key, is_scalar, is_digit, is_ws, items_json, list_json, name_key, tasks_key, owner_key, parse_items,
    parse_key, parse_list, parse_number, parse_string, parse_task, quoted, string_body, task_json,
    unescape, lemma_char_code, no_fields, parse_member, parse_members, Fields,
};
use crate::task::TaskSpec;

verus! {

/// `x` stands in `s` from position `i` on.
pub open spec fn at(s: Seq<char>, i: int, x: Seq<char>) -> bool {
    0 <= i && i + x.len() <= s.len() && s.subrange(i, i + x.len()) == x
}

proof fn lemma_at_concat(s: Seq<char>, i: int, a: Seq<char>, b: Seq<char>)
    requires
        at(s, i, a + b),
    ensures
        at(s, i, a),
        at(s, i + a.len(), b),
{
    let full = s.subrange(i, i + (a + b).len());
    assert forall|k: int| 0 <= k < a.len() implies s[i + k] == a[k] by {
        assert(full[k] == (a + b)[k]);
    }
    assert forall|k: int| 0 <= k < b.len() implies s[i + a.len() + k] == b[k] by {
        assert(full[a.len() + k] == (a + b)[a.len() + k]);
    }
    assert(s.subrange(i, i + a.len()) =~= a);
    assert(s.subrange(i + a.len(), i + a.len() + b.len()) =~= b);
}

proof fn lemma_at_index(s: Seq<char>, i: int, x: Seq<char>, k: int)
    requires
        at(s, i, x),
        0 <= k < x.len(),
    ensures
        s[i + k] == x[k],
{
    assert(s.subrange(i, i + x.len())[k] == s[i + k]);
}

proof fn lemma_expect_at(s: Seq<char>, i: int, c: char)
    requires
        at(s, i, seq![c]),
        !is_ws(c),
    ensures
        expect(s, i, c) == Some(i + 1),
{
    lemma_at_index(s, i, seq![c], 0);
}

/// The digits of a number: at least one, all digits, no leading zero.
proof fn lemma_digits_shape(n: nat)
    ensures
        digits(n).len() >= 1,
        forall|k: int| 0 <= k < digits(n).len() ==> is_digit(#[trigger] digits(n)[k]),
        digits(n).len() > 1 ==> digits(n)[0] != '0',
        n > 0 ==> digits(n)[0] != '0',
    decreases n,
{
    if n >= 10 {
        lemma_digits_shape(n / 10);
        assert(digits(n)[0] == digits(n / 10)[0]);
        assert forall|k: int| 0 <= k < digits(n).len() implies is_digit(#[trigger] digits(n)[k]) by {
            if k < digits(n / 10).len() {
                assert(digits(n)[k] == digits(n / 10)[k]);
            }
        }
    }
}

proof fn lemma_digits_value(s: Seq<char>, a: int, n: nat)
    requires
        at(s, a, digits(n)),
    ensures
        digits_value(s, a, a + digits(n).len()) == n,
    decreases n,
{
    lemma_digits_shape(n);
    let l = digits(n).len() as int;
    lemma_at_index(s, a, digits(n), l - 1);
    if n < 10 {
        assert(digits_value(s, a, a) == 0);
    } else {
        lemma_digits_shape(n / 10);
        assert(digits(n) == digits(n / 10) + seq![digit_char(n % 10)]);
        lemma_at_concat(s, a, digits(n / 10), seq![digit_char(n % 10)]);
        lemma_digits_value(s, a, n / 10);
        assert(n == (n / 10) * 10 + n % 10);
    }
}

proof fn lemma_digits_end(s: Seq<char>, k: int, e: int)
    requires
        0 <= k <= e <= s.len(),
        forall|m: int| k <= m < e ==> is_digit(s[m]),
        !(e < s.len() && is_digit(s[e])),
    ensures
        digits_end(s, k) == e,
    decreases e - k,
{
    if k < e {
        lemma_digits_end(s, k + 1, e);
    }
}

proof fn lemma_number(s: Seq<char>, i: int, n: u32)
    requires
        at(s, i, digits(n as nat)),
        i + digits(n as nat).len() < s.len(),
        !is_digit(s[i + digits(n as nat).len()]),
    ensures
        parse_number(s, i) == Some((n, i + digits(n as nat).len())),
{
    let d = digits(n as nat);
    lemma_digits_shape(n as nat);
    lemma_at_index(s, i, d, 0);
    assert forall|m: int| i <= m < i + d.len() implies is_digit(s[m]) by {
        lemma_at_index(s, i, d, m - i);
    }
    lemma_digits_end(s, i, i + d.len());
    lemma_digits_value(s, i, n as nat);
}

proof fn lemma_hex_digit(n: u32)
    requires
        n < 16,
    ensures
        hex_value(hex_digit(n)) == n,
{
}

proof fn lemma_body(s: Seq<char>, i: int, x: Seq<char>)
    requires
        at(s, i, escape(x) + seq!['"']),
    ensures
        string_body(s, i) == Some((x, i + escape(x).len() + 1)),
    decreases x.len(),
{
    if x.len() == 0 {
        lemma_at_index(s, i, escape(x) + seq!['"'], 0);
    } else {
        let c = x[0];
        let e = escape_char(c);
        let r = x.drop_first();
        assert(escape(x) + seq!['"'] == e + (escape(r) + seq!['"']));
        lemma_at_concat(s, i, e, escape(r) + seq!['"']);
        lemma_body(s, i + e.len(), r);
        assert(seq![c] + r =~= x);
        lemma_at_index(s, i, e, 0);
        if e.len() >= 2 {
            lemma_at_index(s, i, e, 1);
        }
        if (c as u32) < 0x20 && c != '\x08' && c != '\x0c' && c != '\n' && c != '\r' && c
            != '\t' {
            let v = c as u32;
            lemma_at_index(s, i, e, 2);
            lemma_at_index(s, i, e, 3);
            lemma_at_index(s, i, e, 4);
            lemma_at_index(s, i, e, 5);
            lemma_hex_digit(v / 16);
            lemma_hex_digit(v % 16);
            assert(e.len() == 6);
            assert(s[i + 1] == 'u');
            assert(s[i + 2] == '0');
            assert(s[i + 3] == '0');
            assert(hex_value(s[i + 2]) == 0);
            assert(hex_value(s[i + 3]) == 0);
            assert(hex_value(s[i + 4]) * 16 + hex_value(s[i + 5]) == v);
            assert(i + 1 + 4 < s.len());
            assert(hex_value(s[i + 4]) >= 0);
            assert(hex_value(s[i + 5]) >= 0);
            let w = hex_value(s[i + 2]) * 4096 + hex_value(s[i + 3]) * 256 + hex_value(s[i + 4])
                * 16 + hex_value(s[i + 5]);
            assert(w == v);
            assert(is_scalar(w as u32));
            assert((c as u32) == (w as u32));
            assert(exists|x: char| #[trigger] (x as u32) == w as u32);
            let y = choose|x: char| #[trigger] (x as u32) == w as u32;
            assert(y as u32 == c as u32);
            lemma_char_code(y, c);
            assert(unescape(s, i + 1) == Some((c, i + 6)));
        }
    }
}

proof fn lemma_string(s: Seq<char>, i: int, x: Seq<char>)
    requires
        at(s, i, quoted(x)),
    ensures
        parse_string(s, i) == Some((x, i + quoted(x).len())),
{
    assert(quoted(x) == seq!['"'] + (escape(x) + seq!['"']));
    lemma_at_concat(s, i, seq!['"'], escape(x) + seq!['"']);
    lemma_expect_at(s, i, '"');
    lemma_body(s, i + 1, x);
}

/// Characters that stand for themselves in a JSON string.
proof fn lemma_escape_plain(x: Seq<char>)
    requires
        forall|k: int|
            0 <= k < x.len() ==> #[trigger] x[k] != '"' && x[k] != '\\' && (x[k] as u32) >= 0x20,
    ensures
        escape(x) == x,
    decreases x.len(),
{
    if x.len() > 0 {
        assert(x[0] != '"' && x[0] != '\\' && (x[0] as u32) >= 0x20);
        lemma_escape_plain(x.drop_first());
        assert(seq![x[0]] + x.drop_first() =~= x);
    }
}

proof fn lemma_key(s: Seq<char>, i: int, k: Seq<char>, text: Seq<char>)
    requires
        forall|m: int|
            0 <= m < k.len() ==> #[trigger] k[m] != '"' && k[m] != '\\' && (k[m] as u32) >= 0x20,
        text == seq!['"'] + k + seq!['"', ':'],
        at(s, i, text),
    ensures
        parse_key(s, i, k) == Some(i + text.len()),
        parse_string(s, i) == Some((k, i + quoted(k).len())),
        expect(s, i + quoted(k).len(), ':') == Some(i + text.len()),
{
    lemma_escape_plain(k);
    assert(text == quoted(k) + seq![':']);
    lemma_at_concat(s, i, quoted(k), seq![':']);
    lemma_string(s, i, k);
    lemma_expect_at(s, i + quoted(k).len(), ':');
}

proof fn lemma_members_next(s: Seq<char>, i: int, f: Fields, g: Fields, j: int)
    requires
        parse_member(s, i, f) == Some((g, j)),
        expect(s, j, ',') == Some(j + 1),
        j >= i,
    ensures
        parse_members(s, i, f) == parse_members(s, j + 1, g),
{
}

proof fn lemma_members_last(s: Seq<char>, i: int, f: Fields, g: Fields, j: int)
    requires
        parse_member(s, i, f) == Some((g, j)),
        expect(s, j, ',') is None,
        expect(s, j, '}') == Some(j + 1),
    ensures
        parse_members(s, i, f) == Some((g, j + 1)),
{
}

proof fn lemma_task_steps(s: Seq<char>, i: int, t: TaskSpec, e: int)
    requires
        expect(s, i, '{') == Some(i + 1),
        parse_members(s, i + 1, no_fields()) == Some(
            (Fields { id: Some(t.id), name: Some(t.name), owner: Some(t.owner) }, e),
        ),
    ensures
        parse_task(s, i) == Some((t, e)),
{
}

#[verifier::rlimit(100)]
proof fn lemma_task(s: Seq<char>, i: int, t: TaskSpec)
    requires
        at(s, i, task_json(t)),
        i + task_json(t).len() < s.len(),
        !is_digit(s[i + task_json(t).len()]),
    ensures
        parse_task(s, i) == Some((t, i + task_json(t).len())),
{
    let d = digits(t.id as nat);
    let a1 = seq!['{'];
    let a2 = a1 + id_key();
    let a3 = a2 + d;
    let a4 = a3 + name_key();
    let a5 = a4 + quoted(t.name);
    let a6 = a5 + owner_key();
    let a7 = a6 + quoted(t.owner);
    assert(task_json(t) == a7 + seq!['}']);
    lemma_at_concat(s, i, a7, seq!['}']);
    lemma_at_concat(s, i, a6, quoted(t.owner));
    lemma_at_concat(s, i, a5, owner_key());
    lemma_at_concat(s, i, a4, quoted(t.name));
    lemma_at_concat(s, i, a3, name_key());
    lemma_at_concat(s, i, a2, d);
    lemma_at_concat(s, i, a1, id_key());
    lemma_expect_at(s, i, '{');
    let f0 = no_fields();
    let f1 = Fields { id: Some(t.id), name: None, owner: None };
    let f2 = Fields { id: Some(t.id), name: Some(t.name), owner: None };
    let f3 = Fields { id: Some(t.id), name: Some(t.name), owner: Some(t.owner) };
    // "id":<digits>
    let j1 = i + 1;
    assert(id_key() =~= seq!['"'] + seq!['i', 'd'] + seq!['"', ':']);
    lemma_key(s, j1, seq!['i', 'd'], id_key());
    let j2 = j1 + 5;
    lemma_at_index(s, i + a3.len(), name_key(), 0);
    lemma_number(s, j2, t.id);
    let j3 = j2 + d.len();
    assert(parse_member(s, j1, f0) == Some((f1, j3)));
    // ,"name":<string>
    assert(name_key() == seq![','] + seq!['"', 'n', 'a', 'm', 'e', '"', ':']);
    lemma_at_concat(s, j3, seq![','], seq!['"', 'n', 'a', 'm', 'e', '"', ':']);
    lemma_expect_at(s, j3, ',');
    assert(seq!['"', 'n', 'a', 'm', 'e', '"', ':'] =~= seq!['"'] + seq!['n', 'a', 'm', 'e'] + seq![
        '"',
        ':',
    ]);
    lemma_key(s, j3 + 1, seq!['n', 'a', 'm', 'e'], seq!['"', 'n', 'a', 'm', 'e', '"', ':']);
    let j5 = j3 + 8;
    lemma_string(s, j5, t.name);
    let j6 = j5 + quoted(t.name).len();
    assert(seq!['n', 'a', 'm', 'e'] != seq!['i', 'd']) by {
        assert(seq!['n', 'a', 'm', 'e'].len() != seq!['i', 'd'].len());
    }
    assert(parse_member(s, j3 + 1, f1) == Some((f2, j6)));
    // ,"owner":<string>
    assert(owner_key() == seq![','] + seq!['"', 'o', 'w', 'n', 'e', 'r', '"', ':']);
    lemma_at_concat(s, j6, seq![','], seq!['"', 'o', 'w', 'n', 'e', 'r', '"', ':']);
    lemma_expect_at(s, j6, ',');
    assert(seq!['"', 'o', 'w', 'n', 'e', 'r', '"', ':'] =~= seq!['"'] + seq![
        'o',
        'w',
        'n',
        'e',
        'r',
    ] + seq!['"', ':']);
    lemma_key(
        s,
        j6 + 1,
        seq!['o', 'w', 'n', 'e', 'r'],
        seq!['"', 'o', 'w', 'n', 'e', 'r', '"', ':'],
    );
    let j8 = j6 + 9;
    lemma_string(s, j8, t.owner);
    let j9 = j8 + quoted(t.owner).len();
    assert(seq!['o', 'w', 'n', 'e', 'r'] != seq!['i', 'd']) by {
        assert(seq!['o', 'w', 'n', 'e', 'r'].len() != seq!['i', 'd'].len());
    }
    assert(seq!['o', 'w', 'n', 'e', 'r'] != seq!['n', 'a', 'm', 'e']) by {
        assert(seq!['o', 'w', 'n', 'e', 'r'].len() != seq!['n', 'a', 'm', 'e'].len());
    }
    assert(parse_member(s, j6 + 1, f2) == Some((f3, j9)));
    // }
    lemma_at_index(s, i + a7.len(), seq!['}'], 0);
    lemma_expect_at(s, j9, '}');
    lemma_members_last(s, j6 + 1, f2, f3, j9);
    lemma_members_next(s, j3 + 1, f1, f2, j6);
    lemma_members_next(s, j1, f0, f1, j3);
    lemma_task_steps(s, i, t, j9 + 1);
}

proof fn lemma_items_last(s: Seq<char>, i: int, t: TaskSpec, j: int)
    requires
        parse_task(s, i) == Some((t, j)),
        expect(s, j, ',') is None,
        expect(s, j, ']') == Some(j + 1),
    ensures
        parse_items(s, i) == Some((seq![t], j + 1)),
{
}

proof fn lemma_items_next(
    s: Seq<char>,
    i: int,
    t: TaskSpec,
    j: int,
    rest: Seq<TaskSpec>,
    e: int,
)
    requires
        parse_task(s, i) == Some((t, j)),
        expect(s, j, ',') == Some(j + 1),
        j >= i,
        parse_items(s, j + 1) == Some((rest, e)),
    ensures
        parse_items(s, i) == Some((seq![t] + rest, e)),
{
}

#[verifier::rlimit(100)]
proof fn lemma_items(s: Seq<char>, i: int, ts: Seq<TaskSpec>)
    requires
        ts.len() >= 1,
        at(s, i, items_json(ts) + seq![']']),
    ensures
        parse_items(s, i) == Some((ts, i + items_json(ts).len() + 1)),
    decreases ts.len(),
{
    let t = ts[0];
    let tj = task_json(t);
    let j = i + tj.len();
    if ts.len() == 1 {
        lemma_at_concat(s, i, tj, seq![']']);
        lemma_at_index(s, j, seq![']'], 0);
        lemma_task(s, i, t);
        lemma_expect_at(s, j, ']');
        lemma_items_last(s, i, t, j);
        assert(ts =~= seq![t]);
    } else {
        let r = ts.drop_first();
        assert(items_json(ts) + seq![']'] == tj + (seq![','] + (items_json(r) + seq![']'])));
        lemma_at_concat(s, i, tj, seq![','] + (items_json(r) + seq![']']));
        lemma_at_concat(s, j, seq![','], items_json(r) + seq![']']);
        lemma_at_index(s, j, seq![','], 0);
        lemma_task(s, i, t);
        lemma_expect_at(s, j, ',');
        lemma_items(s, j + 1, r);
        lemma_items_next(s, i, t, j, r, j + 1 + items_json(r).len() + 1);
        assert(seq![t] + r =~= ts);
    }
}

/// The list document of `ts` holds, from position 10 on, the tasks and the
/// closing bracket.
#[verifier::rlimit(100)]
proof fn lemma_list_items(ts: Seq<TaskSpec>)
    ensures
        (match expect(list_json(ts), 10, ']') {
            Some(k) => Some((Seq::<TaskSpec>::empty(), k)),
            None => parse_items(list_json(ts), 10),
        }) == Some((ts, 10 + items_json(ts).len() as int + 1)),
        expect(list_json(ts), 10 + items_json(ts).len() as int + 1, '}') == Some(list_json(ts).len() as int),
{
    let s = list_json(ts);
    let body = items_json(ts) + seq![']'];
    assert(s == tasks_key() + (body + seq!['}']));
    assert(s.subrange(0, s.len() as int) =~= s);
    lemma_at_concat(s, 0, tasks_key(), body + seq!['}']);
    lemma_at_concat(s, 10, body, seq!['}']);
    if ts.len() == 0 {
        assert(body =~= seq![']']);
        lemma_expect_at(s, 10, ']');
    } else {
        lemma_at_concat(s, 10, items_json(ts), seq![']']);
        lemma_items(s, 10, ts);
        assert(items_json(ts)[0] == '{');
        lemma_at_index(s, 10, items_json(ts), 0);
    }
    lemma_expect_at(s, 10 + body.len() as int, '}');
}

/// The steps of reading a task-list document, put together.
proof fn lemma_list_steps(s: Seq<char>, ts: Seq<TaskSpec>, j4: int)
    requires
        expect(s, 0, '{') == Some(1int),
        parse_key(s, 1, seq!['t', 'a', 's', 'k', 's']) == Some(9int),
        expect(s, 9, '[') == Some(10int),
        (match expect(s, 10, ']') {
            Some(k) => Some((Seq::<TaskSpec>::empty(), k)),
            None => parse_items(s, 10),
        }) == Some((ts, j4)),
        expect(s, j4, '}') == Some(s.len() as int),
    ensures
        parse_list(s) == Some(ts),
{
}

/// Reading a task-list document that the encoder wrote gives back exactly
/// the tasks, in order, with their ids, names and owners.
pub proof fn lemma_list_round_trip(ts: Seq<TaskSpec>)
    ensures
        parse_list(list_json(ts)) == Some(ts),
{
    lemma_list_head(ts);
    lemma_list_items(ts);
    lemma_list_steps(list_json(ts), ts, 10 + items_json(ts).len() as int + 1);
}

/// The list document of `ts` opens with `{"tasks":[`.
#[verifier::rlimit(100)]
proof fn lemma_list_head(ts: Seq<TaskSpec>)
    ensures
        expect(list_json(ts), 0, '{') == Some(1int),
        parse_key(list_json(ts), 1, seq!['t', 'a', 's', 'k', 's']) == Some(9int),
        expect(list_json(ts), 9, '[') == Some(10int),
{
    let s = list_json(ts);
    let head = seq!['"', 't', 'a', 's', 'k', 's', '"', ':'];
    assert(tasks_key() =~= seq!['{'] + head + seq!['[']);
    assert(s.subrange(0, s.len() as int) =~= s);
    assert(s =~= tasks_key() + (items_json(ts) + seq![']', '}']));
    lemma_at_concat(s, 0, tasks_key(), items_json(ts) + seq![']', '}']);
    lemma_at_concat(s, 0, seq!['{'] + head, seq!['[']);
    lemma_at_concat(s, 0, seq!['{'], head);
    lemma_expect_at(s, 0, '{');
    assert(head =~= seq!['"'] + seq!['t', 'a', 's', 'k', 's'] + seq!['"', ':']);
    lemma_key(s, 1, seq!['t', 'a', 's', 'k', 's'], head);
    lemma_expect_at(s, 9, '[');
}

} // verus!
