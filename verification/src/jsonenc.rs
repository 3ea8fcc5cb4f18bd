//! Encoding a key/value mapping as a JSON object with string values.
//!
//! Keys and values are escaped as JSON strings: `"` and `\` get a
//! backslash, and control characters become `\u00XX`; every other
//! character stands for itself.

use vstd::prelude::*;
use crate::kv::Mapping;
use crate::strutil::digit_char;
use crate::strutil::push_char;

verus! {

/// The hexadecimal digit character for `d`, lower case.
pub open spec fn hex_char(d: int) -> char {
    if d < 10 {
        digit_char(d)
    } else if d == 10 {
        'a'
    } else if d == 11 {
        'b'
    } else if d == 12 {
        'c'
    } else if d == 13 {
        'd'
    } else if d == 14 {
        'e'
    } else {
        'f'
    }
}

/// The JSON escape of one character.
pub open spec fn esc_char(c: char) -> Seq<char> {
    if c == '"' {
        seq!['\\', '"']
    } else if c == '\\' {
        seq!['\\', '\\']
    } else if (c as int) < 32 {
        seq!['\\', 'u', '0', '0', hex_char((c as int) / 16), hex_char((c as int) % 16)]
    } else {
        seq![c]
    }
}

/// The JSON escape of a character sequence.
pub open spec fn esc(s: Seq<char>) -> Seq<char>
    decreases s.len(),
{
    if s.len() == 0 {
        Seq::empty()
    } else {
        esc_char(s[0]) + esc(s.skip(1))
    }
}

/// A JSON string literal: the escaped text in double quotes.
pub open spec fn json_string(s: Seq<char>) -> Seq<char> {
    seq!['"'] + esc(s) + seq!['"']
}

/// One member of a JSON object: `"key":"value"`.
pub open spec fn json_member(e: (Seq<char>, Seq<char>)) -> Seq<char> {
    json_string(e.0) + seq![':'] + json_string(e.1)
}

/// The members of a JSON object, comma-separated.
pub open spec fn json_members(es: Seq<(Seq<char>, Seq<char>)>) -> Seq<char>
    decreases es.len(),
{
    if es.len() == 0 {
        Seq::empty()
    } else if es.len() == 1 {
        json_member(es[0])
    } else {
        json_member(es[0]) + seq![','] + json_members(es.skip(1))
    }
}

/// A JSON object with the given members, in order.
pub open spec fn json_object(es: Seq<(Seq<char>, Seq<char>)>) -> Seq<char> {
    seq!['{'] + json_members(es) + seq!['}']
}

proof fn lemma_esc_snoc(s: Seq<char>, c: char)
    ensures
        esc(s.push(c)) =~= esc(s) + esc_char(c),
    decreases s.len(),
{
    if s.len() == 0 {
        assert(s.push(c)[0] == c);
        assert(s.push(c).skip(1) =~= Seq::<char>::empty());
        assert(esc(s.push(c).skip(1)) =~= Seq::<char>::empty());
        assert(esc(s.push(c)) =~= esc_char(c));
        assert(esc(s) =~= Seq::<char>::empty());
        assert(esc(s) + esc_char(c) =~= esc_char(c));
    } else {
        assert(s.push(c).skip(1) =~= s.skip(1).push(c));
        lemma_esc_snoc(s.skip(1), c);
        assert(s.push(c)[0] == s[0]);
        assert(esc(s.push(c)) == esc_char(s[0]) + esc(s.push(c).skip(1)));
        assert(esc(s.push(c).skip(1)) == esc(s.skip(1)) + esc_char(c));
        assert(esc_char(s[0]) + (esc(s.skip(1)) + esc_char(c)) =~= (esc_char(s[0]) + esc(
            s.skip(1),
        )) + esc_char(c));
    }
}

proof fn lemma_members_snoc(es: Seq<(Seq<char>, Seq<char>)>, e: (Seq<char>, Seq<char>))
    ensures
        es.len() == 0 ==> json_members(es.push(e)) =~= json_member(e),
        es.len() > 0 ==> json_members(es.push(e)) =~= json_members(es) + seq![','] + json_member(
            e,
        ),
    decreases es.len(),
{
    if es.len() == 0 {
        assert(es.push(e)[0] == e);
    } else {
        assert(es.push(e).skip(1) =~= es.skip(1).push(e));
        lemma_members_snoc(es.skip(1), e);
        assert(es.push(e)[0] == es[0]);
        if es.len() == 1 {
            assert(json_members(es) =~= json_member(es[0]));
        }
    }
}

fn hex_char_exec(d: u32) -> (c: char)
    requires
        d < 16,
    ensures
        c == hex_char(d as int),
{
    match d {
        0 => '0',
        1 => '1',
        2 => '2',
        3 => '3',
        4 => '4',
        5 => '5',
        6 => '6',
        7 => '7',
        8 => '8',
        9 => '9',
        10 => 'a',
        11 => 'b',
        12 => 'c',
        13 => 'd',
        14 => 'e',
        _ => 'f',
    }
}

/// Append the JSON escape of one character.
fn push_escaped(out: &mut String, c: char)
    ensures
        final (out)@ == old(out)@ + esc_char(c),
{
    if c == '"' {
        push_char(out, '\\');
        push_char(out, '"');
        proof {
            assert(old(out)@.push('\\').push('"') =~= old(out)@ + esc_char(c));
        }
    } else if c == '\\' {
        push_char(out, '\\');
        push_char(out, '\\');
        proof {
            assert(old(out)@.push('\\').push('\\') =~= old(out)@ + esc_char(c));
        }
    } else {
        let u = c as u32;
        if u < 32 {
            push_char(out, '\\');
            push_char(out, 'u');
            push_char(out, '0');
            push_char(out, '0');
            push_char(out, hex_char_exec(u / 16));
            push_char(out, hex_char_exec(u % 16));
            proof {
                assert(old(out)@.push('\\').push('u').push('0').push('0').push(
                    hex_char((c as int) / 16),
                ).push(hex_char((c as int) % 16)) =~= old(out)@ + esc_char(c));
            }
        } else {
            push_char(out, c);
            proof {
                assert(old(out)@.push(c) =~= old(out)@ + esc_char(c));
            }
        }
    }
}

/// Append a JSON string literal for `s`.
fn push_json_string(out: &mut String, s: &str)
    ensures
        final (out)@ == old(out)@ + json_string(s@),
{
    let n = s.unicode_len();
    push_char(out, '"');
    let mut i: usize = 0;
    while i < n
        invariant
            n == s@.len(),
            i <= n,
            out@ == old(out)@.push('"') + esc(s@.take(i as int)),
        decreases n - i,
    {
        proof {
            assert(esc(s@.take(0)) =~= Seq::<char>::empty());
        }
        let c = s.get_char(i);
        push_escaped(out, c);
        proof {
            assert(s@.take(i + 1) =~= s@.take(i as int).push(s@[i as int]));
            lemma_esc_snoc(s@.take(i as int), s@[i as int]);
            assert((old(out)@.push('"') + esc(s@.take(i as int))) + esc_char(s@[i as int])
                =~= old(out)@.push('"') + esc(s@.take(i + 1)));
        }
        i += 1;
    }
    push_char(out, '"');
    proof {
        assert(s@.take(n as int) =~= s@);
        assert((old(out)@.push('"') + esc(s@)).push('"') =~= old(out)@ + json_string(s@));
    }
}

/// Encode a mapping as a JSON object with string values, members in the
/// mapping's entry order.
pub fn encode_object(m: &Mapping) -> (r: String)
    ensures
        r@ == json_object(m.entries_view()),
{
    let es = m.entries();
    let n = es.len();
    let mut out = String::new();
    push_char(&mut out, '{');
    let mut i: usize = 0;
    while i < n
        invariant
            n == es@.len(),
            n == m.entries_view().len(),
            forall|k: int|
                0 <= k < n ==> es@[k].0@ == m.entries_view()[k].0 && es@[k].1@
                    == m.entries_view()[k].1,
            i <= n,
            out@ == seq!['{'] + json_members(m.entries_view().take(i as int)),
        decreases n - i,
    {
        proof {
            assert(json_members(m.entries_view().take(0)) =~= Seq::<char>::empty());
        }
        if i > 0 {
            push_char(&mut out, ',');
        }
        push_json_string(&mut out, es[i].0.as_str());
        push_char(&mut out, ':');
        push_json_string(&mut out, es[i].1.as_str());
        proof {
            let ev = m.entries_view();
            let e = ev[i as int];
            assert(ev.take(i + 1) =~= ev.take(i as int).push(e));
            lemma_members_snoc(ev.take(i as int), e);
            if i > 0 {
                assert(((((seq!['{'] + json_members(ev.take(i as int))).push(',') + json_string(
                    e.0,
                )).push(':')) + json_string(e.1)) =~= seq!['{'] + json_members(ev.take(i + 1)));
            } else {
                assert((((seq!['{'] + json_members(ev.take(0int)) + json_string(e.0)).push(':'))
                    + json_string(e.1)) =~= seq!['{'] + json_members(ev.take(1int)));
            }
        }
        i += 1;
    }
    push_char(&mut out, '}');
    proof {
        assert(m.entries_view().take(n as int) =~= m.entries_view());
        assert((seq!['{'] + json_members(m.entries_view())).push('}') =~= json_object(
            m.entries_view(),
        ));
    }
    out
}

} // verus!
