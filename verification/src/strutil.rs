//! Small verified string helpers: building strings character by
//! character, decimal formatting, and ASCII case-insensitive comparison.

use vstd::prelude::*;

verus! {

/// Relies on std's String::push: appends exactly one character.
#[verifier::external_body]
pub(crate) fn push_char(s: &mut String, c: char)
    ensures
        final (s)@ == old(s)@.push(c),
{
    s.push(c);
}

/// The decimal digit character for `d`.
pub open spec fn digit_char(d: int) -> char {
    if d == 0 {
        '0'
    } else if d == 1 {
        '1'
    } else if d == 2 {
        '2'
    } else if d == 3 {
        '3'
    } else if d == 4 {
        '4'
    } else if d == 5 {
        '5'
    } else if d == 6 {
        '6'
    } else if d == 7 {
        '7'
    } else if d == 8 {
        '8'
    } else {
        '9'
    }
}

/// The decimal rendering of a non-negative number, without leading zeros
/// (a single `0` for zero).
pub open spec fn dec_str(n: int) -> Seq<char>
    recommends
        n >= 0,
    decreases n,
{
    if n < 10 {
        seq![digit_char(n)]
    } else {
        dec_str(n / 10).push(digit_char(n % 10))
    }
}

fn digit_char_exec(d: u16) -> (c: char)
    requires
        d < 10,
    ensures
        c == digit_char(d as int),
{
    match d {
        0 => '0',
        1 => '1',
        2 => '2',
        3 => '3',
        4 => '4',
        5 => '5',
        6 => '6',
        7 => '7',
        8 => '8',
        _ => '9',
    }
}

/// The reversal of a sequence.
pub open spec fn rev<A>(s: Seq<A>) -> Seq<A> {
    Seq::new(s.len(), |i: int| s[s.len() - 1 - i])
}

/// Render a number in decimal.
pub fn u16_to_dec(n: u16) -> (s: String)
    ensures
        s@ == dec_str(n as int),
{
    let mut digits: Vec<char> = Vec::new();
    let mut m: u16 = n;
    loop
        invariant_except_break
            dec_str(n as int) =~= (if digits@.len() == 0 {
                dec_str(m as int)
            } else {
                dec_str(m as int) + rev(digits@)
            }),
        ensures
            dec_str(n as int) =~= rev(digits@),
        decreases m,
    {
        let d = m % 10;
        let m2 = m / 10;
        digits.push(digit_char_exec(d));
        proof {
            let ds0 = digits@.drop_last();
            assert(rev(digits@) =~= seq![digit_char(d as int)] + rev(ds0));
            if m >= 10 {
                assert(dec_str(m as int) == dec_str(m2 as int).push(digit_char(m as int % 10)));
                assert(dec_str(m2 as int).push(digit_char(d as int)) =~= dec_str(m2 as int)
                    + seq![digit_char(d as int)]);
                if ds0.len() == 0 {
                    assert(dec_str(m as int) =~= dec_str(m2 as int) + rev(digits@));
                } else {
                    assert(dec_str(m2 as int) + seq![digit_char(d as int)] + rev(ds0) =~= dec_str(
                        m2 as int,
                    ) + rev(digits@));
                }
            } else {
                assert(dec_str(m as int) =~= seq![digit_char(d as int)]);
                if ds0.len() == 0 {
                    assert(dec_str(n as int) =~= rev(digits@));
                } else {
                    assert(seq![digit_char(d as int)] + rev(ds0) =~= rev(digits@));
                }
            }
        }
        if m2 == 0 {
            break ;
        }
        m = m2;
    }
    let mut out = String::new();
    let nd = digits.len();
    let mut j: usize = nd;
    while j > 0
        invariant
            nd == digits@.len(),
            j <= nd,
            out@ =~= rev(digits@).take(nd - j),
        decreases j,
    {
        j -= 1;
        push_char(&mut out, digits[j]);
        proof {
            assert(rev(digits@)[nd - j - 1] == digits@[j as int]);
            assert(rev(digits@).take(nd - j) =~= rev(digits@).take(nd - j - 1).push(
                digits@[j as int],
            ));
        }
    }
    proof {
        assert(rev(digits@).take(nd as int) =~= rev(digits@));
        assert(out@ == dec_str(n as int));
    }
    out
}

/// Character-for-character string equality.
pub fn str_eq(a: &str, b: &str) -> (r: bool)
    ensures
        r == (a@ == b@),
{
    let na = a.unicode_len();
    let nb = b.unicode_len();
    if na != nb {
        return false;
    }
    let mut i: usize = 0;
    while i < na
        invariant
            na == a@.len(),
            na == b@.len(),
            i <= na,
            forall|j: int| 0 <= j < i ==> a@[j] == b@[j],
        decreases na - i,
    {
        if a.get_char(i) != b.get_char(i) {
            return false;
        }
        i += 1;
    }
    proof {
        assert(a@ =~= b@);
    }
    true
}

/// The Unicode scalar value of `c`, with ASCII upper-case letters folded
/// to lower case.
pub open spec fn lower_val(c: char) -> int {
    if 'A' <= c && c <= 'Z' {
        c as int + 32
    } else {
        c as int
    }
}

/// ASCII case-insensitive equality of two character sequences.
pub open spec fn eq_ci(a: Seq<char>, b: Seq<char>) -> bool {
    a.len() == b.len() && forall|i: int| 0 <= i < a.len() ==> lower_val(a[i]) == lower_val(b[i])
}

fn lower_val_exec(c: char) -> (v: u32)
    ensures
        v as int == lower_val(c),
{
    let u = c as u32;
    if u >= 65 && u <= 90 {
        u + 32
    } else {
        u
    }
}

/// ASCII case-insensitive string equality.
pub fn str_eq_ci(a: &str, b: &str) -> (r: bool)
    ensures
        r == eq_ci(a@, b@),
{
    let na = a.unicode_len();
    let nb = b.unicode_len();
    if na != nb {
        return false;
    }
    let mut i: usize = 0;
    while i < na
        invariant
            na == a@.len(),
            na == b@.len(),
            i <= na,
            forall|j: int| 0 <= j < i ==> lower_val(a@[j]) == lower_val(b@[j]),
        decreases na - i,
    {
        if lower_val_exec(a.get_char(i)) != lower_val_exec(b.get_char(i)) {
            return false;
        }
        i += 1;
    }
    true
}

} // verus!
