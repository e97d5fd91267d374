//! Conversions between strings and character vectors, and the whitespace
//! predicate used when message text is trimmed.

use vstd::prelude::*;

verus! {

/// Relies on `str::chars`: it yields exactly the string's characters in order.
#[verifier::external_body]
pub fn str_to_chars(s: &str) -> (v: Vec<char>)
    ensures
        v@ == s@,
{
    s.chars().collect()
}

/// Relies on `String`'s `FromIterator<char>` impl: collecting characters
/// builds the string holding exactly those characters in order.
#[verifier::external_body]
pub fn chars_to_string(v: &Vec<char>) -> (s: String)
    ensures
        s@ == v@,
{
    v.iter().collect()
}

/// The characters with the Unicode `White_Space` property, which is what
/// `str::trim` strips from the ends of a line.
pub open spec fn is_space(c: char) -> bool {
    c == ' ' || c == '\t' || c == '\n' || c == '\r' || c == '\u{b}' || c == '\u{c}'
        || c == '\u{85}' || c == '\u{a0}' || c == '\u{1680}' || c == '\u{2000}'
        || c == '\u{2001}' || c == '\u{2002}' || c == '\u{2003}' || c == '\u{2004}'
        || c == '\u{2005}' || c == '\u{2006}' || c == '\u{2007}' || c == '\u{2008}'
        || c == '\u{2009}' || c == '\u{200a}' || c == '\u{2028}' || c == '\u{2029}'
        || c == '\u{202f}' || c == '\u{205f}' || c == '\u{3000}'
}

/// Whether a character counts as whitespace for trimming.
pub fn is_space_char(c: char) -> (r: bool)
    ensures
        r == is_space(c),
{
    c == ' ' || c == '\t' || c == '\n' || c == '\r' || c == '\u{b}' || c == '\u{c}'
        || c == '\u{85}' || c == '\u{a0}' || c == '\u{1680}' || c == '\u{2000}'
        || c == '\u{2001}' || c == '\u{2002}' || c == '\u{2003}' || c == '\u{2004}'
        || c == '\u{2005}' || c == '\u{2006}' || c == '\u{2007}' || c == '\u{2008}'
        || c == '\u{2009}' || c == '\u{200a}' || c == '\u{2028}' || c == '\u{2029}'
        || c == '\u{202f}' || c == '\u{205f}' || c == '\u{3000}'
}

/// The decimal digit character for a value below ten.
pub open spec fn digit_char(d: nat) -> char {
    if d == 0 {
        '0'
    } else if d == 1 {
        '1'
    } else if d == 2 {
        '2'
    } else if d == 3 {
        '3'
    } else if d == 4 {
        '4'
    } else if d == 5 {
        '5'
    } else if d == 6 {
        '6'
    } else if d == 7 {
        '7'
    } else if d == 8 {
        '8'
    } else {
        '9'
    }
}

/// The decimal rendering of a natural number, without leading zeros.
pub open spec fn dec_str(n: nat) -> Seq<char>
    decreases n,
{
    if n < 10 {
        seq![digit_char(n)]
    } else {
        dec_str(n / 10) + seq![digit_char(n % 10)]
    }
}

fn digit_char_exec(d: u64) -> (c: char)
    requires
        d < 10,
    ensures
        c == digit_char(d as nat),
{
    if d == 0 {
        '0'
    } else if d == 1 {
        '1'
    } else if d == 2 {
        '2'
    } else if d == 3 {
        '3'
    } else if d == 4 {
        '4'
    } else if d == 5 {
        '5'
    } else if d == 6 {
        '6'
    } else if d == 7 {
        '7'
    } else if d == 8 {
        '8'
    } else {
        '9'
    }
}

/// Renders a number in decimal, as the mailbox label suffix needs it.
pub fn u64_to_dec(n: u64) -> (s: String)
    ensures
        s@ == dec_str(n as nat),
{
    let mut digits: Vec<char> = Vec::new();
    let mut m: u64 = n;
    let c0 = digit_char_exec(m % 10);
    proof {
        if m >= 10 {
            assert(dec_str(m as nat) == dec_str((m / 10) as nat) + seq![
                digit_char((m % 10) as nat),
            ]);
        }
        assert(seq![c0].reverse() =~= seq![c0]);
    }
    digits.push(c0);
    proof {
        if m < 10 {
            assert(dec_str(n as nat) =~= digits@.reverse());
        } else {
            assert(dec_str(n as nat) =~= dec_str((m / 10) as nat) + digits@.reverse());
        }
    }
    m = m / 10;
    while m > 0
        invariant
            m == 0 ==> dec_str(n as nat) == digits@.reverse(),
            m > 0 ==> dec_str(n as nat) == dec_str(m as nat) + digits@.reverse(),
        decreases m,
    {
        let c = digit_char_exec(m % 10);
        proof {
            let prev = digits@;
            assert(prev.push(c).reverse() =~= seq![c] + prev.reverse());
            if m >= 10 {
                assert(dec_str(m as nat) == dec_str((m / 10) as nat) + seq![
                    digit_char((m % 10) as nat),
                ]);
                assert(dec_str((m / 10) as nat) + seq![c] + prev.reverse() =~= dec_str(
                    (m / 10) as nat,
                ) + (seq![c] + prev.reverse()));
            } else {
                assert(dec_str(m as nat) =~= seq![c]);
                assert(seq![c] + prev.reverse() =~= prev.push(c).reverse());
            }
        }
        digits.push(c);
        m = m / 10;
    }
    let mut out: Vec<char> = Vec::new();
    let ghost all = digits@;
    let mut i: usize = 0;
    while i < digits.len()
        invariant
            digits@ == all,
            0 <= i <= all.len(),
            out@.len() == i,
            forall|j: int| 0 <= j < i ==> out@[j] == all[all.len() - 1 - j],
        decreases digits.len() - i,
    {
        let c = digits[digits.len() - 1 - i];
        out.push(c);
        i = i + 1;
    }
    proof {
        assert(out@ =~= all.reverse());
    }
    chars_to_string(&out)
}

} // verus!
