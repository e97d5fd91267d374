//! Latin collation key for mailbox names: Han characters are replaced by
//! their toneless pinyin, every other character by its uppercase mapping.

use crate::chars::str_to_chars;
use pinyin::ToPinyin;
use vstd::prelude::*;

verus! {

use vstd::string::StringExecFns;

/// The toneless pinyin of a single character, if it has one.
pub uninterp spec fn pinyin_plain_of(c: char) -> Option<Seq<char>>;

/// The Unicode uppercase mapping of a single character.
pub uninterp spec fn upper_of(c: char) -> Seq<char>;

/// Relies on pinyin's `ToPinyin` impl for `char` and `Pinyin::plain`: the
/// toneless pinyin of a character depends on that character alone.
#[verifier::external_body]
fn char_pinyin(c: char) -> (r: Option<String>)
    ensures
        match r {
            Some(s) => pinyin_plain_of(c) == Some(s@),
            None => pinyin_plain_of(c) is None,
        },
{
    c.to_pinyin().map(|p| String::from_str(p.plain()))
}

/// Relies on `char::to_uppercase`: the uppercase mapping of a character
/// depends on that character alone.
#[verifier::external_body]
fn char_upper(c: char) -> (r: String)
    ensures
        r@ == upper_of(c),
{
    c.to_uppercase().collect()
}

/// The collation form of one character: its pinyin when it has one,
/// otherwise its uppercase mapping.
pub open spec fn pinyin_repr_char(c: char) -> Seq<char> {
    match pinyin_plain_of(c) {
        Some(p) => p,
        None => upper_of(c),
    }
}

/// The collation form of a whole string: each character's form, concatenated.
pub open spec fn pinyin_repr(s: Seq<char>) -> Seq<char>
    decreases s,
{
    if s.len() == 0 {
        Seq::<char>::empty()
    } else {
        pinyin_repr_char(s[0]) + pinyin_repr(s.drop_first())
    }
}

/// The collation form distributes over concatenation.
pub proof fn lemma_pinyin_repr_concat(a: Seq<char>, b: Seq<char>)
    ensures
        pinyin_repr(a + b) == pinyin_repr(a) + pinyin_repr(b),
    decreases a,
{
    if a.len() == 0 {
        assert(a + b =~= b);
        assert(pinyin_repr(a) + pinyin_repr(b) =~= pinyin_repr(b));
    } else {
        assert((a + b).drop_first() =~= a.drop_first() + b);
        lemma_pinyin_repr_concat(a.drop_first(), b);
        assert(pinyin_repr(a + b) =~= pinyin_repr(a) + pinyin_repr(b));
    }
}

proof fn lemma_pinyin_repr_singleton(c: char)
    ensures
        pinyin_repr(seq![c]) == pinyin_repr_char(c),
{
    let s = seq![c];
    assert(s.drop_first().len() == 0);
    assert(pinyin_repr(s.drop_first()) =~= Seq::<char>::empty());
    assert(pinyin_repr(s) =~= pinyin_repr_char(c) + Seq::<char>::empty());
    assert(pinyin_repr_char(c) + Seq::<char>::empty() =~= pinyin_repr_char(c));
}

/// Builds the collation key of `input`: pinyin for Han characters, the
/// uppercase mapping for the rest, concatenated in order.
pub fn get_pin_yin(input: &str) -> (r: String)
    ensures
        r@ == pinyin_repr(input@),
{
    let cs = str_to_chars(input);
    let mut out = String::new();
    let mut i: usize = 0;
    while i < cs.len()
        invariant
            0 <= i <= cs.len(),
            cs@ == input@,
            out@ == pinyin_repr(input@.take(i as int)),
        decreases cs.len() - i,
    {
        let c = cs[i];
        match char_pinyin(c) {
            Some(p) => out.append(p.as_str()),
            None => {
                let u = char_upper(c);
                out.append(u.as_str());
            },
        }
        proof {
            lemma_pinyin_repr_concat(input@.take(i as int), seq![input@[i as int]]);
            assert(input@.take(i as int) + seq![input@[i as int]] =~= input@.take(i + 1 as int));
            lemma_pinyin_repr_singleton(input@[i as int]);
        }
        i = i + 1;
    }
    proof {
        assert(input@.take(cs@.len() as int) =~= input@);
    }
    out
}

} // verus!
