//! Message text extraction: a parsed message is a tree of typed parts;
//! the extractor walks it depth-first and renders the displayable text
//! as trimmed, non-empty lines.
//!
//! A leaf part contributes its body verbatim when its declared type is
//! plain text, the text nodes of its markup when it is markup text, and
//! nothing otherwise.  A part with sub-parts contributes its sub-parts'
//! text concatenated in part order, with one precedence rule: when a
//! direct sub-part is a plain-text leaf, markup-text leaves of the same
//! parent are skipped, so plain text wins over a sibling markup
//! alternative.

use crate::chars::{chars_to_string, is_space, is_space_char, str_to_chars};
use vstd::prelude::*;

verus! {

use vstd::string::StringExecFns;

/// One part of a parsed message: its declared content type, its decoded
/// body text, and its sub-parts in message order.
pub struct MailPart {
    pub mimetype: String,
    pub body: String,
    pub parts: Vec<MailPart>,
}

/// The mathematical shape of a [`MailPart`].
pub struct MailPartView {
    pub mimetype: Seq<char>,
    pub body: Seq<char>,
    pub parts: Seq<MailPartView>,
}

pub open spec fn part_view(p: MailPart) -> MailPartView
    decreases p,
{
    MailPartView { mimetype: p.mimetype@, body: p.body@, parts: parts_view(p.parts@) }
}

pub open spec fn parts_view(s: Seq<MailPart>) -> Seq<MailPartView>
    decreases s,
{
    if s.len() == 0 {
        Seq::empty()
    } else {
        seq![part_view(s[0])] + parts_view(s.drop_first())
    }
}

impl View for MailPart {
    type V = MailPartView;

    open spec fn view(&self) -> MailPartView {
        part_view(*self)
    }
}

pub broadcast proof fn lemma_parts_view_len(s: Seq<MailPart>)
    ensures
        (#[trigger] parts_view(s)).len() == s.len(),
    decreases s,
{
    if s.len() > 0 {
        lemma_parts_view_len(s.drop_first());
    }
}

pub broadcast proof fn lemma_parts_view_index(s: Seq<MailPart>, i: int)
    requires
        0 <= i < s.len(),
    ensures
        #[trigger] parts_view(s)[i] == part_view(s[i]),
    decreases s,
{
    lemma_parts_view_len(s);
    if i > 0 {
        lemma_parts_view_index(s.drop_first(), i - 1);
    }
}

/// Whether `s` begins with `prefix`.
pub open spec fn starts_with(s: Seq<char>, prefix: Seq<char>) -> bool {
    s.len() >= prefix.len() && s.take(prefix.len() as int) == prefix
}

/// Compares a string against a prefix, character by character.
#[verifier::loop_isolation(false)]
pub fn str_starts_with(s: &str, prefix: &str) -> (r: bool)
    ensures
        r == starts_with(s@, prefix@),
{
    let cs = str_to_chars(s);
    let ps = str_to_chars(prefix);
    if cs.len() < ps.len() {
        return false;
    }
    let mut i: usize = 0;
    while i < ps.len()
        invariant
            0 <= i <= ps@.len(),
            ps@.len() <= cs@.len(),
            cs@ == s@,
            ps@ == prefix@,
            forall|j: int| 0 <= j < i ==> s@[j] == prefix@[j],
        decreases ps@.len() - i,
    {
        if cs[i] != ps[i] {
            proof {
                assert(s@.take(prefix@.len() as int)[i as int] != prefix@[i as int]);
            }
            return false;
        }
        i = i + 1;
    }
    proof {
        assert(s@.take(prefix@.len() as int) =~= prefix@);
    }
    true
}

/// `s` without its leading whitespace.
pub open spec fn trim_left(s: Seq<char>) -> Seq<char>
    decreases s.len(),
{
    if s.len() > 0 && is_space(s[0]) {
        trim_left(s.drop_first())
    } else {
        s
    }
}

/// `s` without its trailing whitespace.
pub open spec fn trim_right(s: Seq<char>) -> Seq<char>
    decreases s.len(),
{
    if s.len() > 0 && is_space(s.last()) {
        trim_right(s.drop_last())
    } else {
        s
    }
}

/// `s` without leading and trailing whitespace.
pub open spec fn trim_spec(s: Seq<char>) -> Seq<char> {
    trim_right(trim_left(s))
}

proof fn lemma_trim_left_skip(s: Seq<char>, a: int)
    requires
        0 <= a <= s.len(),
        forall|j: int| 0 <= j < a ==> is_space(#[trigger] s[j]),
        a < s.len() ==> !is_space(s[a]),
    ensures
        trim_left(s) == s.skip(a),
    decreases a,
{
    if a == 0 {
        assert(s.skip(0) =~= s);
    } else {
        let rest = s.drop_first();
        assert(forall|j: int| 0 <= j < a - 1 ==> is_space(#[trigger] rest[j]));
        lemma_trim_left_skip(rest, a - 1);
        assert(rest.skip(a - 1) =~= s.skip(a));
    }
}

proof fn lemma_trim_right_take(s: Seq<char>, b: int)
    requires
        0 <= b <= s.len(),
        forall|j: int| b <= j < s.len() ==> is_space(#[trigger] s[j]),
        b > 0 ==> !is_space(s[b - 1]),
    ensures
        trim_right(s) == s.take(b),
    decreases s.len() - b,
{
    if b == s.len() {
        assert(s.take(b) =~= s);
    } else {
        let rest = s.drop_last();
        assert(forall|j: int| b <= j < rest.len() ==> is_space(#[trigger] rest[j]));
        lemma_trim_right_take(rest, b);
        assert(rest.take(b) =~= s.take(b));
    }
}

/// Trims whitespace from both ends of a character run.
#[verifier::loop_isolation(false)]
pub fn trim_chars(v: &Vec<char>) -> (r: Vec<char>)
    ensures
        r@ == trim_spec(v@),
{
    let n = v.len();
    let mut a: usize = 0;
    while a < n && is_space_char(v[a])
        invariant
            0 <= a <= n,
            n == v@.len(),
            forall|j: int| 0 <= j < a ==> is_space(#[trigger] v@[j]),
        decreases n - a,
    {
        a = a + 1;
    }
    proof {
        lemma_trim_left_skip(v@, a as int);
    }
    let mut b: usize = n;
    while b > a && is_space_char(v[b - 1])
        invariant
            a <= b <= n,
            n == v@.len(),
            forall|j: int| b <= j < n ==> is_space(#[trigger] v@[j]),
        decreases b,
    {
        b = b - 1;
    }
    proof {
        let left = v@.skip(a as int);
        assert(forall|j: int|
            b - a <= j < left.len() ==> is_space(#[trigger] left[j]) == is_space(v@[j + a]));
        if b > a {
            assert(!is_space(left[b - a - 1]));
        }
        lemma_trim_right_take(left, b - a);
    }
    let mut r: Vec<char> = Vec::new();
    let mut i: usize = a;
    while i < b
        invariant
            a <= i <= b <= n,
            n == v@.len(),
            r@ =~= v@.subrange(a as int, i as int),
        decreases b - i,
    {
        r.push(v[i]);
        i = i + 1;
    }
    proof {
        assert(v@.subrange(a as int, b as int) =~= v@.skip(a as int).take(b - a as int));
    }
    r
}

/// The cleaned lines of `s` after the current line `cur`: the text is
/// split on newlines, each line trimmed, and empty lines dropped.
pub open spec fn clean_lines_rec(s: Seq<char>, cur: Seq<char>) -> Seq<Seq<char>>
    decreases s.len(),
{
    if s.len() == 0 {
        if trim_spec(cur).len() == 0 {
            Seq::empty()
        } else {
            seq![trim_spec(cur)]
        }
    } else if s[0] == '\n' {
        let rest = clean_lines_rec(s.drop_first(), Seq::empty());
        if trim_spec(cur).len() == 0 {
            rest
        } else {
            seq![trim_spec(cur)] + rest
        }
    } else {
        clean_lines_rec(s.drop_first(), cur.push(s[0]))
    }
}

/// The displayable lines of a text: split on newlines, trimmed, empty
/// lines dropped.
pub open spec fn clean_lines(s: Seq<char>) -> Seq<Seq<char>> {
    clean_lines_rec(s, Seq::empty())
}

pub open spec fn lines_view(v: Seq<String>) -> Seq<Seq<char>> {
    v.map_values(|l: String| l@)
}

/// Splits a text into its displayable lines.
#[verifier::loop_isolation(false)]
pub fn split_clean_lines(s: &str) -> (r: Vec<String>)
    ensures
        lines_view(r@) == clean_lines(s@),
{
    let cs = str_to_chars(s);
    let mut out: Vec<String> = Vec::new();
    let mut cur: Vec<char> = Vec::new();
    let mut i: usize = 0;
    proof {
        assert(s@.skip(0) =~= s@);
        assert(lines_view(out@) =~= Seq::<Seq<char>>::empty());
        assert(lines_view(out@) + clean_lines_rec(s@, cur@) =~= clean_lines_rec(s@, cur@));
    }
    while i < cs.len()
        invariant
            0 <= i <= cs@.len(),
            cs@ == s@,
            clean_lines(s@) == lines_view(out@) + clean_lines_rec(s@.skip(i as int), cur@),
        decreases cs@.len() - i,
    {
        let c = cs[i];
        proof {
            assert(s@.skip(i as int)[0] == s@[i as int]);
            assert(s@.skip(i as int).drop_first() =~= s@.skip(i + 1 as int));
        }
        if c == '\n' {
            let t = trim_chars(&cur);
            if t.len() > 0 {
                let line = chars_to_string(&t);
                let ghost prev = out@;
                out.push(line);
                proof {
                    assert(lines_view(out@) =~= lines_view(prev).push(trim_spec(cur@)));
                    assert(lines_view(prev).push(trim_spec(cur@)) + clean_lines_rec(
                        s@.skip(i + 1 as int),
                        Seq::empty(),
                    ) =~= lines_view(prev) + (seq![trim_spec(cur@)] + clean_lines_rec(
                        s@.skip(i + 1 as int),
                        Seq::empty(),
                    )));
                }
            }
            cur = Vec::new();
        } else {
            cur.push(c);
        }
        i = i + 1;
    }
    proof {
        assert(s@.skip(cs@.len() as int) =~= Seq::<char>::empty());
    }
    let t = trim_chars(&cur);
    if t.len() > 0 {
        let line = chars_to_string(&t);
        let ghost prev = out@;
        out.push(line);
        proof {
            assert(lines_view(out@) =~= lines_view(prev).push(trim_spec(cur@)));
            assert(lines_view(prev).push(trim_spec(cur@)) =~= lines_view(prev) + seq![
                trim_spec(cur@),
            ]);
        }
    }
    proof {
        assert(lines_view(out@) =~= clean_lines(s@));
    }
    out
}

/// The text nodes of parsed markup, concatenated in document order.
pub uninterp spec fn markup_text_of(s: Seq<char>) -> Seq<char>;

/// Relies on scraper's `Html::parse_fragment` and its node tree: the
/// concatenated text nodes of the parsed markup, a function of the input
/// text alone.
#[verifier::external_body]
fn strip_markup(s: &str) -> (r: String)
    ensures
        r@ == markup_text_of(s@),
{
    let mut out = String::new();
    for node in scraper::Html::parse_fragment(s).tree {
        if let scraper::node::Node::Text(t) = node {
            out.push_str(&t.text);
        }
    }
    out
}

/// A leaf part whose declared type is plain text.
pub open spec fn is_plain_leaf(p: MailPartView) -> bool {
    p.parts.len() == 0 && starts_with(p.mimetype, "text/plain"@)
}

/// A leaf part whose declared type is markup text.
pub open spec fn is_markup_leaf(p: MailPartView) -> bool {
    p.parts.len() == 0 && !starts_with(p.mimetype, "text/plain"@) && starts_with(
        p.mimetype,
        "text/html"@,
    )
}

/// Whether some direct sub-part is a plain-text leaf.
pub open spec fn has_plain_leaf(ps: Seq<MailPartView>) -> bool
    decreases ps,
{
    ps.len() > 0 && (is_plain_leaf(ps[0]) || has_plain_leaf(ps.drop_first()))
}

/// The text a part contributes: a plain-text leaf its body, a markup
/// leaf its markup's text nodes, any other leaf nothing; a part with
/// sub-parts the text of its sub-parts in order, where markup leaves are
/// skipped whenever a plain-text leaf stands among the same sub-parts.
pub open spec fn extracted_text(p: MailPartView) -> Seq<char>
    decreases p, 0nat,
{
    if p.parts.len() == 0 {
        if starts_with(p.mimetype, "text/plain"@) {
            p.body
        } else if starts_with(p.mimetype, "text/html"@) {
            markup_text_of(p.body)
        } else {
            Seq::empty()
        }
    } else {
        extracted_seq(p.parts, has_plain_leaf(p.parts))
    }
}

/// The concatenated text of the parts, markup leaves skipped when
/// `skip_markup` holds.
pub open spec fn extracted_seq(ps: Seq<MailPartView>, skip_markup: bool) -> Seq<char>
    decreases ps, 1nat,
{
    if ps.len() == 0 {
        Seq::empty()
    } else {
        (if skip_markup && is_markup_leaf(ps[0]) {
            Seq::<char>::empty()
        } else {
            extracted_text(ps[0])
        }) + extracted_seq(ps.drop_first(), skip_markup)
    }
}

proof fn lemma_extracted_seq_concat(a: Seq<MailPartView>, b: Seq<MailPartView>, skip_markup: bool)
    ensures
        extracted_seq(a + b, skip_markup) == extracted_seq(a, skip_markup) + extracted_seq(
            b,
            skip_markup,
        ),
    decreases a,
{
    if a.len() == 0 {
        assert(a + b =~= b);
        assert(extracted_seq(a, skip_markup) + extracted_seq(b, skip_markup) =~= extracted_seq(
            b,
            skip_markup,
        ));
    } else {
        assert((a + b).drop_first() =~= a.drop_first() + b);
        assert((a + b)[0] == a[0]);
        lemma_extracted_seq_concat(a.drop_first(), b, skip_markup);
        assert(extracted_seq(a + b, skip_markup) =~= extracted_seq(a, skip_markup)
            + extracted_seq(b, skip_markup));
    }
}

proof fn lemma_extracted_seq_singleton(p: MailPartView, skip_markup: bool)
    ensures
        extracted_seq(seq![p], skip_markup) == if skip_markup && is_markup_leaf(p) {
            Seq::<char>::empty()
        } else {
            extracted_text(p)
        },
{
    let s = seq![p];
    assert(s.drop_first().len() == 0);
    assert(extracted_seq(s.drop_first(), skip_markup) =~= Seq::<char>::empty());
    if skip_markup && is_markup_leaf(p) {
        assert(extracted_seq(s, skip_markup) =~= Seq::<char>::empty());
    } else {
        assert(extracted_seq(s, skip_markup) =~= extracted_text(p));
    }
}

fn is_plain_leaf_exec(p: &MailPart) -> (r: bool)
    ensures
        r == is_plain_leaf(p@),
{
    broadcast use lemma_parts_view_len;

    p.parts.len() == 0 && str_starts_with(p.mimetype.as_str(), "text/plain")
}

fn is_markup_leaf_exec(p: &MailPart) -> (r: bool)
    ensures
        r == is_markup_leaf(p@),
{
    broadcast use lemma_parts_view_len;

    p.parts.len() == 0 && !str_starts_with(p.mimetype.as_str(), "text/plain") && str_starts_with(
        p.mimetype.as_str(),
        "text/html",
    )
}

#[verifier::loop_isolation(false)]
fn has_plain_leaf_exec(ps: &Vec<MailPart>) -> (r: bool)
    ensures
        r == has_plain_leaf(parts_view(ps@)),
{
    broadcast use {lemma_parts_view_len, lemma_parts_view_index};

    let mut i: usize = 0;
    proof {
        assert(parts_view(ps@).skip(0) =~= parts_view(ps@));
    }
    while i < ps.len()
        invariant
            0 <= i <= ps@.len(),
            !has_plain_leaf(parts_view(ps@).skip(i as int))
                ==> !has_plain_leaf(parts_view(ps@)),
            forall|j: int| 0 <= j < i ==> !is_plain_leaf(parts_view(ps@)[j]),
        decreases ps@.len() - i,
    {
        proof {
            assert(parts_view(ps@).skip(i as int)[0] == parts_view(ps@)[i as int]);
            assert(parts_view(ps@).skip(i as int).drop_first() =~= parts_view(ps@).skip(
                i + 1 as int,
            ));
        }
        if is_plain_leaf_exec(&ps[i]) {
            proof {
                lemma_has_plain_leaf_member(parts_view(ps@), i as int);
            }
            return true;
        }
        i = i + 1;
    }
    proof {
        assert(parts_view(ps@).skip(ps@.len() as int) =~= Seq::<MailPartView>::empty());
    }
    false
}

proof fn lemma_has_plain_leaf_member(ps: Seq<MailPartView>, i: int)
    requires
        0 <= i < ps.len(),
        is_plain_leaf(ps[i]),
    ensures
        has_plain_leaf(ps),
    decreases ps,
{
    if i > 0 {
        lemma_has_plain_leaf_member(ps.drop_first(), i - 1);
    }
}

/// Renders the text a part tree contributes, exactly as
/// [`extracted_text`] describes it.
#[verifier::loop_isolation(false)]
pub fn extract_part_text(p: &MailPart) -> (r: String)
    ensures
        r@ == extracted_text(p@),
    decreases p,
{
    broadcast use {lemma_parts_view_len, lemma_parts_view_index};

    if p.parts.len() == 0 {
        if str_starts_with(p.mimetype.as_str(), "text/plain") {
            let mut r = String::new();
            r.append(p.body.as_str());
            r
        } else if str_starts_with(p.mimetype.as_str(), "text/html") {
            strip_markup(p.body.as_str())
        } else {
            String::new()
        }
    } else {
        let skip_markup = has_plain_leaf_exec(&p.parts);
        let mut out = String::new();
        let mut i: usize = 0;
        proof {
            assert(parts_view(p.parts@).take(0) =~= Seq::<MailPartView>::empty());
        }
        while i < p.parts.len()
            invariant
                0 <= i <= p.parts@.len(),
                skip_markup == has_plain_leaf(parts_view(p.parts@)),
                out@ == extracted_seq(parts_view(p.parts@).take(i as int), skip_markup),
            decreases p.parts@.len() - i,
        {
            let keep = if skip_markup {
                !is_markup_leaf_exec(&p.parts[i])
            } else {
                true
            };
            if keep {
                let t = extract_part_text(&p.parts[i]);
                out.append(t.as_str());
            }
            proof {
                let pv = parts_view(p.parts@);
                lemma_extracted_seq_concat(pv.take(i as int), seq![pv[i as int]], skip_markup);
                lemma_extracted_seq_singleton(pv[i as int], skip_markup);
                assert(pv.take(i as int) + seq![pv[i as int]] =~= pv.take(i + 1 as int));
                assert(out@ =~= extracted_seq(pv.take(i + 1 as int), skip_markup));
            }
            i = i + 1;
        }
        proof {
            assert(parts_view(p.parts@).take(p.parts@.len() as int) =~= parts_view(p.parts@));
        }
        out
    }
}

/// The part tree mailparse builds from a raw message: each part's
/// declared content type, decoded body text, and sub-parts; nothing when
/// the message cannot be parsed at all.
pub uninterp spec fn parsed_mail_of(raw: Seq<u8>) -> Option<MailPartView>;

/// A parsed message part as mailparse hands it out; opaque here, only
/// the trusted conversion below reads it.
#[verifier::external_type_specification]
#[verifier::external_body]
pub struct ExParsedMail<'a>(mailparse::ParsedMail<'a>);

/// Relies on the `ctype.mimetype` field, `ParsedMail::get_body` and the
/// `subparts` field: copies one part of the parsed tree into plain
/// values; a body that cannot be decoded becomes empty.
#[verifier::external_body]
fn convert_part(m: &mailparse::ParsedMail<'_>) -> (r: MailPart)
{
    MailPart {
        mimetype: m.ctype.mimetype.clone(),
        body: m.get_body().unwrap_or_default(),
        parts: m.subparts.iter().map(convert_part).collect(),
    }
}

/// Relies on `mailparse::parse_mail`: the part tree it builds is a
/// function of the raw bytes alone; it fails only when the top-level
/// headers cannot be parsed.
#[verifier::external_body]
fn parse_mail_parts(raw: &[u8]) -> (r: Option<MailPart>)
    ensures
        match r {
            Some(p) => parsed_mail_of(raw@) == Some(p@),
            None => parsed_mail_of(raw@) is None,
        },
{
    mailparse::parse_mail(raw).ok().map(|m| convert_part(&m))
}

/// Extracts the displayable text of a raw message: the message is
/// parsed, its part tree walked as [`extracted_text`] describes, and the
/// text split into trimmed, non-empty lines; nothing when the message
/// cannot be parsed.
pub fn extract_text(raw: &[u8]) -> (r: Option<Vec<String>>)
    ensures
        match parsed_mail_of(raw@) {
            Some(p) => match r {
                Some(lines) => lines_view(lines@) == clean_lines(extracted_text(p)),
                None => false,
            },
            None => r is None,
        },
{
    match parse_mail_parts(raw) {
        None => None,
        Some(part) => {
            let text = extract_part_text(&part);
            Some(split_clean_lines(text.as_str()))
        },
    }
}

/// A message that is one plain-text part yields exactly its body, split
/// into trimmed, non-empty lines.
pub proof fn lemma_extract_single_plain(p: MailPartView)
    requires
        is_plain_leaf(p),
    ensures
        extracted_text(p) == p.body,
        clean_lines(extracted_text(p)) == clean_lines(p.body),
{
}

/// A message of one plain-text and one markup alternative yields the
/// plain text: the markup sibling is skipped.
pub proof fn lemma_extract_prefers_plain(p: MailPartView, a: MailPartView, b: MailPartView)
    requires
        p.parts == seq![a, b],
        is_plain_leaf(a),
        is_markup_leaf(b),
    ensures
        extracted_text(p) == a.body,
{
    assert(p.parts[0] == a);
    assert(p.parts.drop_first() =~= seq![b]);
    assert(has_plain_leaf(p.parts));
    lemma_extracted_seq_singleton(b, true);
    assert(extracted_seq(seq![b], true) =~= Seq::<char>::empty());
    assert(extracted_text(p) =~= extracted_text(a) + Seq::<char>::empty());
    assert(extracted_text(a) + Seq::<char>::empty() =~= extracted_text(a));
}

} // verus!
