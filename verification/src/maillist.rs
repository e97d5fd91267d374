//! The mail index: enumerates the messages of one mailbox into an
//! ordered list of records, and marks records read.
//!
//! Records are sorted with every unread record before every read one and,
//! within each group, by descending timestamp; records whose keys tie keep
//! their discovery order.

use mailparse::MailHeaderMap;
use vstd::prelude::*;

verus! {

use vstd::string::StringExecFns;

/// One row of the mail index: a stable identifier, the unread flag, the
/// timestamp in seconds since the epoch (signed, so a malformed header
/// can still be represented), sender, subject, and the path of the
/// mailbox that stores the message.
pub struct MailRecord {
    pub id: String,
    pub is_unread: bool,
    pub timestamp: i64,
    pub sender: String,
    pub subject: String,
    pub mailbox: String,
}

/// The mathematical shape of a [`MailRecord`].
pub struct MailRecordView {
    pub id: Seq<char>,
    pub is_unread: bool,
    pub timestamp: i64,
    pub sender: Seq<char>,
    pub subject: Seq<char>,
    pub mailbox: Seq<char>,
}

impl View for MailRecord {
    type V = MailRecordView;

    open spec fn view(&self) -> MailRecordView {
        MailRecordView {
            id: self.id@,
            is_unread: self.is_unread,
            timestamp: self.timestamp,
            sender: self.sender@,
            subject: self.subject@,
            mailbox: self.mailbox@,
        }
    }
}

impl Clone for MailRecord {
    /// A clone is the same record.
    fn clone(&self) -> (r: Self)
        ensures
            r@ == self@,
    {
        MailRecord {
            id: self.id.clone(),
            is_unread: self.is_unread,
            timestamp: self.timestamp,
            sender: self.sender.clone(),
            subject: self.subject.clone(),
            mailbox: self.mailbox.clone(),
        }
    }
}

pub open spec fn records_view(s: Seq<MailRecord>) -> Seq<MailRecordView> {
    s.map_values(|r: MailRecord| r@)
}

/// `a` may stand at or before `b`: unread sorts before read, and within
/// one group larger timestamps come first.
pub open spec fn order_le(a: MailRecordView, b: MailRecordView) -> bool {
    (a.is_unread && !b.is_unread) || (a.is_unread == b.is_unread && a.timestamp >= b.timestamp)
}

/// `a` must stand strictly before `b`.
pub open spec fn strictly_before(a: MailRecordView, b: MailRecordView) -> bool {
    order_le(a, b) && !order_le(b, a)
}

/// Where a record lands when inserted into an already sorted run: after
/// every element that must precede it, before everything else, so
/// elements with equal keys keep their old order ahead of it.
pub open spec fn insert_sorted(x: MailRecordView, s: Seq<MailRecordView>) -> Seq<MailRecordView>
    decreases s,
{
    if s.len() == 0 {
        seq![x]
    } else if strictly_before(s[0], x) {
        seq![s[0]] + insert_sorted(x, s.drop_first())
    } else {
        seq![x] + s
    }
}

/// The stable sort of the whole run: each element inserted, front first,
/// into the sorted rest.
pub open spec fn sort_spec(s: Seq<MailRecordView>) -> Seq<MailRecordView>
    decreases s,
{
    if s.len() == 0 {
        Seq::empty()
    } else {
        insert_sorted(s[0], sort_spec(s.drop_first()))
    }
}

/// A run is sorted when no later element must stand before an earlier one.
pub open spec fn sorted_run(s: Seq<MailRecordView>) -> bool {
    forall|i: int, j: int| 0 <= i < j < s.len() ==> order_le(s[i], s[j])
}

proof fn lemma_order_le_total(a: MailRecordView, b: MailRecordView)
    ensures
        order_le(a, b) || order_le(b, a),
{
}

proof fn lemma_order_le_trans(a: MailRecordView, b: MailRecordView, c: MailRecordView)
    requires
        order_le(a, b),
        order_le(b, c),
    ensures
        order_le(a, c),
{
}

pub broadcast proof fn lemma_insert_sorted_len(x: MailRecordView, s: Seq<MailRecordView>)
    ensures
        (#[trigger] insert_sorted(x, s)).len() == s.len() + 1,
    decreases s,
{
    if s.len() > 0 && strictly_before(s[0], x) {
        lemma_insert_sorted_len(x, s.drop_first());
    }
}

pub broadcast proof fn lemma_sort_spec_len(s: Seq<MailRecordView>)
    ensures
        (#[trigger] sort_spec(s)).len() == s.len(),
    decreases s,
{
    if s.len() > 0 {
        lemma_sort_spec_len(s.drop_first());
        lemma_insert_sorted_len(s[0], sort_spec(s.drop_first()));
    }
}

/// Inserting keeps any lower bound of the run and the new element.
proof fn lemma_insert_sorted_lower_bound(
    x: MailRecordView,
    s: Seq<MailRecordView>,
    lb: MailRecordView,
)
    requires
        order_le(lb, x),
        forall|k: int| 0 <= k < s.len() ==> order_le(lb, #[trigger] s[k]),
    ensures
        forall|k: int|
            0 <= k < insert_sorted(x, s).len() ==> order_le(lb, #[trigger] insert_sorted(x, s)[k]),
    decreases s,
{
    broadcast use lemma_insert_sorted_len;

    if s.len() > 0 && strictly_before(s[0], x) {
        assert(forall|k: int| 0 <= k < s.drop_first().len() ==> order_le(lb, #[trigger] s.drop_first()[k]));
        lemma_insert_sorted_lower_bound(x, s.drop_first(), lb);
        assert forall|k: int| 0 <= k < insert_sorted(x, s).len() implies order_le(
            lb,
            #[trigger] insert_sorted(x, s)[k],
        ) by {
            if k > 0 {
                assert(insert_sorted(x, s)[k] == insert_sorted(x, s.drop_first())[k - 1]);
            }
        }
    }
}

/// Inserting into a sorted run keeps it sorted.
proof fn lemma_insert_sorted_sorted(x: MailRecordView, s: Seq<MailRecordView>)
    requires
        sorted_run(s),
    ensures
        sorted_run(insert_sorted(x, s)),
    decreases s,
{
    broadcast use lemma_insert_sorted_len;

    if s.len() == 0 {
    } else if strictly_before(s[0], x) {
        let rest = s.drop_first();
        assert(sorted_run(rest)) by {
            assert(forall|i: int, j: int|
                0 <= i < j < rest.len() ==> order_le(#[trigger] rest[i], #[trigger] rest[j])
                    == order_le(s[i + 1], s[j + 1]));
        }
        lemma_insert_sorted_sorted(x, rest);
        assert(forall|k: int| 0 <= k < rest.len() ==> order_le(s[0], #[trigger] rest[k]));
        lemma_insert_sorted_lower_bound(x, rest, s[0]);
        let r = insert_sorted(x, s);
        assert forall|i: int, j: int| 0 <= i < j < r.len() implies order_le(r[i], r[j]) by {
            if i == 0 {
                assert(r[j] == insert_sorted(x, rest)[j - 1]);
            } else {
                assert(r[i] == insert_sorted(x, rest)[i - 1]);
                assert(r[j] == insert_sorted(x, rest)[j - 1]);
            }
        }
    } else {
        lemma_order_le_total(s[0], x);
        assert(order_le(x, s[0]));
        let r = insert_sorted(x, s);
        assert forall|i: int, j: int| 0 <= i < j < r.len() implies order_le(r[i], r[j]) by {
            if i == 0 && j > 0 {
                if j == 1 {
                    assert(order_le(x, s[0]));
                } else {
                    lemma_order_le_trans(x, s[0], s[j - 1]);
                }
            }
        }
    }
}

/// Inserting adds exactly the new element to the run's contents.
proof fn lemma_insert_sorted_multiset(x: MailRecordView, s: Seq<MailRecordView>)
    ensures
        insert_sorted(x, s).to_multiset() == s.to_multiset().insert(x),
    decreases s,
{
    broadcast use {vstd::seq_lib::group_to_multiset_ensures, vstd::multiset::group_multiset_axioms};

    if s.len() == 0 {
        assert(seq![x] =~= Seq::<MailRecordView>::empty().push(x));
        assert(seq![x].to_multiset() =~= s.to_multiset().insert(x));
    } else if strictly_before(s[0], x) {
        lemma_insert_sorted_multiset(x, s.drop_first());
        vstd::seq_lib::lemma_multiset_commutative(seq![s[0]], insert_sorted(x, s.drop_first()));
        vstd::seq_lib::lemma_multiset_commutative(seq![s[0]], s.drop_first());
        assert(seq![s[0]] + s.drop_first() =~= s);
        assert(seq![s[0]].to_multiset() =~= Seq::<MailRecordView>::empty().push(s[0]).to_multiset());
        assert(insert_sorted(x, s).to_multiset() =~= s.to_multiset().insert(x));
    } else {
        vstd::seq_lib::lemma_multiset_commutative(seq![x], s);
        assert(seq![x].to_multiset() =~= Seq::<MailRecordView>::empty().push(x).to_multiset());
        assert(insert_sorted(x, s).to_multiset() =~= s.to_multiset().insert(x));
    }
}

/// What `load` promises of its order: as many records as there were
/// messages, the same records as were read, every unread record before
/// every read one, and timestamps descending within each group.
pub proof fn lemma_sort_spec_props(s: Seq<MailRecordView>)
    ensures
        sort_spec(s).len() == s.len(),
        sort_spec(s).to_multiset() == s.to_multiset(),
        sorted_run(sort_spec(s)),
        forall|i: int, j: int|
            0 <= i < j < sort_spec(s).len() && !(#[trigger] sort_spec(s)[i]).is_unread ==> !(
            #[trigger] sort_spec(s)[j]).is_unread,
    decreases s,
{
    broadcast use {vstd::seq_lib::group_to_multiset_ensures, vstd::multiset::group_multiset_axioms};

    lemma_sort_spec_len(s);
    if s.len() > 0 {
        lemma_sort_spec_props(s.drop_first());
        lemma_insert_sorted_sorted(s[0], sort_spec(s.drop_first()));
        lemma_insert_sorted_multiset(s[0], sort_spec(s.drop_first()));
        assert(s =~= Seq::<MailRecordView>::empty().push(s[0]) + s.drop_first());
        vstd::seq_lib::lemma_multiset_commutative(
            Seq::<MailRecordView>::empty().push(s[0]),
            s.drop_first(),
        );
        assert(sort_spec(s).to_multiset() =~= s.to_multiset());
    }
    assert forall|i: int, j: int|
        0 <= i < j < sort_spec(s).len() && !(#[trigger] sort_spec(s)[i]).is_unread implies !(
    #[trigger] sort_spec(s)[j]).is_unread by {
        assert(order_le(sort_spec(s)[i], sort_spec(s)[j]));
    }
}

fn order_le_exec(a: &MailRecord, b: &MailRecord) -> (r: bool)
    ensures
        r == order_le(a@, b@),
{
    (a.is_unread && !b.is_unread) || (a.is_unread == b.is_unread && a.timestamp >= b.timestamp)
}

fn strictly_before_exec(a: &MailRecord, b: &MailRecord) -> (r: bool)
    ensures
        r == strictly_before(a@, b@),
{
    order_le_exec(a, b) && !order_le_exec(b, a)
}

/// Inserting at the first position whose element need not precede `x`
/// is exactly what `insert_sorted` describes.
proof fn lemma_insert_sorted_at(x: MailRecordView, s: Seq<MailRecordView>, pos: int)
    requires
        0 <= pos <= s.len(),
        forall|j: int| 0 <= j < pos ==> strictly_before(#[trigger] s[j], x),
        pos < s.len() ==> !strictly_before(s[pos], x),
    ensures
        insert_sorted(x, s) == s.insert(pos, x),
    decreases s,
{
    if pos == 0 {
        if s.len() == 0 {
            assert(insert_sorted(x, s) =~= s.insert(0, x));
        } else {
            assert(insert_sorted(x, s) =~= s.insert(0, x));
        }
    } else {
        assert(strictly_before(s[0], x));
        let rest = s.drop_first();
        assert(forall|j: int| 0 <= j < pos - 1 ==> strictly_before(#[trigger] rest[j], x));
        lemma_insert_sorted_at(x, rest, pos - 1);
        assert(seq![s[0]] + rest.insert(pos - 1, x) =~= s.insert(pos, x));
    }
}

/// Places `x` into the sorted run `v`, after every element that must
/// precede it.
#[verifier::loop_isolation(false)]
fn insert_record(v: &mut Vec<MailRecord>, x: MailRecord)
    ensures
        records_view(final(v)@) == insert_sorted(x@, records_view(old(v)@)),
{
    let mut pos: usize = 0;
    while pos < v.len() && strictly_before_exec(&v[pos], &x)
        invariant
            0 <= pos <= v@.len(),
            v@ == old(v)@,
            forall|j: int| 0 <= j < pos ==> strictly_before(records_view(v@)[j], x@),
        decreases v@.len() - pos,
    {
        pos = pos + 1;
    }
    proof {
        lemma_insert_sorted_at(x@, records_view(old(v)@), pos as int);
    }
    v.insert(pos, x);
    proof {
        assert(records_view(final(v)@) =~= records_view(old(v)@).insert(pos as int, x@));
    }
}

/// Sorts the records: unread before read, timestamps descending within
/// each group, ties kept in discovery order.
#[verifier::loop_isolation(false)]
pub fn sort_records(input: Vec<MailRecord>) -> (r: Vec<MailRecord>)
    ensures
        records_view(r@) == sort_spec(records_view(input@)),
{
    let ghost orig = records_view(input@);
    let mut v = input;
    let mut out: Vec<MailRecord> = Vec::new();
    while v.len() > 0
        invariant
            v@.len() <= orig.len(),
            records_view(v@) == orig.take(v@.len() as int),
            records_view(out@) == sort_spec(orig.skip(v@.len() as int)),
        decreases v@.len(),
    {
        let ghost k = v@.len() as int;
        let ghost prev = v@;
        let x = v.pop().unwrap();
        proof {
            assert(records_view(v@) =~= orig.take(k - 1));
            assert(x == prev[k - 1]);
            assert(records_view(prev)[k - 1] == x@);
            assert(x@ == orig[k - 1]);
            assert(orig.skip(k - 1).drop_first() =~= orig.skip(k));
            assert(orig.skip(k - 1)[0] == orig[k - 1]);
        }
        insert_record(&mut out, x);
    }
    proof {
        assert(orig.skip(0) =~= orig);
    }
    out
}

/// What the mailbox's storage yields for one message before it is turned
/// into a record: the message's stable identifier and, when the message
/// file could be read, its raw bytes.
pub struct EntryData {
    pub id: String,
    pub raw: Option<Vec<u8>>,
}

/// The mathematical shape of an [`EntryData`].
pub struct EntryDataView {
    pub id: Seq<char>,
    pub raw: Option<Seq<u8>>,
}

impl View for EntryData {
    type V = EntryDataView;

    open spec fn view(&self) -> EntryDataView {
        EntryDataView {
            id: self.id@,
            raw: match self.raw {
                Some(b) => Some(b@),
                None => None,
            },
        }
    }
}

pub open spec fn entry_views(s: Seq<EntryData>) -> Seq<EntryDataView> {
    s.map_values(|e: EntryData| e@)
}

/// The first value of the header named `key` in the header block of a
/// raw message, as mailparse reads it.
pub uninterp spec fn header_value_of(raw: Seq<u8>, key: Seq<char>) -> Option<Seq<char>>;

/// Relies on `mailparse::parse_headers` and `MailHeaderMap::get_first_value`:
/// together they give the first value of the named header, a function of
/// the bytes and the name alone; `None` when the block cannot be parsed
/// or no header of that name exists.
#[verifier::external_body]
fn header_value(raw: &[u8], key: &str) -> (r: Option<String>)
    ensures
        match r {
            Some(s) => header_value_of(raw@, key@) == Some(s@),
            None => header_value_of(raw@, key@) is None,
        },
{
    mailparse::parse_headers(raw).ok().and_then(|(hs, _)| hs.get_first_value(key))
}

/// The epoch seconds `mailparse::dateparse` reads from a date header value.
pub uninterp spec fn dateparse_of(s: Seq<char>) -> Option<i64>;

/// Relies on `mailparse::dateparse`: the timestamp it reads is a function
/// of the header text alone; `None` when the text is not a date.
#[verifier::external_body]
fn dateparse_w(s: &str) -> (r: Option<i64>)
    ensures
        match r {
            Some(t) => dateparse_of(s@) == Some(t),
            None => dateparse_of(s@) is None,
        },
{
    mailparse::dateparse(s).ok()
}

/// The timestamp of a record: the parsed date header, or zero when the
/// message is unreadable, the header is missing, or it does not parse.
pub open spec fn timestamp_spec(raw: Option<Seq<u8>>) -> i64 {
    match raw {
        None => 0,
        Some(b) => match header_value_of(b, "Date"@) {
            None => 0,
            Some(d) => match dateparse_of(d) {
                None => 0,
                Some(t) => t,
            },
        },
    }
}

/// The sender column: the From header, or a placeholder.
pub open spec fn sender_spec(raw: Option<Seq<u8>>) -> Seq<char> {
    match raw {
        None => "No Sender"@,
        Some(b) => match header_value_of(b, "From"@) {
            None => "No Sender"@,
            Some(s) => s,
        },
    }
}

/// The subject column: the Subject header, or a placeholder.
pub open spec fn subject_spec(raw: Option<Seq<u8>>) -> Seq<char> {
    match raw {
        None => "No Subject"@,
        Some(b) => match header_value_of(b, "Subject"@) {
            None => "No Subject"@,
            Some(s) => s,
        },
    }
}

/// The record built for one message of mailbox `mailbox`.
pub open spec fn make_record_spec(e: EntryDataView, unread: bool, mailbox: Seq<char>) -> MailRecordView {
    MailRecordView {
        id: e.id,
        is_unread: unread,
        timestamp: timestamp_spec(e.raw),
        sender: sender_spec(e.raw),
        subject: subject_spec(e.raw),
        mailbox: mailbox,
    }
}

/// Builds the record for one message: identifier kept, timestamp from
/// the date header or zero, sender and subject from the headers or
/// placeholders.
pub fn make_record(e: EntryData, unread: bool, mailbox: &String) -> (r: MailRecord)
    ensures
        r@ == make_record_spec(e@, unread, mailbox@),
{
    let (timestamp, sender, subject): (i64, String, String) = match &e.raw {
        None => (0i64, String::from_str("No Sender"), String::from_str("No Subject")),
        Some(b) => {
            let ts: i64 = match header_value(b.as_slice(), "Date") {
                None => 0,
                Some(d) => match dateparse_w(d.as_str()) {
                    None => 0,
                    Some(t) => t,
                },
            };
            let sender = match header_value(b.as_slice(), "From") {
                None => String::from_str("No Sender"),
                Some(s) => s,
            };
            let subject = match header_value(b.as_slice(), "Subject") {
                None => String::from_str("No Subject"),
                Some(s) => s,
            };
            (ts, sender, subject)
        },
    };
    MailRecord {
        id: e.id,
        is_unread: unread,
        timestamp,
        sender,
        subject,
        mailbox: mailbox.clone(),
    }
}

/// The records of one group of messages, in discovery order.
pub open spec fn records_from(entries: Seq<EntryDataView>, unread: bool, mailbox: Seq<char>) -> Seq<
    MailRecordView,
> {
    entries.map_values(|e: EntryDataView| make_record_spec(e, unread, mailbox))
}

/// Builds the index from the unread and read message groups: one record
/// per message, sorted unread first, then by descending timestamp, ties
/// in discovery order.
#[verifier::loop_isolation(false)]
pub fn build_index(new_entries: Vec<EntryData>, cur_entries: Vec<EntryData>, mailbox: &String) -> (r:
    Vec<MailRecord>)
    ensures
        records_view(r@) == sort_spec(
            records_from(entry_views(new_entries@), true, mailbox@) + records_from(
                entry_views(cur_entries@),
                false,
                mailbox@,
            ),
        ),
{
    let ghost orig_new = entry_views(new_entries@);
    let ghost orig_cur = entry_views(cur_entries@);
    let mut recs: Vec<MailRecord> = Vec::new();
    let mut ne = new_entries;
    let ghost mut k: int = 0;
    while ne.len() > 0
        invariant
            0 <= k,
            k + ne@.len() == orig_new.len(),
            entry_views(ne@) == orig_new.skip(k),
            records_view(recs@) == records_from(orig_new.take(k), true, mailbox@),
        decreases ne@.len(),
    {
        let ghost prev = ne@;
        let e = ne.remove(0);
        proof {
            assert(e == prev[0]);
            assert(entry_views(prev)[0] == e@);
            assert(e@ == orig_new[k]);
            assert forall|i: int| 0 <= i < ne@.len() implies #[trigger] entry_views(ne@)[i]
                == orig_new.skip(k + 1)[i] by {
                assert(ne@[i] == prev[i + 1]);
                assert(entry_views(prev)[i + 1] == prev[i + 1]@);
            }
            assert(entry_views(ne@) =~= orig_new.skip(k + 1));
        }
        let rec = make_record(e, true, mailbox);
        let ghost pr = recs@;
        recs.push(rec);
        proof {
            k = k + 1;
            assert forall|i: int| 0 <= i < recs@.len() implies records_view(recs@)[i]
                == records_from(orig_new.take(k), true, mailbox@)[i] by {
                if i < k - 1 {
                    assert(recs@[i] == pr[i]);
                    assert(records_view(pr)[i] == records_from(orig_new.take(k - 1), true, mailbox@)[i]);
                    assert(orig_new.take(k - 1)[i] == orig_new.take(k)[i]);
                } else {
                    assert(recs@[i] == rec);
                    assert(orig_new.take(k)[i] == orig_new[k - 1]);
                }
            }
            assert(records_view(recs@) =~= records_from(orig_new.take(k), true, mailbox@));
        }
    }
    proof {
        assert(orig_new.take(orig_new.len() as int) =~= orig_new);
    }
    let mut ce = cur_entries;
    let ghost mut k2: int = 0;
    while ce.len() > 0
        invariant
            0 <= k2,
            k2 + ce@.len() == orig_cur.len(),
            entry_views(ce@) == orig_cur.skip(k2),
            records_view(recs@) == records_from(orig_new, true, mailbox@) + records_from(
                orig_cur.take(k2),
                false,
                mailbox@,
            ),
        decreases ce@.len(),
    {
        let ghost prev = ce@;
        let e = ce.remove(0);
        proof {
            assert(e == prev[0]);
            assert(entry_views(prev)[0] == e@);
            assert(e@ == orig_cur[k2]);
            assert forall|i: int| 0 <= i < ce@.len() implies #[trigger] entry_views(ce@)[i]
                == orig_cur.skip(k2 + 1)[i] by {
                assert(ce@[i] == prev[i + 1]);
                assert(entry_views(prev)[i + 1] == prev[i + 1]@);
            }
            assert(entry_views(ce@) =~= orig_cur.skip(k2 + 1));
        }
        let rec = make_record(e, false, mailbox);
        let ghost pr = recs@;
        recs.push(rec);
        proof {
            k2 = k2 + 1;
            let ghost lhsn = records_from(orig_new, true, mailbox@);
            assert forall|i: int| 0 <= i < recs@.len() implies records_view(recs@)[i] == (lhsn
                + records_from(orig_cur.take(k2), false, mailbox@))[i] by {
                if i < lhsn.len() + k2 - 1 {
                    assert(recs@[i] == pr[i]);
                    assert(records_view(pr)[i] == (lhsn + records_from(
                        orig_cur.take(k2 - 1),
                        false,
                        mailbox@,
                    ))[i]);
                    if i >= lhsn.len() {
                        assert(orig_cur.take(k2 - 1)[i - lhsn.len()] == orig_cur.take(k2)[i - lhsn.len()]);
                    }
                } else {
                    assert(recs@[i] == rec);
                    assert(orig_cur.take(k2)[i - lhsn.len()] == orig_cur[k2 - 1]);
                }
            }
            assert(records_view(recs@) =~= records_from(orig_new, true, mailbox@) + records_from(
                orig_cur.take(k2),
                false,
                mailbox@,
            ));
        }
    }
    proof {
        assert(orig_cur.take(orig_cur.len() as int) =~= orig_cur);
    }
    sort_records(recs)
}

/// One row handed to the renderer: the row number, the record's
/// timestamp for the caller to format, sender, subject, and whether the
/// row is emphasized as unread.
pub struct MailRow {
    pub index: usize,
    pub timestamp: i64,
    pub sender: String,
    pub subject: String,
    pub unread: bool,
}

/// Builds the renderer's table from the index: one row per record, in
/// index order, each carrying its position, timestamp, sender, subject
/// and unread emphasis.
#[verifier::loop_isolation(false)]
pub fn mail_rows(records: &Vec<MailRecord>) -> (r: Vec<MailRow>)
    ensures
        r@.len() == records@.len(),
        forall|i: int|
            0 <= i < records@.len() ==> {
                let rec = records_view(records@)[i];
                let row = #[trigger] r@[i];
                row.index == i && row.timestamp == rec.timestamp && row.sender@ == rec.sender
                    && row.subject@ == rec.subject && row.unread == rec.is_unread
            },
{
    let mut r: Vec<MailRow> = Vec::new();
    let mut i: usize = 0;
    while i < records.len()
        invariant
            0 <= i <= records@.len(),
            r@.len() == i,
            forall|j: int|
                0 <= j < i ==> {
                    let rec = records_view(records@)[j];
                    let row = #[trigger] r@[j];
                    row.index == j && row.timestamp == rec.timestamp && row.sender@ == rec.sender
                        && row.subject@ == rec.subject && row.unread == rec.is_unread
                },
        decreases records@.len() - i,
    {
        let rec = &records[i];
        r.push(
            MailRow {
                index: i,
                timestamp: rec.timestamp,
                sender: rec.sender.clone(),
                subject: rec.subject.clone(),
                unread: rec.is_unread,
            },
        );
        i = i + 1;
    }
    r
}

/// One message of a maildir, as the maildir crate hands it out; opaque
/// here, read only through the trusted accessors below.
#[verifier::external_type_specification]
#[verifier::external_body]
pub struct ExMailEntry(maildir::MailEntry);

/// Relies on maildir's `Maildir::list_new`: the messages of the unread
/// area, in the iterator's order; entries the iterator reports as errors
/// are skipped.  What comes back depends on what is on disk.
#[verifier::external_body]
fn maildir_list_new(path: &str) -> (r: Vec<maildir::MailEntry>)
{
    maildir::Maildir::from(path).list_new().filter_map(|e| e.ok()).collect()
}

/// Relies on maildir's `Maildir::list_cur`: the messages of the read
/// area, in the iterator's order; entries the iterator reports as errors
/// are skipped.  What comes back depends on what is on disk.
#[verifier::external_body]
fn maildir_list_cur(path: &str) -> (r: Vec<maildir::MailEntry>)
{
    maildir::Maildir::from(path).list_cur().filter_map(|e| e.ok()).collect()
}

/// Relies on `MailEntry::id`: the message's stable identifier.
#[verifier::external_body]
fn entry_id(e: &maildir::MailEntry) -> (r: String)
{
    String::from(e.id())
}

/// Relies on `MailEntry::parsed`: loads the message file and hands back
/// the raw bytes it was parsed from; `None` when the file cannot be read
/// or its headers cannot be parsed.
#[verifier::external_body]
fn entry_raw(e: &mut maildir::MailEntry) -> (r: Option<Vec<u8>>)
{
    e.parsed().ok().map(|p| p.raw_bytes.to_vec())
}

/// Relies on maildir's `Maildir::find`: looks the message up by its
/// identifier in either area of the mailbox at `path`.
#[verifier::external_body]
fn maildir_find(path: &str, id: &str) -> (r: Option<maildir::MailEntry>)
{
    maildir::Maildir::from(path).find(id)
}

/// Relies on maildir's `Maildir::move_new_to_cur`: relocates the message
/// from the unread to the read area; the error text is the storage
/// error's rendering.
#[verifier::external_body]
fn maildir_move_new_to_cur(path: &str, id: &str) -> (r: Result<(), String>)
{
    match maildir::Maildir::from(path).move_new_to_cur(id) {
        Ok(()) => Ok(()),
        Err(e) => Err(format!("{}", e)),
    }
}

/// Reads identifier and raw bytes of every listed message, keeping the
/// discovery order.
fn read_entries(entries: Vec<maildir::MailEntry>) -> (r: Vec<EntryData>)
{
    let mut es = entries;
    let mut out: Vec<EntryData> = Vec::new();
    while es.len() > 0
        decreases es@.len(),
    {
        let mut e = es.remove(0);
        let id = entry_id(&e);
        let raw = entry_raw(&mut e);
        out.push(EntryData { id, raw });
    }
    out
}

/// Loads the index of the mailbox at `path`: one record per message of
/// the unread and read areas, sorted unread first, then by descending
/// timestamp, ties in discovery order.  Which messages there are depends
/// on the disk; their ordering and shaping into records does not.
pub fn load_mailbox(path: &String) -> (r: Vec<MailRecord>)
    ensures
        exists|nd: Seq<EntryDataView>, cd: Seq<EntryDataView>|
            records_view(r@) == sort_spec(
                #[trigger] records_from(nd, true, path@) + #[trigger] records_from(
                    cd,
                    false,
                    path@,
                ),
            ),
{
    let new_entries = read_entries(maildir_list_new(path.as_str()));
    let cur_entries = read_entries(maildir_list_cur(path.as_str()));
    let ghost nd = entry_views(new_entries@);
    let ghost cd = entry_views(cur_entries@);
    let r = build_index(new_entries, cur_entries, path);
    proof {
        assert(records_view(r@) == sort_spec(
            records_from(nd, true, path@) + records_from(cd, false, path@),
        ));
    }
    r
}

/// Fetches the raw bytes of the message a record stands for, looking it
/// up by identifier in its mailbox.  What comes back depends on the disk.
pub fn fetch_raw(record: &MailRecord) -> (r: Option<Vec<u8>>)
{
    match maildir_find(record.mailbox.as_str(), record.id.as_str()) {
        None => None,
        Some(mut e) => entry_raw(&mut e),
    }
}

/// The record with its unread flag cleared.
pub open spec fn read_view(v: MailRecordView) -> MailRecordView {
    MailRecordView { is_unread: false, ..v }
}

/// Clears the unread flag of the record at `index`, leaving its other
/// fields, every other record, and the order unchanged.
pub fn set_read_at(records: &mut Vec<MailRecord>, index: usize)
    requires
        index < old(records)@.len(),
    ensures
        records_view(final(records)@) == records_view(old(records)@).update(
            index as int,
            read_view(records_view(old(records)@)[index as int]),
        ),
{
    let mut rec = records.remove(index);
    rec.is_unread = false;
    records.insert(index, rec);
    proof {
        assert(final(records)@ =~= old(records)@.update(index as int, rec));
        assert(records_view(final(records)@) =~= records_view(old(records)@).update(
            index as int,
            read_view(records_view(old(records)@)[index as int]),
        ));
    }
}

/// Marks the record at `index` read: relocates the message from the
/// unread to the read storage area and clears the record's flag.  An
/// index out of range fails and changes nothing; a record already read
/// succeeds and changes nothing; otherwise the flag is cleared exactly
/// when the relocation succeeded, and on failure the index is unchanged.
pub fn mark_read(records: &mut Vec<MailRecord>, index: usize) -> (r: Result<(), String>)
    ensures
        index >= old(records)@.len() ==> r is Err && final(records)@ == old(records)@,
        index < old(records)@.len() && !old(records)@[index as int].is_unread ==> r is Ok
            && final(records)@ == old(records)@,
        index < old(records)@.len() && old(records)@[index as int].is_unread ==> match r {
            Ok(_) => records_view(final(records)@) == records_view(old(records)@).update(
                index as int,
                read_view(records_view(old(records)@)[index as int]),
            ),
            Err(_) => final(records)@ == old(records)@,
        },
{
    if index >= records.len() {
        return Err(String::from_str("no such message"));
    }
    if !records[index].is_unread {
        return Ok(());
    }
    let path = records[index].mailbox.clone();
    let id = records[index].id.clone();
    match maildir_move_new_to_cur(path.as_str(), id.as_str()) {
        Ok(_) => {
            set_read_at(records, index);
            Ok(())
        },
        Err(e) => Err(e),
    }
}

/// How many records of the run are unread.
pub open spec fn unread_count(s: Seq<MailRecordView>) -> nat
    decreases s,
{
    if s.len() == 0 {
        0nat
    } else {
        (if s[0].is_unread {
            1nat
        } else {
            0nat
        }) + unread_count(s.drop_first())
    }
}

/// Counts the unread records of the index.
#[verifier::loop_isolation(false)]
pub fn count_unread(records: &Vec<MailRecord>) -> (n: usize)
    ensures
        n as nat == unread_count(records_view(records@)),
{
    proof {
        lemma_unread_count_take_all(records_view(records@));
    }
    let mut n: usize = 0;
    let mut i: usize = 0;
    while i < records.len()
        invariant
            0 <= i <= records@.len(),
            n as nat == unread_count(records_view(records@).take(i as int)),
            n <= i,
        decreases records@.len() - i,
    {
        proof {
            lemma_unread_count_snoc(records_view(records@), i as int);
        }
        if records[i].is_unread {
            n = n + 1;
        }
        i = i + 1;
    }
    n
}

proof fn lemma_unread_count_snoc(s: Seq<MailRecordView>, i: int)
    requires
        0 <= i < s.len(),
    ensures
        unread_count(s.take(i + 1)) == unread_count(s.take(i)) + (if s[i].is_unread {
            1nat
        } else {
            0nat
        }),
    decreases i,
{
    if i == 0 {
        assert(s.take(1).drop_first() =~= s.take(0));
        assert(unread_count(s.take(0)) == 0);
    } else {
        assert(s.take(i + 1).drop_first() =~= s.drop_first().take(i));
        assert(s.take(i).drop_first() =~= s.drop_first().take(i - 1));
        lemma_unread_count_snoc(s.drop_first(), i - 1);
        assert(s.take(i + 1)[0] == s[0]);
        assert(s.take(i)[0] == s[0]);
        assert(s.drop_first()[i - 1] == s[i]);
        assert(s.drop_first().take(i) =~= s.take(i + 1).drop_first());
    }
}

proof fn lemma_unread_count_take_all(s: Seq<MailRecordView>)
    ensures
        unread_count(s.take(s.len() as int)) == unread_count(s),
{
    assert(s.take(s.len() as int) =~= s);
}

/// After a record that was unread is marked read, the index holds one
/// unread record fewer, and that record is no longer among the unread.
pub proof fn lemma_mark_read_unread_count(s: Seq<MailRecordView>, i: int)
    requires
        0 <= i < s.len(),
        s[i].is_unread,
    ensures
        unread_count(s.update(i, read_view(s[i]))) == unread_count(s) - 1,
        !s.update(i, read_view(s[i]))[i].is_unread,
    decreases s,
{
    let t = s.update(i, read_view(s[i]));
    if i == 0 {
        assert(t.drop_first() =~= s.drop_first());
    } else {
        assert(t.drop_first() =~= s.drop_first().update(i - 1, read_view(s.drop_first()[i - 1])));
        lemma_mark_read_unread_count(s.drop_first(), i - 1);
        assert(t[0] == s[0]);
    }
}

/// Loading is deterministic: the index built of one mailbox state is one
/// run of records; two loads of an unmodified mailbox yield it twice.
pub proof fn lemma_load_deterministic(
    r1: Seq<MailRecordView>,
    r2: Seq<MailRecordView>,
    nd: Seq<EntryDataView>,
    cd: Seq<EntryDataView>,
    mailbox: Seq<char>,
)
    requires
        r1 == sort_spec(records_from(nd, true, mailbox) + records_from(cd, false, mailbox)),
        r2 == sort_spec(records_from(nd, true, mailbox) + records_from(cd, false, mailbox)),
    ensures
        r1 == r2,
{
}

/// What `load` returns for a mailbox with `nd` unread and `cd` read
/// messages: exactly `nd.len() + cd.len()` records, the records made of
/// those messages, every unread one before every read one, timestamps
/// descending within each group.
pub proof fn lemma_load_shape(nd: Seq<EntryDataView>, cd: Seq<EntryDataView>, mailbox: Seq<char>)
    ensures
        ({
            let all = records_from(nd, true, mailbox) + records_from(cd, false, mailbox);
            let r = sort_spec(all);
            r.len() == nd.len() + cd.len() && r.to_multiset() == all.to_multiset() && sorted_run(r)
                && unread_count(all) == nd.len()
        }),
{
    let all = records_from(nd, true, mailbox) + records_from(cd, false, mailbox);
    lemma_sort_spec_props(all);
    lemma_unread_count_groups(nd, cd, mailbox);
}

proof fn lemma_unread_count_concat(a: Seq<MailRecordView>, b: Seq<MailRecordView>)
    ensures
        unread_count(a + b) == unread_count(a) + unread_count(b),
    decreases a,
{
    if a.len() == 0 {
        assert(a + b =~= b);
    } else {
        assert((a + b).drop_first() =~= a.drop_first() + b);
        lemma_unread_count_concat(a.drop_first(), b);
        assert((a + b)[0] == a[0]);
    }
}

proof fn lemma_unread_count_const(s: Seq<MailRecordView>, unread: bool)
    requires
        forall|i: int| 0 <= i < s.len() ==> (#[trigger] s[i]).is_unread == unread,
    ensures
        unread_count(s) == if unread {
            s.len()
        } else {
            0nat
        },
    decreases s,
{
    if s.len() > 0 {
        assert(forall|i: int|
            0 <= i < s.drop_first().len() ==> (#[trigger] s.drop_first()[i]).is_unread == unread);
        lemma_unread_count_const(s.drop_first(), unread);
    }
}

proof fn lemma_unread_count_groups(nd: Seq<EntryDataView>, cd: Seq<EntryDataView>, mailbox: Seq<char>)
    ensures
        unread_count(records_from(nd, true, mailbox) + records_from(cd, false, mailbox))
            == nd.len(),
{
    let a = records_from(nd, true, mailbox);
    let b = records_from(cd, false, mailbox);
    lemma_unread_count_concat(a, b);
    lemma_unread_count_const(a, true);
    lemma_unread_count_const(b, false);
}

} // verus!
