//! The mailbox tree: builds a navigable tree of mailbox nodes, each
//! labelled with its base name and, when positive, its unread count.
//!
//! The directory walk itself happens outside the library; it hands in a
//! [`DirNode`] per filesystem entry, in directory-listing order.  The
//! unread count shown on a node covers the messages in that directory's
//! own unread area plus those of its direct child entries, which is also
//! how the count behaves after a message in the node's own area is read.

use crate::chars::{dec_str, u64_to_dec};
use vstd::prelude::*;

verus! {

use vstd::string::StringExecFns;

/// How many levels below the mail root a scan descends.  Earlier
/// revisions of the client wavered between two and three; two is the
/// depth the running client always used, so it is fixed here.
pub const SCAN_DEPTH: u64 = 2;

/// One filesystem entry, as the directory walk reports it: its base name,
/// its absolute path, the unread-message count of its own unread area,
/// and its child entries in directory-listing order.
pub struct DirNode {
    pub name: String,
    pub path: String,
    pub unread: u64,
    pub children: Vec<DirNode>,
}

/// The mathematical shape of a [`DirNode`].
pub struct DirView {
    pub name: Seq<char>,
    pub path: Seq<char>,
    pub unread: u64,
    pub children: Seq<DirView>,
}

pub open spec fn dir_view(d: DirNode) -> DirView
    decreases d,
{
    DirView {
        name: d.name@,
        path: d.path@,
        unread: d.unread,
        children: dir_children_view(d.children@),
    }
}

pub open spec fn dir_children_view(s: Seq<DirNode>) -> Seq<DirView>
    decreases s,
{
    if s.len() == 0 {
        Seq::empty()
    } else {
        seq![dir_view(s[0])] + dir_children_view(s.drop_first())
    }
}

impl View for DirNode {
    type V = DirView;

    open spec fn view(&self) -> DirView {
        dir_view(*self)
    }
}

pub broadcast proof fn lemma_dir_children_view_len(s: Seq<DirNode>)
    ensures
        (#[trigger] dir_children_view(s)).len() == s.len(),
    decreases s,
{
    if s.len() > 0 {
        lemma_dir_children_view_len(s.drop_first());
    }
}

pub broadcast proof fn lemma_dir_children_view_index(s: Seq<DirNode>, i: int)
    requires
        0 <= i < s.len(),
    ensures
        #[trigger] dir_children_view(s)[i] == dir_view(s[i]),
    decreases s,
{
    lemma_dir_children_view_len(s);
    if i > 0 {
        lemma_dir_children_view_index(s.drop_first(), i - 1);
    }
}

/// One node of the built mailbox tree: its identifier (the path), the
/// label shown for it, the unread count that label reflects, and its
/// children in the same order as the walk reported them.
pub struct MailboxNode {
    pub id: String,
    pub label: String,
    pub unread: u64,
    pub children: Vec<MailboxNode>,
}

/// The mathematical shape of a [`MailboxNode`].
pub struct MailboxView {
    pub id: Seq<char>,
    pub label: Seq<char>,
    pub unread: u64,
    pub children: Seq<MailboxView>,
}

pub open spec fn mailbox_view(m: MailboxNode) -> MailboxView
    decreases m,
{
    MailboxView {
        id: m.id@,
        label: m.label@,
        unread: m.unread,
        children: mailbox_children_view(m.children@),
    }
}

pub open spec fn mailbox_children_view(s: Seq<MailboxNode>) -> Seq<MailboxView>
    decreases s,
{
    if s.len() == 0 {
        Seq::empty()
    } else {
        seq![mailbox_view(s[0])] + mailbox_children_view(s.drop_first())
    }
}

impl View for MailboxNode {
    type V = MailboxView;

    open spec fn view(&self) -> MailboxView {
        mailbox_view(*self)
    }
}

pub broadcast proof fn lemma_mailbox_children_view_len(s: Seq<MailboxNode>)
    ensures
        (#[trigger] mailbox_children_view(s)).len() == s.len(),
    decreases s,
{
    if s.len() > 0 {
        lemma_mailbox_children_view_len(s.drop_first());
    }
}

pub broadcast proof fn lemma_mailbox_children_view_index(s: Seq<MailboxNode>, i: int)
    requires
        0 <= i < s.len(),
    ensures
        #[trigger] mailbox_children_view(s)[i] == mailbox_view(s[i]),
    decreases s,
{
    lemma_mailbox_children_view_len(s);
    if i > 0 {
        lemma_mailbox_children_view_index(s.drop_first(), i - 1);
    }
}

impl MailboxNode {
    /// A node with no children in the built tree is a leaf: selecting it
    /// loads a mail index rather than expanding the node.
    pub fn is_leaf(&self) -> (r: bool)
        ensures
            r == (self@.children.len() == 0),
    {
        broadcast use lemma_mailbox_children_view_len;

        self.children.len() == 0
    }
}

/// Addition that stops at the largest representable count instead of
/// wrapping; unread totals use it so a scan can never overflow.
pub open spec fn sat_add(a: u64, b: u64) -> u64 {
    if a + b > u64::MAX {
        u64::MAX
    } else {
        (a + b) as u64
    }
}

fn sat_add_exec(a: u64, b: u64) -> (r: u64)
    ensures
        r == sat_add(a, b),
{
    if a > u64::MAX - b {
        u64::MAX
    } else {
        a + b
    }
}

/// The unread total of the first `n` child entries, folded left with
/// saturating addition.
pub open spec fn children_unread_upto(cs: Seq<DirView>, n: int) -> u64
    decreases n,
{
    if n <= 0 {
        0
    } else {
        sat_add(children_unread_upto(cs, n - 1), cs[n - 1].unread)
    }
}

/// The unread count displayed for an entry: its own area's count plus
/// the counts of its direct child entries.
pub open spec fn total_unread(t: DirView) -> u64 {
    sat_add(t.unread, children_unread_upto(t.children, t.children.len() as int))
}

/// The label of a node: the base name, with `(N)` appended when the
/// displayed unread count N is positive.
pub open spec fn label_of(name: Seq<char>, unread: u64) -> Seq<char> {
    if unread > 0 {
        name + seq!['('] + dec_str(unread as nat) + seq![')']
    } else {
        name
    }
}

/// What `dir_tree` builds from an entry, descending `depth` further levels.
pub open spec fn tree_spec(t: DirView, depth: nat) -> MailboxView
    decreases depth, 0nat,
{
    MailboxView {
        id: t.path,
        label: label_of(t.name, total_unread(t)),
        unread: total_unread(t),
        children: if depth == 0 {
            Seq::empty()
        } else {
            trees_spec(t.children, (depth - 1) as nat)
        },
    }
}

pub open spec fn trees_spec(cs: Seq<DirView>, depth: nat) -> Seq<MailboxView>
    decreases depth, cs.len() + 1,
{
    if cs.len() == 0 {
        Seq::empty()
    } else {
        seq![tree_spec(cs[0], depth)] + trees_spec(cs.drop_first(), depth)
    }
}

pub broadcast proof fn lemma_trees_spec_len(cs: Seq<DirView>, depth: nat)
    ensures
        (#[trigger] trees_spec(cs, depth)).len() == cs.len(),
    decreases cs.len(),
{
    if cs.len() > 0 {
        lemma_trees_spec_len(cs.drop_first(), depth);
    }
}

pub broadcast proof fn lemma_trees_spec_index(cs: Seq<DirView>, depth: nat, i: int)
    requires
        0 <= i < cs.len(),
    ensures
        #[trigger] trees_spec(cs, depth)[i] == tree_spec(cs[i], depth),
    decreases cs.len(),
{
    lemma_trees_spec_len(cs, depth);
    if i > 0 {
        lemma_trees_spec_index(cs.drop_first(), depth, i - 1);
    }
}

/// Builds the label for `name` with displayed count `unread`.
fn make_label(name: &String, unread: u64) -> (r: String)
    ensures
        r@ == label_of(name@, unread),
{
    if unread > 0 {
        let mut s = name.clone();
        s.append("(");
        let d = u64_to_dec(unread);
        s.append(d.as_str());
        s.append(")");
        proof {
            reveal_strlit("(");
            reveal_strlit(")");
            assert(s@ =~= label_of(name@, unread));
        }
        s
    } else {
        name.clone()
    }
}

/// Computes the displayed unread count of one entry.
#[verifier::loop_isolation(false)]
fn compute_total_unread(t: &DirNode) -> (r: u64)
    ensures
        r == total_unread(t@),
{
    broadcast use {lemma_dir_children_view_len, lemma_dir_children_view_index};

    let mut acc: u64 = 0;
    let mut i: usize = 0;
    while i < t.children.len()
        invariant
            0 <= i <= t.children@.len(),
            acc == children_unread_upto(dir_children_view(t.children@), i as int),
        decreases t.children@.len() - i,
    {
        acc = sat_add_exec(acc, t.children[i].unread);
        i = i + 1;
    }
    sat_add_exec(t.unread, acc)
}

/// Builds the mailbox tree for entry `t`, descending `depth` further
/// levels; entries below the limit still contribute to their parent's
/// displayed unread count but get no node of their own.
#[verifier::loop_isolation(false)]
pub fn dir_tree(t: &DirNode, depth: u64) -> (r: MailboxNode)
    ensures
        r@ == tree_spec(t@, depth as nat),
    decreases depth, 0nat,
{
    broadcast use {
        lemma_dir_children_view_len,
        lemma_dir_children_view_index,
        lemma_mailbox_children_view_len,
        lemma_mailbox_children_view_index,
        lemma_trees_spec_len,
        lemma_trees_spec_index,
    };

    let unread = compute_total_unread(t);
    let label = make_label(&t.name, unread);
    let mut children: Vec<MailboxNode> = Vec::new();
    if depth > 0 {
        let mut i: usize = 0;
        while i < t.children.len()
            invariant
                0 <= i <= t.children@.len(),
                depth > 0,
                children@.len() == i,
                forall|j: int|
                    0 <= j < i ==> mailbox_view(#[trigger] children@[j]) == trees_spec(
                        dir_children_view(t.children@),
                        (depth - 1) as nat,
                    )[j],
            decreases t.children@.len() - i,
        {
            let c = dir_tree(&t.children[i], depth - 1);
            children.push(c);
            i = i + 1;
        }
    }
    let r = MailboxNode { id: t.path.clone(), label, unread, children };
    proof {
        if depth == 0 {
            assert(mailbox_children_view(r.children@) =~= Seq::<MailboxView>::empty());
        } else {
            assert(mailbox_children_view(r.children@) =~= trees_spec(
                dir_children_view(t.children@),
                (depth - 1) as nat,
            ));
        }
        assert(r@ =~= tree_spec(t@, depth as nat));
    }
    r
}

/// Relies on maildir's `Maildir::count_new`: it counts the entries of the
/// unread (`new`) area of the maildir at `path`.  What it returns depends
/// on what is on disk, so nothing is promised of the value.
#[verifier::external_body]
fn maildir_count_new(path: &str) -> (r: u64)
{
    maildir::Maildir::from(path).count_new() as u64
}

/// Two walk results have the same shape when names, paths and child
/// structure agree; the unread counts are free.
pub open spec fn same_shape(a: DirView, b: DirView) -> bool
    decreases a,
{
    a.name == b.name && a.path == b.path && same_shapes(a.children, b.children)
}

pub open spec fn same_shapes(xs: Seq<DirView>, ys: Seq<DirView>) -> bool
    decreases xs,
{
    xs.len() == ys.len() && (xs.len() == 0 || (same_shape(xs[0], ys[0]) && same_shapes(
        xs.drop_first(),
        ys.drop_first(),
    )))
}

proof fn lemma_same_shapes_intro(xs: Seq<DirView>, ys: Seq<DirView>)
    requires
        xs.len() == ys.len(),
        forall|i: int| 0 <= i < xs.len() ==> #[trigger] same_shape(xs[i], ys[i]),
    ensures
        same_shapes(xs, ys),
    decreases xs,
{
    if xs.len() > 0 {
        assert(same_shape(xs[0], ys[0]));
        assert forall|i: int|
            0 <= i < xs.drop_first().len() implies #[trigger] same_shape(
            xs.drop_first()[i],
            ys.drop_first()[i],
        ) by {
            assert(xs.drop_first()[i] == xs[i + 1]);
            assert(ys.drop_first()[i] == ys[i + 1]);
            assert(same_shape(xs[i + 1], ys[i + 1]));
        }
        lemma_same_shapes_intro(xs.drop_first(), ys.drop_first());
    }
}

/// Rebuilds the walk result with the unread count of every entry read
/// from its maildir's unread area; everything else is kept as given.
#[verifier::loop_isolation(false)]
pub fn read_counts(t: &DirNode) -> (r: DirNode)
    ensures
        same_shape(t@, r@),
    decreases t,
{
    broadcast use {lemma_dir_children_view_len, lemma_dir_children_view_index};

    let unread = maildir_count_new(t.path.as_str());
    let mut children: Vec<DirNode> = Vec::new();
    let mut i: usize = 0;
    while i < t.children.len()
        invariant
            0 <= i <= t.children@.len(),
            children@.len() == i,
            forall|j: int|
                0 <= j < i ==> same_shape(
                    dir_view(t.children@[j]),
                    dir_view(#[trigger] children@[j]),
                ),
        decreases t.children@.len() - i,
    {
        let c = read_counts(&t.children[i]);
        children.push(c);
        i = i + 1;
    }
    let r = DirNode { name: t.name.clone(), path: t.path.clone(), unread, children };
    proof {
        lemma_same_shapes_intro(dir_children_view(t.children@), dir_children_view(r.children@));
    }
    r
}

/// Scans the subtree at entry `t`: reads every entry's unread count from
/// disk, then builds the mailbox tree down to `depth` further levels.
/// The result is the tree built from some walk result of the same shape
/// as `t`; which unread counts it carries depends on the disk.
pub fn scan_dir(t: &DirNode, depth: u64) -> (r: MailboxNode)
    ensures
        exists|c: DirView| #[trigger] same_shape(t@, c) && r@ == tree_spec(c, depth as nat),
{
    let counted = read_counts(t);
    let r = dir_tree(&counted, depth);
    proof {
        assert(same_shape(t@, counted@) && r@ == tree_spec(counted@, depth as nat));
    }
    r
}

/// The number of nodes in a built mailbox tree.
pub open spec fn mailbox_count(m: MailboxView) -> nat
    decreases m,
{
    1 + mailbox_count_seq(m.children)
}

pub open spec fn mailbox_count_seq(s: Seq<MailboxView>) -> nat
    decreases s,
{
    if s.len() == 0 {
        0
    } else {
        mailbox_count(s[0]) + mailbox_count_seq(s.drop_first())
    }
}

/// The number of walk entries reachable within `depth` further levels.
pub open spec fn dir_count_within(t: DirView, depth: nat) -> nat
    decreases depth, 0nat,
{
    1 + if depth == 0 {
        0
    } else {
        dir_count_seq(t.children, (depth - 1) as nat)
    }
}

pub open spec fn dir_count_seq(cs: Seq<DirView>, depth: nat) -> nat
    decreases depth, cs.len() + 1,
{
    if cs.len() == 0 {
        0
    } else {
        dir_count_within(cs[0], depth) + dir_count_seq(cs.drop_first(), depth)
    }
}

/// The built tree has exactly one node per walk entry within the depth
/// limit: entries the walk could not read are simply absent from it.
pub proof fn lemma_scan_node_count(t: DirView, depth: nat)
    ensures
        mailbox_count(tree_spec(t, depth)) == dir_count_within(t, depth),
    decreases depth, 0nat,
{
    if depth > 0 {
        lemma_scan_node_count_seq(t.children, (depth - 1) as nat);
    }
}

pub proof fn lemma_scan_node_count_seq(cs: Seq<DirView>, depth: nat)
    ensures
        mailbox_count_seq(trees_spec(cs, depth)) == dir_count_seq(cs, depth),
    decreases depth, cs.len() + 1,
{
    if cs.len() > 0 {
        lemma_scan_node_count(cs[0], depth);
        lemma_scan_node_count_seq(cs.drop_first(), depth);
        assert(trees_spec(cs, depth).drop_first() =~= trees_spec(cs.drop_first(), depth));
        assert(trees_spec(cs, depth)[0] == tree_spec(cs[0], depth));
    }
}

/// Walk results of the same shape have the same entry count at every depth.
pub proof fn lemma_same_shape_count(a: DirView, b: DirView, depth: nat)
    requires
        same_shape(a, b),
    ensures
        dir_count_within(a, depth) == dir_count_within(b, depth),
    decreases depth, 0nat,
{
    if depth > 0 {
        lemma_same_shape_count_seq(a.children, b.children, (depth - 1) as nat);
    }
}

pub proof fn lemma_same_shape_count_seq(xs: Seq<DirView>, ys: Seq<DirView>, depth: nat)
    requires
        same_shapes(xs, ys),
    ensures
        dir_count_seq(xs, depth) == dir_count_seq(ys, depth),
    decreases depth, xs.len() + 1,
{
    if xs.len() > 0 {
        lemma_same_shape_count(xs[0], ys[0], depth);
        lemma_same_shape_count_seq(xs.drop_first(), ys.drop_first(), depth);
    }
}

/// What `scan_dir` promises about size: whatever counts the disk gave,
/// the built tree has exactly one node per entry of the walked shape
/// within the depth limit.
pub proof fn lemma_scan_count_of_shape(t: DirView, c: DirView, depth: nat)
    requires
        same_shape(t, c),
    ensures
        mailbox_count(tree_spec(c, depth)) == dir_count_within(t, depth),
{
    lemma_scan_node_count(c, depth);
    lemma_same_shape_count(t, c, depth);
}

/// After one message in a node's own unread area is read, the next scan
/// of a walk result that differs only in that count shows a displayed
/// unread count smaller by exactly one, as long as the old total had not
/// saturated.
pub proof fn lemma_unread_after_read(t1: DirView, t2: DirView, depth: nat)
    requires
        t2.name == t1.name,
        t2.path == t1.path,
        t2.children == t1.children,
        t1.unread > 0,
        t2.unread == t1.unread - 1,
        total_unread(t1) < u64::MAX,
    ensures
        total_unread(t2) == total_unread(t1) - 1,
        tree_spec(t2, depth).unread == tree_spec(t1, depth).unread - 1,
{
}

} // verus!
