//! The rope: an immutable binary tree of text fragments. Nodes are shared by
//! reference between versions of a buffer and are never changed once built.

use std::rc::Rc;
use vstd::prelude::*;

verus! {

/// A tree, or the absent tree, which stands for the empty text.
pub type NodeRef = Option<Rc<RopeNode>>;

/// A node of a rope: a fragment of text, or two subtrees with the cached
/// character count of the left one.
pub enum RopeNode {
    Leaf { data: Vec<char> },
    Internal { weight: usize, left: NodeRef, right: NodeRef },
}

/// The text that a tree stands for: its fragments from left to right.
pub open spec fn text_of(node: NodeRef) -> Seq<char>
    decreases node,
{
    match node {
        None => Seq::empty(),
        Some(n) => match *n {
            RopeNode::Leaf { data } => data@,
            RopeNode::Internal { weight, left, right } => text_of(left) + text_of(right),
        },
    }
}

/// Every cached weight in the tree is the character count of its left
/// subtree, and every subtree's character count fits in `usize`.
pub open spec fn well_formed(node: NodeRef) -> bool
    decreases node,
{
    match node {
        None => true,
        Some(n) => match *n {
            RopeNode::Leaf { data } => true,
            RopeNode::Internal { weight, left, right } => {
                &&& well_formed(left)
                &&& well_formed(right)
                &&& weight == text_of(left).len()
                &&& text_of(left).len() + text_of(right).len() <= usize::MAX
            },
        },
    }
}

/// The character count of a well-formed tree fits in `usize`.
pub proof fn lemma_length_fits(node: NodeRef)
    requires
        well_formed(node),
    ensures
        text_of(node).len() <= usize::MAX,
{
    match node {
        None => {},
        Some(n) => match *n {
            RopeNode::Leaf { data } => {
                assert(data.len() == data@.len());
            },
            RopeNode::Internal { weight, left, right } => {},
        },
    }
}

/// The characters of a string slice, in order.
pub fn chars_of(s: &str) -> (out: Vec<char>)
    ensures
        out@ == s@,
{
    broadcast use vstd::string::axiom_spec_iter;

    let mut out: Vec<char> = Vec::new();
    for c in it: s.chars()
        invariant
            it.seq() == s@,
            out@ == s@.take(it.index() as int),
    {
        out.push(c);
        assert(out@ =~= s@.take(it.index() + 1));
    }
    assert(s@.take(s@.len() as int) =~= s@);
    out
}

impl RopeNode {
    /// The text below this node.
    pub open spec fn text(&self) -> Seq<char> {
        match *self {
            RopeNode::Leaf { data } => data@,
            RopeNode::Internal { weight, left, right } => text_of(left) + text_of(right),
        }
    }

    /// Well-formedness of the tree below this node.
    pub open spec fn wf(&self) -> bool {
        match *self {
            RopeNode::Leaf { data } => true,
            RopeNode::Internal { weight, left, right } => {
                &&& well_formed(left)
                &&& well_formed(right)
                &&& weight == text_of(left).len()
                &&& text_of(left).len() + text_of(right).len() <= usize::MAX
            },
        }
    }

    /// A leaf that holds the characters of `data`.
    pub fn new_leaf(data: &str) -> (node: NodeRef)
        ensures
            node matches Some(n) && (*n matches RopeNode::Leaf { data: d } && d@ == data@),
            text_of(node) == data@,
            well_formed(node),
    {
        Some(Rc::new(RopeNode::Leaf { data: chars_of(data) }))
    }

    /// A leaf that holds the given characters.
    pub fn leaf_of(data: Vec<char>) -> (node: NodeRef)
        ensures
            node == Some(Rc::new(RopeNode::Leaf { data })),
            text_of(node) == data@,
            well_formed(node),
    {
        Some(Rc::new(RopeNode::Leaf { data }))
    }

    /// An internal node over the two trees; its weight is the character count
    /// of `left`, taken once, here.
    pub fn new_internal(left: NodeRef, right: NodeRef) -> (node: NodeRef)
        requires
            well_formed(left),
            well_formed(right),
            text_of(left).len() + text_of(right).len() <= usize::MAX,
        ensures
            node == Some(
                Rc::new(
                    RopeNode::Internal { weight: text_of(left).len() as usize, left, right },
                ),
            ),
            text_of(node) == text_of(left) + text_of(right),
            well_formed(node),
    {
        let weight: usize = length_of(&left);
        Some(Rc::new(RopeNode::Internal { weight, left, right }))
    }

    /// The number of characters below this node.
    pub fn length(&self) -> (n: usize)
        requires
            self.wf(),
        ensures
            n == self.text().len(),
        decreases self,
    {
        match self {
            RopeNode::Leaf { data } => data.len(),
            RopeNode::Internal { weight, left, right } => {
                let right_len: usize = match right {
                    Some(r) => r.length(),
                    None => 0,
                };
                *weight + right_len
            },
        }
    }
}

/// `Rc::clone`: a second reference to the same node. The node itself is not
/// copied, so the result equals the argument.
#[verifier::external_body]
fn share_node(node: &Rc<RopeNode>) -> (out: Rc<RopeNode>)
    ensures
        out == *node,
{
    Rc::clone(node)
}

/// A second reference to the same tree.
pub fn share(node: &NodeRef) -> (out: NodeRef)
    ensures
        out == *node,
{
    match node {
        None => None,
        Some(n) => Some(share_node(n)),
    }
}

/// The number of characters of a tree; the absent tree has none.
pub fn length_of(node: &NodeRef) -> (n: usize)
    requires
        well_formed(*node),
    ensures
        n == text_of(*node).len(),
{
    match node {
        Some(r) => r.length(),
        None => 0,
    }
}

/// The number of characters of a tree if it is well formed, `None` if it is
/// not.
pub fn checked_length(node: &NodeRef) -> (n: Option<usize>)
    ensures
        n is Some == well_formed(*node),
        n matches Some(count) ==> count == text_of(*node).len(),
    decreases *node,
{
    match node {
        None => Some(0),
        Some(r) => match &**r {
            RopeNode::Leaf { data } => Some(data.len()),
            RopeNode::Internal { weight, left, right } => {
                match checked_length(left) {
                    None => None,
                    Some(left_len) => {
                        if left_len != *weight {
                            None
                        } else {
                            match checked_length(right) {
                                None => None,
                                Some(right_len) => {
                                    if right_len > usize::MAX - left_len {
                                        None
                                    } else {
                                        Some(left_len + right_len)
                                    }
                                },
                            }
                        }
                    },
                }
            },
        },
    }
}

/// One tree that holds the text of `left` followed by that of `right`.
pub fn concatenate(left: NodeRef, right: NodeRef) -> (node: NodeRef)
    requires
        well_formed(left),
        well_formed(right),
        text_of(left).len() + text_of(right).len() <= usize::MAX,
    ensures
        node == Some(
            Rc::new(RopeNode::Internal { weight: text_of(left).len() as usize, left, right }),
        ),
        text_of(node) == text_of(left) + text_of(right),
        well_formed(node),
{
    RopeNode::new_internal(left, right)
}

/// The character at index `i`, or `None` where the text has no such index.
pub fn index_at(node: &NodeRef, i: usize) -> (c: Option<char>)
    requires
        well_formed(*node),
    ensures
        c == (if i < text_of(*node).len() {
            Some(text_of(*node)[i as int])
        } else {
            None
        }),
    decreases *node,
{
    match node {
        None => None,
        Some(n) => match &**n {
            RopeNode::Leaf { data } => {
                if i < data.len() {
                    Some(data[i])
                } else {
                    None
                }
            },
            RopeNode::Internal { weight, left, right } => {
                if i < *weight {
                    index_at(left, i)
                } else {
                    index_at(right, i - *weight)
                }
            },
        },
    }
}

/// Where a split at `i` falls in a text of `len` characters: `i` itself, or
/// the end of the text when `i` lies beyond it.
pub open spec fn clamp(i: int, len: int) -> int {
    if i < len {
        i
    } else {
        len
    }
}

/// Whether `parts` are the two trees that a split of `node` at `i` builds.
/// The absent tree gives two absent trees and a leaf gives two leaves. An
/// internal node whose weight exceeds `i` has its left subtree split, and the
/// second part is a new internal node over what was cut off there and the
/// right subtree as it was; any other internal node has its right subtree
/// split at `i` less the weight, and the first part is a new internal node
/// over the left subtree as it was and what was cut off before.
pub open spec fn is_split_of(parts: (NodeRef, NodeRef), node: NodeRef, i: int) -> bool
    decreases node,
{
    match node {
        None => parts.0 is None && parts.1 is None,
        Some(n) => match *n {
            RopeNode::Leaf { data } => {
                &&& parts.0 matches Some(l) && (*l matches RopeNode::Leaf { data: d } && d@
                    == data@.take(clamp(i, data@.len() as int)))
                &&& parts.1 matches Some(r) && (*r matches RopeNode::Leaf { data: d } && d@
                    == data@.skip(clamp(i, data@.len() as int)))
            },
            RopeNode::Internal { weight, left, right } => {
                if i < weight {
                    parts.1 matches Some(r) && (*r matches RopeNode::Internal {
                        weight: w,
                        left: rest,
                        right: kept,
                    } && kept == right && w == text_of(rest).len() && is_split_of(
                        (parts.0, rest),
                        left,
                        i,
                    ))
                } else {
                    parts.0 matches Some(l) && (*l matches RopeNode::Internal {
                        weight: w,
                        left: kept,
                        right: rest,
                    } && kept == left && w == weight && is_split_of(
                        (rest, parts.1),
                        right,
                        i - weight,
                    ))
                }
            },
        },
    }
}

/// A copy of `data[from..to]`.
fn copy_range(data: &Vec<char>, from: usize, to: usize) -> (out: Vec<char>)
    requires
        from <= to <= data.len(),
    ensures
        out@ == data@.subrange(from as int, to as int),
{
    let mut out: Vec<char> = Vec::new();
    let mut k: usize = from;
    while k < to
        invariant
            from <= k <= to <= data.len(),
            out@ == data@.subrange(from as int, k as int),
        decreases to - k,
    {
        out.push(data[k]);
        k += 1;
        assert(out@ =~= data@.subrange(from as int, k as int));
    }
    out
}

/// Two trees: the text before index `i` and the text from `i` on. An index
/// beyond the end is taken as the end.
pub fn split(node: &NodeRef, i: usize) -> (parts: (NodeRef, NodeRef))
    requires
        well_formed(*node),
    ensures
        well_formed(parts.0),
        well_formed(parts.1),
        text_of(parts.0) == text_of(*node).take(clamp(i as int, text_of(*node).len() as int)),
        text_of(parts.1) == text_of(*node).skip(clamp(i as int, text_of(*node).len() as int)),
        is_split_of(parts, *node, i as int),
    decreases *node,
{
    match node {
        None => {
            assert(text_of(*node).take(0) =~= Seq::<char>::empty());
            assert(text_of(*node).skip(0) =~= Seq::<char>::empty());
            (None, None)
        },
        Some(n) => match &**n {
            RopeNode::Leaf { data } => {
                let at: usize = if i < data.len() {
                    i
                } else {
                    data.len()
                };
                let before = copy_range(data, 0, at);
                let after = copy_range(data, at, data.len());
                (RopeNode::leaf_of(before), RopeNode::leaf_of(after))
            },
            RopeNode::Internal { weight, left, right } => {
                let ghost whole = text_of(*node);
                let ghost l = text_of(*left);
                let ghost r = text_of(*right);
                if i < *weight {
                    let (before, after) = split(left, i);
                    assert(whole.take(i as int) =~= l.take(i as int));
                    assert(whole.skip(i as int) =~= l.skip(i as int) + r);
                    let joined = concatenate(after, share(right));
                    (before, joined)
                } else {
                    let j: usize = i - *weight;
                    let (before, after) = split(right, j);
                    let ghost c = clamp(j as int, r.len() as int);
                    assert(clamp(i as int, whole.len() as int) == l.len() + c);
                    assert(whole.take(l.len() + c) =~= l + r.take(c));
                    assert(whole.skip(l.len() + c) =~= r.skip(c));
                    let joined = concatenate(share(left), before);
                    (joined, after)
                }
            },
        },
    }
}

/// The text with `text` put in at index `i`, or at the end when `i` lies
/// beyond it.
pub open spec fn spec_insert(t: Seq<char>, i: int, text: Seq<char>) -> Seq<char> {
    t.take(clamp(i, t.len() as int)) + text + t.skip(clamp(i, t.len() as int))
}

/// The text without the characters from `start` up to `end`; both are taken
/// as the end of the text when they lie beyond it, and nothing is removed
/// when `end` is before `start`.
pub open spec fn spec_delete(t: Seq<char>, start: int, end: int) -> Seq<char> {
    let s = clamp(start, t.len() as int);
    let e = if end < s {
        s
    } else {
        clamp(end, t.len() as int)
    };
    t.take(s) + t.skip(e)
}

/// Whether `node` is the tree that an insertion of `text` into `root` at `i`
/// builds: `root` split at `i`, a new leaf with `text` joined to the first
/// part, and the second part joined to that.
pub open spec fn is_insert_of(node: NodeRef, root: NodeRef, i: int, text: Seq<char>) -> bool {
    &&& node matches Some(n)
    &&& *n matches RopeNode::Internal { weight, left: front, right: back }
    &&& weight == text_of(front).len()
    &&& front matches Some(f)
    &&& *f matches RopeNode::Internal { weight: front_weight, left: before, right: piece }
    &&& front_weight == text_of(before).len()
    &&& piece matches Some(p)
    &&& *p matches RopeNode::Leaf { data }
    &&& data@ == text
    &&& is_split_of((before, back), root, i)
}

/// Whether `node` is the tree that a deletion from `root` builds: `root`
/// split at `start`, the second part split once more after `count`
/// characters, and the two outer parts joined.
pub open spec fn is_delete_of(node: NodeRef, root: NodeRef, start: int, count: int) -> bool {
    &&& node matches Some(n)
    &&& *n matches RopeNode::Internal { weight, left: before, right: after }
    &&& weight == text_of(before).len()
    &&& exists|rest: NodeRef, removed: NodeRef|
        #![trigger is_split_of((before, rest), root, start), is_split_of((removed, after), rest, count)]
        is_split_of((before, rest), root, start) && is_split_of((removed, after), rest, count)
}

/// Splitting a text at any index and joining the two parts gives the text
/// back.
pub proof fn lemma_split_concatenate(t: Seq<char>, i: int)
    requires
        0 <= i,
    ensures
        t.take(clamp(i, t.len() as int)) + t.skip(clamp(i, t.len() as int)) == t,
{
    assert(t.take(clamp(i, t.len() as int)) + t.skip(clamp(i, t.len() as int)) =~= t);
}

/// An insertion makes the text longer by the number of characters put in.
pub proof fn lemma_insert_length(t: Seq<char>, i: int, text: Seq<char>)
    requires
        0 <= i,
    ensures
        spec_insert(t, i, text).len() == t.len() + text.len(),
{
}

/// Deleting exactly the span that an insertion put in gives the text from
/// before the insertion, so that inserting the same characters at the same
/// index once more gives the text from after it.
pub proof fn lemma_insert_delete_insert(t: Seq<char>, i: int, text: Seq<char>)
    requires
        0 <= i <= t.len(),
    ensures
        spec_delete(spec_insert(t, i, text), i, i + text.len()) == t,
        spec_insert(spec_delete(spec_insert(t, i, text), i, i + text.len()), i, text)
            == spec_insert(t, i, text),
{
    let grown = spec_insert(t, i, text);
    assert(grown.take(i) =~= t.take(i));
    assert(grown.skip(i + text.len()) =~= t.skip(i));
    assert(spec_delete(grown, i, i + text.len()) =~= t);
}

/// A tree for the text of `root` with `text` put in at index `i`.
pub fn insert(root: NodeRef, i: usize, text: &str) -> (node: NodeRef)
    requires
        well_formed(root),
        text_of(root).len() + text@.len() <= usize::MAX,
    ensures
        well_formed(node),
        text_of(node) == spec_insert(text_of(root), i as int, text@),
        text_of(node).len() == text_of(root).len() + text@.len(),
        is_insert_of(node, root, i as int, text@),
{
    insert_chars(root, i, chars_of(text))
}

/// A tree for the text of `root` with the characters `text` put in at index `i`.
pub fn insert_chars(root: NodeRef, i: usize, text: Vec<char>) -> (node: NodeRef)
    requires
        well_formed(root),
        text_of(root).len() + text@.len() <= usize::MAX,
    ensures
        well_formed(node),
        text_of(node) == spec_insert(text_of(root), i as int, text@),
        text_of(node).len() == text_of(root).len() + text@.len(),
        is_insert_of(node, root, i as int, text@),
{
    let (left, right) = split(&root, i);
    let leaf = RopeNode::leaf_of(text);
    concatenate(concatenate(left, leaf), right)
}

/// A tree for the text of `root` without the characters from `start` up to
/// `end`.
pub fn delete(root: NodeRef, start: usize, end: usize) -> (node: NodeRef)
    requires
        well_formed(root),
    ensures
        well_formed(node),
        text_of(node) == spec_delete(text_of(root), start as int, end as int),
        is_delete_of(
            node,
            root,
            start as int,
            if end < start {
                0
            } else {
                end - start
            },
        ),
{
    let (left, rest) = split(&root, start);
    let count: usize = if end < start {
        0
    } else {
        end - start
    };
    let (removed, right) = split(&rest, count);
    assert(is_split_of((left, rest), root, start as int) && is_split_of(
        (removed, right),
        rest,
        count as int,
    ));
    let ghost t = text_of(root);
    let ghost s = clamp(start as int, t.len() as int);
    proof {
        lemma_length_fits(root);
    }
    assert(text_of(rest).len() == t.len() - s);
    assert(text_of(left).len() == s);
    assert(text_of(right).len() <= text_of(rest).len());
    assert(text_of(right) =~= t.skip(
        if end < s {
            s
        } else {
            clamp(end as int, t.len() as int)
        },
    ));
    concatenate(left, right)
}

/// Appends the text of `node` to `out`.
fn flatten_into(node: &NodeRef, out: &mut Vec<char>)
    ensures
        final(out)@ == old(out)@ + text_of(*node),
    decreases *node,
{
    match node {
        None => {
            assert(old(out)@ + text_of(*node) =~= old(out)@);
        },
        Some(n) => match &**n {
            RopeNode::Leaf { data } => {
                let mut k: usize = 0;
                while k < data.len()
                    invariant
                        k <= data.len(),
                        out@ == old(out)@ + data@.take(k as int),
                    decreases data.len() - k,
                {
                    out.push(data[k]);
                    k += 1;
                    assert(out@ =~= old(out)@ + data@.take(k as int));
                }
                assert(data@.take(data.len() as int) =~= data@);
            },
            RopeNode::Internal { weight, left, right } => {
                flatten_into(left, out);
                flatten_into(right, out);
                assert(out@ =~= old(out)@ + (text_of(*left) + text_of(*right)));
            },
        },
    }
}

/// The characters of the whole text, in order.
pub fn flatten(node: &NodeRef) -> (out: Vec<char>)
    ensures
        out@ == text_of(*node),
{
    let mut out: Vec<char> = Vec::new();
    flatten_into(node, &mut out);
    assert(out@ =~= text_of(*node));
    out
}

/// `String::push`: the string afterwards is the string before with `c` at
/// its end.
pub assume_specification[ String::push ](s: &mut String, c: char)
    ensures
        final(s)@ == old(s)@.push(c),
;

/// The whole text as a string.
pub fn report(node: &NodeRef) -> (out: String)
    ensures
        out@ == text_of(*node),
{
    let chars = flatten(node);
    let mut out = String::new();
    let mut k: usize = 0;
    while k < chars.len()
        invariant
            k <= chars.len(),
            out@ == chars@.take(k as int),
        decreases chars.len() - k,
    {
        out.push(chars[k]);
        k += 1;
        assert(out@ =~= chars@.take(k as int));
    }
    assert(chars@.take(chars.len() as int) =~= chars@);
    out
}

} // verus!
