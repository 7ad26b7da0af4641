//! A parsed syntax tree held as plain values: the nodes in pre-order, each
//! with its kind, the field under which it stands in its parent, the source
//! text it covers and the positions of its children.
use vstd::prelude::*;
use vstd::string::*;

use crate::text::same_text;

verus! {

#[derive(Debug, Clone)]
pub struct SyntaxNode {
    pub kind: String,
    /// The field name under which the node stands in its parent, if any.
    pub field: Option<String>,
    /// The source text that the node covers.
    pub text: String,
    /// Positions of the children in the tree's node list, in order.
    pub children: Vec<usize>,
}

/// A syntax tree whose nodes are listed in pre-order; the first is the root.
#[derive(Debug, Clone)]
pub struct SyntaxTree {
    pub nodes: Vec<SyntaxNode>,
}

/// Every child position names a node of the tree.
pub open spec fn children_in_range(t: Seq<SyntaxNode>) -> bool {
    forall|i: int, j: int|
        0 <= i < t.len() && 0 <= j < t[i].children@.len() ==> #[trigger] t[i].children@[j] < t.len()
}

/// The positions of `s` from `j` on, last first.
pub open spec fn reversed_from(s: Seq<usize>, j: int) -> Seq<usize>
    decreases s.len() - j,
{
    if j >= s.len() || j < 0 {
        seq![]
    } else {
        reversed_from(s, j + 1).push(s[j])
    }
}

/// A depth-first walk that holds `stack` (its top last) and has met the
/// positions before `k` meets the positions `k`, `k + 1`, ... in turn, each
/// once, and ends at the end of the list, within `fuel` steps.
pub open spec fn walks_in_order(t: Seq<SyntaxNode>, stack: Seq<usize>, k: nat, fuel: nat) -> bool
    decreases fuel,
{
    if stack.len() == 0 {
        k == t.len()
    } else if fuel == 0 {
        false
    } else {
        let x = stack.last();
        x == k && walks_in_order(
            t,
            stack.drop_last() + reversed_from(t[x as int].children@, 0),
            k + 1,
            (fuel - 1) as nat,
        )
    }
}

/// The list is a tree in pre-order: every child position names a node, and a
/// depth-first walk from the root, children in order, meets every node once,
/// in list order.
pub open spec fn tree_wf(t: Seq<SyntaxNode>) -> bool {
    &&& children_in_range(t)
    &&& walks_in_order(t, seq![0usize], 0, t.len())
}

pub open spec fn has_field(n: SyntaxNode, f: Seq<char>) -> bool {
    match n.field {
        Some(s) => s@ == f,
        None => false,
    }
}

/// `k` is the first child position of node `i` whose node meets `pred`.
pub open spec fn is_first_child(
    t: Seq<SyntaxNode>,
    i: int,
    pred: spec_fn(SyntaxNode) -> bool,
    k: int,
) -> bool {
    let cs = t[i].children@;
    &&& 0 <= k < cs.len()
    &&& pred(t[cs[k] as int])
    &&& forall|j: int| 0 <= j < k ==> !pred(t[cs[j] as int])
}

/// The first child of node `i` that meets `pred`, if any.
pub open spec fn first_child(t: Seq<SyntaxNode>, i: int, pred: spec_fn(SyntaxNode) -> bool) -> Option<
    int,
> {
    if exists|k: int| is_first_child(t, i, pred, k) {
        Some(t[i].children@[choose|k: int| is_first_child(t, i, pred, k)] as int)
    } else {
        None
    }
}

pub open spec fn field_is(f: Seq<char>) -> spec_fn(SyntaxNode) -> bool {
    |n: SyntaxNode| has_field(n, f)
}

pub open spec fn kind_is(k: Seq<char>) -> spec_fn(SyntaxNode) -> bool {
    |n: SyntaxNode| n.kind@ == k
}

proof fn lemma_first_child_unique(
    t: Seq<SyntaxNode>,
    i: int,
    pred: spec_fn(SyntaxNode) -> bool,
    k: int,
)
    requires
        is_first_child(t, i, pred, k),
    ensures
        first_child(t, i, pred) == Some(t[i].children@[k] as int),
{
    let c = choose|c: int| is_first_child(t, i, pred, c);
    assert(is_first_child(t, i, pred, c));
    if c < k {
        assert(!pred(t[t[i].children@[c] as int]));
    } else if c > k {
        assert(!pred(t[t[i].children@[k] as int]));
    }
}

impl SyntaxTree {
    /// A tree of one node, its root.
    pub fn new(kind: String, text: String) -> (r: Self)
        ensures
            r.nodes@.len() == 1,
            r.nodes@[0].kind == kind,
            r.nodes@[0].text == text,
            r.nodes@[0].field is None,
            r.nodes@[0].children@.len() == 0,
            tree_wf(r.nodes@),
    {
        let root = SyntaxNode { kind, field: None, text, children: Vec::new() };
        let mut nodes = Vec::new();
        nodes.push(root);
        proof {
            let t = nodes@;
            assert(reversed_from(t[0].children@, 0) =~= Seq::<usize>::empty());
            assert(seq![0usize].drop_last() + reversed_from(t[0].children@, 0) =~= Seq::<usize>::empty());
            assert(walks_in_order(t, Seq::<usize>::empty(), 1, 0));
            assert(walks_in_order(t, seq![0usize], 0, 1));
        }
        SyntaxTree { nodes }
    }

    pub fn len(&self) -> (r: usize)
        ensures
            r == self.nodes@.len(),
    {
        self.nodes.len()
    }

    /// Appends a node as the last child of `parent` and returns its position.
    /// Adding the nodes of a tree in pre-order, each under its parent, keeps
    /// the list in pre-order; `is_well_formed` tells whether it is.
    pub fn push_child(&mut self, parent: usize, kind: String, field: Option<String>, text: String) -> (r:
        usize)
        requires
            parent < old(self).nodes@.len(),
            old(self).nodes@.len() < usize::MAX,
        ensures
            r == old(self).nodes@.len(),
            final(self).nodes@.len() == r + 1,
            final(self).nodes@[r as int] == (SyntaxNode {
                kind,
                field,
                text,
                children: final(self).nodes@[r as int].children,
            }),
            final(self).nodes@[r as int].children@.len() == 0,
            final(self).nodes@[parent as int].children@ == old(self).nodes@[parent as int].children@.push(r),
            final(self).nodes@[parent as int].kind == old(self).nodes@[parent as int].kind,
            final(self).nodes@[parent as int].field == old(self).nodes@[parent as int].field,
            final(self).nodes@[parent as int].text == old(self).nodes@[parent as int].text,
            forall|j: int| 0 <= j < r && j != parent ==> final(self).nodes@[j] == old(self).nodes@[j],
            children_in_range(old(self).nodes@) ==> children_in_range(final(self).nodes@),
    {
        let r = self.nodes.len();
        self.nodes.push(SyntaxNode { kind, field, text, children: Vec::new() });
        let mut node = self.nodes.remove(parent);
        node.children.push(r);
        self.nodes.insert(parent, node);
        proof {
            if children_in_range(old(self).nodes@) {
                let t = self.nodes@;
                assert forall|i: int, j: int|
                    0 <= i < t.len() && 0 <= j < t[i].children@.len() implies #[trigger] t[i].children@[j]
                    < t.len() by {
                    if i != parent as int && i != r as int {
                        assert(t[i] == old(self).nodes@[i]);
                    } else if i == parent as int {
                        if j < old(self).nodes@[i].children@.len() {
                            assert(t[i].children@[j] == old(self).nodes@[i].children@[j]);
                        }
                    }
                }
            }
        }
        r
    }

    /// Whether the list is a tree in pre-order.
    pub fn is_well_formed(&self) -> (r: bool)
        ensures
            r == tree_wf(self.nodes@),
    {
        let n = self.nodes.len();
        let mut i: usize = 0;
        while i < n
            invariant
                n == self.nodes@.len(),
                i <= n,
                forall|a: int, b: int|
                    0 <= a < i && 0 <= b < self.nodes@[a].children@.len()
                        ==> #[trigger] self.nodes@[a].children@[b] < n,
            decreases n - i,
        {
            let cs = &self.nodes[i].children;
            let mut j: usize = 0;
            while j < cs.len()
                invariant
                    n == self.nodes@.len(),
                    i < n,
                    j <= cs@.len(),
                    cs@ == self.nodes@[i as int].children@,
                    forall|a: int, b: int|
                        0 <= a < i && 0 <= b < self.nodes@[a].children@.len()
                            ==> #[trigger] self.nodes@[a].children@[b] < n,
                    forall|b: int| 0 <= b < j ==> #[trigger] cs@[b] < n,
                decreases cs@.len() - j,
            {
                if cs[j] >= n {
                    return false;
                }
                j = j + 1;
            }
            i = i + 1;
        }
        if n == 0 {
            return false;
        }
        let ghost t = self.nodes@;
        let mut stack: Vec<usize> = vec![0];
        assert(stack@ =~= seq![0usize]);
        let mut k: usize = 0;
        while stack.len() > 0
            invariant
                t == self.nodes@,
                n == t.len(),
                children_in_range(t),
                k <= n,
                walks_in_order(t, stack@, k as nat, (n - k) as nat) == walks_in_order(
                    t,
                    seq![0usize],
                    0,
                    n as nat,
                ),
            decreases n - k,
        {
            if k == n {
                return false;
            }
            let ghost before = stack@;
            let x = stack.pop().unwrap();
            if x != k {
                return false;
            }
            let cs = &self.nodes[x].children;
            let ghost base = stack@;
            assert(base == before.drop_last());
            let mut j: usize = cs.len();
            while j > 0
                invariant
                    j <= cs@.len(),
                    stack@ == base + reversed_from(cs@, j as int),
                decreases j,
            {
                j = j - 1;
                stack.push(cs[j]);
                assert(stack@ =~= base + reversed_from(cs@, j as int));
            }
            k = k + 1;
        }
        k == n
    }

    /// The first child of node `i` that stands under the field `field`.
    pub fn child_by_field(&self, i: usize, field: &str) -> (r: Option<usize>)
        requires
            i < self.nodes@.len(),
            tree_wf(self.nodes@),
        ensures
            r matches Some(k) ==> k < self.nodes@.len(),
            r == (match first_child(self.nodes@, i as int, field_is(field@)) {
                Some(k) => Some(k as usize),
                None => None::<usize>,
            }),
    {
        let cs = &self.nodes[i].children;
        let mut j: usize = 0;
        while j < cs.len()
            invariant
                i < self.nodes@.len(),
                tree_wf(self.nodes@),
                j <= cs@.len(),
                cs@ == self.nodes@[i as int].children@,
                forall|b: int| 0 <= b < j ==> !has_field(#[trigger] self.nodes@[cs@[b] as int], field@),
            decreases cs@.len() - j,
        {
            let c = cs[j];
            assert(c < self.nodes@.len());
            let hit = match &self.nodes[c].field {
                Some(f) => same_text(f.as_str(), field),
                None => false,
            };
            if hit {
                proof {
                    assert(is_first_child(self.nodes@, i as int, field_is(field@), j as int));
                    lemma_first_child_unique(self.nodes@, i as int, field_is(field@), j as int);
                }
                return Some(c);
            }
            j = j + 1;
        }
        proof {
            assert(!exists|k: int| is_first_child(self.nodes@, i as int, field_is(field@), k));
        }
        None
    }

    /// The first child of node `i` whose kind is `kind`.
    pub fn child_by_kind(&self, i: usize, kind: &str) -> (r: Option<usize>)
        requires
            i < self.nodes@.len(),
            tree_wf(self.nodes@),
        ensures
            r matches Some(k) ==> k < self.nodes@.len(),
            r == (match first_child(self.nodes@, i as int, kind_is(kind@)) {
                Some(k) => Some(k as usize),
                None => None::<usize>,
            }),
    {
        let cs = &self.nodes[i].children;
        let mut j: usize = 0;
        while j < cs.len()
            invariant
                i < self.nodes@.len(),
                tree_wf(self.nodes@),
                j <= cs@.len(),
                cs@ == self.nodes@[i as int].children@,
                forall|b: int| 0 <= b < j ==> (#[trigger] self.nodes@[cs@[b] as int]).kind@ != kind@,
            decreases cs@.len() - j,
        {
            let c = cs[j];
            assert(c < self.nodes@.len());
            if same_text(self.nodes[c].kind.as_str(), kind) {
                proof {
                    assert(is_first_child(self.nodes@, i as int, kind_is(kind@), j as int));
                    lemma_first_child_unique(self.nodes@, i as int, kind_is(kind@), j as int);
                }
                return Some(c);
            }
            j = j + 1;
        }
        proof {
            assert(!exists|k: int| is_first_child(self.nodes@, i as int, kind_is(kind@), k));
        }
        None
    }
}

} // verus!
