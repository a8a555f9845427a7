//! The mathematical model of an arena: which nodes it holds, how they are
//! linked, and what an insertion does to it.

use crate::address::Address;
use vstd::prelude::*;

verus! {

/// What an arena holds, as plain mathematics.
pub struct Topology<N> {
    /// The node stored under each address.
    pub nodes: Map<Address, N>,
    /// The child list recorded for an address, in insertion order.
    pub children: Map<Address, Seq<Address>>,
    /// The parent recorded for an address.
    pub parent: Map<Address, Address>,
    /// The address of the root, once a node has been inserted.
    pub root: Option<Address>,
    /// The number of the address that the allocator issued last.
    pub issued: nat,
}

/// `rank` strictly decreases along every recorded parent link.
pub open spec fn ranks(parent: Map<Address, Address>, rank: spec_fn(Address) -> nat) -> bool {
    forall|a: Address| #[trigger] parent.contains_key(a) ==> rank(parent[a]) < rank(a)
}

impl<N> Topology<N> {
    /// The arena into which nothing has been inserted, whose allocator last
    /// "issued" `start`.
    pub open spec fn empty(start: nat) -> Self {
        Topology {
            nodes: Map::empty(),
            children: Map::empty(),
            parent: Map::empty(),
            root: None,
            issued: start,
        }
    }

    /// A node is stored under `a`.
    #[verifier::inline]
    pub open spec fn contains(self, a: Address) -> bool {
        self.nodes.contains_key(a)
    }

    /// No node is stored at all.
    pub open spec fn is_empty(self) -> bool {
        forall|a: Address| !self.nodes.contains_key(a)
    }

    /// The child list of `a`, empty where none is recorded.
    pub open spec fn kids(self, a: Address) -> Seq<Address> {
        if self.children.contains_key(a) {
            self.children[a]
        } else {
            Seq::empty()
        }
    }

    /// The parent named by an insertion, if any, is a node of the arena.
    pub open spec fn accepts(self, parent: Option<Address>) -> bool {
        parent matches Some(p) ==> self.contains(p)
    }

    /// The arena after `node` is stored under `a`, linked below `parent` if
    /// one is given. The first node stored becomes the root.
    pub open spec fn attach(self, a: Address, node: N, parent: Option<Address>) -> Self {
        let linked = match parent {
            Some(p) => self.children.insert(p, self.kids(p).push(a)),
            None => self.children,
        };
        Topology {
            nodes: self.nodes.insert(a, node),
            children: linked.insert(a, Seq::empty()),
            parent: match parent {
                Some(p) => self.parent.insert(a, p),
                None => self.parent,
            },
            root: if self.root is None {
                Some(a)
            } else {
                self.root
            },
            issued: self.issued,
        }
    }

    /// The address that the allocator issues next.
    pub open spec fn next_address(self) -> Address {
        Address((self.issued + 1) as u16)
    }

    /// The arena after the allocator has issued one more address.
    pub open spec fn advance(self) -> Self {
        Topology { issued: self.issued + 1, ..self }
    }

    /// The arena after `node` is stored under a newly issued address.
    pub open spec fn connect(self, node: N, parent: Option<Address>) -> Self {
        self.advance().attach(self.next_address(), node, parent)
    }

    /// The parent below which an insertion that defaults to the root links
    /// its node: none in an empty arena, the named parent where one is
    /// given, and the root otherwise.
    pub open spec fn parent_or_root(self, parent: Option<Address>) -> Option<Address> {
        if self.is_empty() {
            None
        } else if parent is Some {
            parent
        } else {
            self.root
        }
    }

    /// The root is set exactly when the arena holds a node; it is one of the
    /// nodes and has no parent.
    pub open spec fn rooted(self) -> bool {
        &&& self.root is None <==> self.is_empty()
        &&& self.root matches Some(r) ==> self.contains(r) && !self.parent.contains_key(r)
    }

    /// Every address that the links speak of is a node of the arena, and every
    /// node has a child list.
    pub open spec fn links_resolve(self) -> bool {
        &&& forall|a: Address| self.children.contains_key(a) <==> self.nodes.contains_key(a)
        &&& forall|a: Address| #[trigger]
            self.parent.contains_key(a) ==> self.contains(a) && self.contains(self.parent[a])
    }

    /// Parent links and child lists say the same: a node with parent `p`
    /// stands exactly once in the child list of `p`, and every entry of a
    /// child list has the list's owner as its parent.
    pub open spec fn mutually_linked(self) -> bool {
        &&& forall|x: Address| #[trigger]
            self.parent.contains_key(x) ==> self.kids(self.parent[x]).contains(x)
        &&& forall|p: Address, i: int|
            0 <= i < self.kids(p).len() ==> {
                &&& self.parent.contains_key(#[trigger] self.kids(p)[i])
                &&& self.parent[self.kids(p)[i]] == p
            }
        &&& forall|p: Address| #[trigger] self.kids(p).no_duplicates()
    }

    /// Every node but the root has a parent.
    pub open spec fn single_rooted(self) -> bool {
        forall|a: Address| #[trigger]
            self.nodes.contains_key(a) && self.root != Some(a) ==> self.parent.contains_key(a)
    }

    /// No node is its own ancestor.
    pub open spec fn acyclic(self) -> bool {
        exists|rank: spec_fn(Address) -> nat| ranks(self.parent, rank)
    }

    /// No parent link leaves `a` and none leads to `a`.
    pub open spec fn unlinked(self, a: Address) -> bool {
        &&& !self.parent.contains_key(a)
        &&& forall|x: Address| #[trigger] self.parent.contains_key(x) ==> self.parent[x] != a
    }

    /// Every node's address is one that the allocator will not issue again.
    pub open spec fn allocation_safe(self) -> bool {
        forall|a: Address| #[trigger] self.nodes.contains_key(a) ==> a.0 <= self.issued
    }

    /// The arena is a forest with one designated root.
    pub open spec fn well_formed(self) -> bool {
        &&& self.rooted()
        &&& self.links_resolve()
        &&& self.mutually_linked()
        &&& self.acyclic()
        &&& self.allocation_safe()
    }

    /// A measure that strictly decreases from a node to its parent.
    pub open spec fn height(self, a: Address) -> nat {
        (choose|rank: spec_fn(Address) -> nat| ranks(self.parent, rank))(a)
    }

    /// The addresses of the ancestors of `a`, nearest first, or `None` where
    /// the chain reaches a parent link under which no node is stored.
    pub open spec fn ancestors(self, a: Address) -> Option<Seq<Address>>
        decreases self.height(a),
        when self.acyclic()
    {
        if !self.parent.contains_key(a) {
            Some(Seq::empty())
        } else if !self.contains(self.parent[a]) {
            None
        } else {
            match self.ancestors(self.parent[a]) {
                Some(above) => Some(seq![self.parent[a]] + above),
                None => None,
            }
        }
    }
}

/// What holds of an arena after a node was stored in it.
impl<N> Topology<N> {
    /// **Root stability.** The first node stored becomes the root, and no
    /// later insertion changes the root.
    pub proof fn lemma_root_is_stable(self, a: Address, node: N, parent: Option<Address>)
        ensures
            self.root is None ==> self.attach(a, node, parent).root == Some(a),
            self.root is Some ==> self.attach(a, node, parent).root == self.root,
            self.root is None ==> self.connect(node, parent).root == Some(self.next_address()),
            self.root is Some ==> self.connect(node, parent).root == self.root,
    {
    }

    /// **Empty children on insert.** A node that was just stored has a child
    /// list, and the list is empty.
    pub proof fn lemma_new_node_is_childless(self, a: Address, node: N, parent: Option<Address>)
        ensures
            self.attach(a, node, parent).children.contains_key(a),
            self.attach(a, node, parent).children[a] == Seq::<Address>::empty(),
            self.connect(node, parent).children.contains_key(self.next_address()),
            self.connect(node, parent).children[self.next_address()] == Seq::<Address>::empty(),
    {
    }

    /// **Uniqueness.** In a well-formed arena the address that the allocator
    /// issues next is not in use.
    pub proof fn lemma_next_address_is_fresh(self)
        requires
            self.allocation_safe(),
            self.issued < u16::MAX,
        ensures
            !self.contains(self.next_address()),
            !self.advance().contains(self.next_address()),
    {
    }

    /// Storing a node under an unused address, below no parent or below a
    /// node of the arena, keeps parent links and child lists mutual inverses.
    pub proof fn lemma_attach_keeps_links_mutual(
        self,
        a: Address,
        node: N,
        parent: Option<Address>,
    )
        requires
            self.links_resolve(),
            self.mutually_linked(),
            !self.contains(a),
            self.accepts(parent),
        ensures
            self.attach(a, node, parent).links_resolve(),
            self.attach(a, node, parent).mutually_linked(),
    {
        let after = self.attach(a, node, parent);
        // no child list holds the new address yet
        assert forall|p: Address, i: int| 0 <= i < self.kids(p).len() implies #[trigger] self.kids(
            p,
        )[i] != a by {
            assert(self.parent.contains_key(self.kids(p)[i]));
        }
        assert forall|p: Address| #[trigger] after.kids(p).no_duplicates() by {
            assert(self.kids(p).no_duplicates());
        }
        assert forall|p: Address, i: int| 0 <= i < after.kids(p).len() implies {
            &&& after.parent.contains_key(#[trigger] after.kids(p)[i])
            &&& after.parent[after.kids(p)[i]] == p
        } by {
            if i < self.kids(p).len() {
                assert(self.parent.contains_key(self.kids(p)[i]));
            }
        }
        assert forall|x: Address| #[trigger] after.parent.contains_key(x) implies after.kids(
            after.parent[x],
        ).contains(x) by {
            let p = after.parent[x];
            if x == a {
                assert(after.kids(p)[self.kids(p).len() as int] == a);
            } else {
                let i = choose|i: int| 0 <= i < self.kids(p).len() && self.kids(p)[i] == x;
                assert(after.kids(p)[i] == x);
            }
        }
    }

    /// Storing a node under an address that no link speaks of, below no
    /// parent or below another address, creates no cycle.
    pub proof fn lemma_attach_keeps_acyclic(self, a: Address, node: N, parent: Option<Address>)
        requires
            self.acyclic(),
            self.unlinked(a),
            parent != Some(a),
        ensures
            self.attach(a, node, parent).acyclic(),
    {
        let after = self.attach(a, node, parent);
        let rank = choose|rank: spec_fn(Address) -> nat| ranks(self.parent, rank);
        match parent {
            Some(p) => {
                let above = |x: Address| if x == a { rank(p) + 1 } else { rank(x) } as nat;
                assert forall|x: Address| #[trigger] after.parent.contains_key(x) implies above(
                    after.parent[x],
) < above(x) by {
                    assert(x != a ==> self.parent.contains_key(x));
                }
                assert(ranks(after.parent, above));
            },
            None => {
                assert(ranks(after.parent, rank));
            },
        }
    }

    /// Where every node but the root has a parent, the same holds after a
    /// node is stored as the first of the arena, or below a parent.
    pub proof fn lemma_attach_keeps_single_rooted(
        self,
        a: Address,
        node: N,
        parent: Option<Address>,
    )
        requires
            self.single_rooted(),
            self.root is None || parent is Some,
        ensures
            self.attach(a, node, parent).single_rooted(),
    {
        let after = self.attach(a, node, parent);
        assert forall|x: Address| #[trigger]
            after.nodes.contains_key(x) && after.root != Some(x) implies after.parent.contains_key(
            x,
        ) by {
            if x != a {
                assert(self.nodes.contains_key(x));
            }
        }
    }

    /// **Parent/child mutual inverse**, and the rest of what makes an arena
    /// well formed: all of it survives the storing of a node under an unused
    /// address that the allocator will not issue, below no parent or below a
    /// node of the arena.
    pub proof fn lemma_attach_keeps_well_formed(
        self,
        a: Address,
        node: N,
        parent: Option<Address>,
    )
        requires
            self.well_formed(),
            !self.contains(a),
            self.accepts(parent),
            a.0 <= self.issued,
        ensures
            self.attach(a, node, parent).well_formed(),
    {
        let after = self.attach(a, node, parent);
        self.lemma_attach_keeps_links_mutual(a, node, parent);
        self.lemma_attach_keeps_acyclic(a, node, parent);
        // an arena without a root holds no node that could be the parent
        assert(self.root is None ==> parent is None);
        assert(after.contains(a));
    }

    /// An insertion under a newly issued address, below no parent or below a
    /// node of the arena, keeps a well-formed arena well formed.
    pub proof fn lemma_connect_keeps_well_formed(self, node: N, parent: Option<Address>)
        requires
            self.well_formed(),
            self.accepts(parent),
            self.issued < u16::MAX,
        ensures
            self.connect(node, parent).well_formed(),
    {
        self.lemma_next_address_is_fresh();
        let advanced = self.advance();
        assert(advanced.well_formed()) by {
            assert(advanced.parent == self.parent);
            assert forall|p: Address| #[trigger] advanced.kids(p) == self.kids(p) by {}
        }
        advanced.lemma_attach_keeps_well_formed(self.next_address(), node, parent);
    }
}

} // verus!
