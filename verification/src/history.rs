//! Sequences of insertions into one arena, and what holds after any of them.

use crate::address::Address;
use crate::topology::Topology;
use vstd::prelude::*;

verus! {

/// One insertion, named after the way it finds its address and its parent.
pub enum Insertion<N> {
    /// Under a newly issued address, below `parent` if one is given.
    ToParent { node: N, parent: Option<Address> },
    /// Under a newly issued address, below `parent` or else below the root.
    WithRoot { node: N, parent: Option<Address> },
    /// Under an address that the caller has chosen.
    WithAddress { node: N, address: Address, parent: Option<Address> },
}

impl<N> Topology<N> {
    /// The address under which `op` stores its node, or `None` where the
    /// insertion is refused.
    pub open spec fn placed(self, op: Insertion<N>) -> Option<Address> {
        match op {
            Insertion::ToParent { node, parent } => if self.accepts(parent) {
                Some(self.next_address())
            } else {
                None
            },
            Insertion::WithRoot { node, parent } => if self.accepts(self.parent_or_root(parent)) {
                Some(self.next_address())
            } else {
                None
            },
            Insertion::WithAddress { node, address, parent } => Some(address),
        }
    }

    /// The arena after `op`. A refused insertion leaves it as it was.
    pub open spec fn apply(self, op: Insertion<N>) -> Self {
        match op {
            Insertion::ToParent { node, parent } => if self.accepts(parent) {
                self.connect(node, parent)
            } else {
                self
            },
            Insertion::WithRoot { node, parent } => if self.accepts(self.parent_or_root(parent)) {
                self.connect(node, self.parent_or_root(parent))
            } else {
                self
            },
            Insertion::WithAddress { node, address, parent } => self.attach(address, node, parent),
        }
    }

    /// The arena after the insertions of `ops`, made in order.
    pub open spec fn apply_all(self, ops: Seq<Insertion<N>>) -> Self
        decreases ops.len(),
    {
        if ops.len() == 0 {
            self
        } else {
            self.apply_all(ops.drop_last()).apply(ops.last())
        }
    }

    /// What the caller of an insertion has to see to: an address of the
    /// caller's choice is unused, is not one that the allocator will issue,
    /// and the parent beside it is a node of the arena.
    pub open spec fn admits(self, op: Insertion<N>) -> bool {
        op matches Insertion::WithAddress { node, address, parent } ==> {
            &&& !self.contains(address)
            &&& address.0 <= self.issued
            &&& self.accepts(parent)
        }
    }

    /// Each insertion of `ops` is one that the arena admits when its turn
    /// comes, and the allocator has an address left for each.
    pub open spec fn admits_all(self, ops: Seq<Insertion<N>>) -> bool {
        &&& self.issued + ops.len() <= u16::MAX
        &&& forall|i: int|
            0 <= i < ops.len() ==> #[trigger] self.apply_all(ops.take(i)).admits(ops[i])
    }

    /// An insertion removes no node and issues at most one address.
    pub proof fn lemma_apply_grows(self, op: Insertion<N>)
        ensures
            self.issued <= self.apply(op).issued <= self.issued + 1,
            forall|a: Address| self.contains(a) ==> #[trigger] self.apply(op).nodes.contains_key(a),
            self.placed(op) matches Some(a) ==> self.apply(op).contains(a),
    {
    }

    /// An admitted insertion keeps a well-formed arena well formed, and the
    /// address it stores its node under was not in use before.
    pub proof fn lemma_apply_keeps_well_formed(self, op: Insertion<N>)
        requires
            self.well_formed(),
            self.admits(op),
            self.issued < u16::MAX,
        ensures
            self.apply(op).well_formed(),
            self.placed(op) matches Some(a) ==> !self.contains(a),
    {
        self.lemma_next_address_is_fresh();
        match op {
            Insertion::ToParent { node, parent } => {
                if self.accepts(parent) {
                    self.lemma_connect_keeps_well_formed(node, parent);
                }
            },
            Insertion::WithRoot { node, parent } => {
                if self.accepts(self.parent_or_root(parent)) {
                    self.lemma_connect_keeps_well_formed(node, self.parent_or_root(parent));
                }
            },
            Insertion::WithAddress { node, address, parent } => {
                self.lemma_attach_keeps_well_formed(address, node, parent);
            },
        }
    }

    /// An insertion that links its node below the root unless another parent
    /// is named leaves no node but the root without a parent.
    pub proof fn lemma_with_root_keeps_single_rooted(self, node: N, parent: Option<Address>)
        requires
            self.rooted(),
            self.single_rooted(),
        ensures
            self.apply(Insertion::WithRoot { node, parent }).single_rooted(),
    {
        if self.accepts(self.parent_or_root(parent)) {
            self.advance().lemma_attach_keeps_single_rooted(
                self.next_address(),
                node,
                self.parent_or_root(parent),
            );
        }
    }

    /// A prefix of admitted insertions is admitted.
    pub proof fn lemma_admits_prefix(self, ops: Seq<Insertion<N>>, n: int)
        requires
            self.admits_all(ops),
            0 <= n <= ops.len(),
        ensures
            self.admits_all(ops.take(n)),
    {
        assert forall|i: int| 0 <= i < n implies #[trigger] self.apply_all(
            ops.take(n).take(i),
        ).admits(ops.take(n)[i]) by {
            assert(ops.take(n).take(i) == ops.take(i));
        }
    }

    /// **Parent/child mutual inverse, for every state.** Whatever admitted
    /// insertions are made into a well-formed arena, it stays well formed: in
    /// particular its parent links and child lists stay mutual inverses. No
    /// node is removed on the way, and as many addresses are issued at most
    /// as insertions are made.
    pub proof fn lemma_apply_all_keeps_well_formed(self, ops: Seq<Insertion<N>>)
        requires
            self.well_formed(),
            self.admits_all(ops),
        ensures
            self.apply_all(ops).well_formed(),
            self.apply_all(ops).mutually_linked(),
            self.issued <= self.apply_all(ops).issued <= self.issued + ops.len(),
            forall|a: Address|
                self.contains(a) ==> #[trigger] self.apply_all(ops).nodes.contains_key(a),
        decreases ops.len(),
    {
        if ops.len() > 0 {
            let before = self.apply_all(ops.drop_last());
            self.lemma_admits_prefix(ops, ops.len() - 1);
            self.lemma_apply_all_keeps_well_formed(ops.drop_last());
            before.lemma_apply_keeps_well_formed(ops.last());
            before.lemma_apply_grows(ops.last());
        }
    }

    /// **Uniqueness.** Of the insertions made into a well-formed arena, no
    /// two store their nodes under the same address.
    pub proof fn lemma_addresses_are_distinct(self, ops: Seq<Insertion<N>>, i: int, j: int)
        requires
            self.well_formed(),
            self.admits_all(ops),
            0 <= i < j < ops.len(),
            self.apply_all(ops.take(i)).placed(ops[i]) is Some,
            self.apply_all(ops.take(j)).placed(ops[j]) is Some,
        ensures
            self.apply_all(ops.take(i)).placed(ops[i]) != self.apply_all(ops.take(j)).placed(
                ops[j],
            ),
    {
        let at_i = self.apply_all(ops.take(i));
        let after_i = at_i.apply(ops[i]);
        let at_j = self.apply_all(ops.take(j));
        let first = at_i.placed(ops[i])->0;
        // after the earlier insertion its address is in use
        at_i.lemma_apply_grows(ops[i]);
        assert(ops.take(i + 1).drop_last() == ops.take(i));
        assert(after_i.contains(first));
        // and it stays in use until the later one
        let between = ops.take(j).skip(i + 1);
        assert(ops.take(j) == ops.take(i + 1) + between);
        self.lemma_apply_all_splits(ops.take(i + 1), between);
        self.lemma_admits_prefix(ops, i + 1);
        self.lemma_apply_all_keeps_well_formed(ops.take(i + 1));
        self.lemma_admits_prefix(ops, j);
        self.lemma_admits_suffix(ops.take(i + 1), between);
        after_i.lemma_apply_all_keeps_well_formed(between);
        assert(at_j.contains(first));
        // the later insertion takes an address that is not in use
        self.lemma_apply_all_keeps_well_formed(ops.take(j));
        at_j.lemma_apply_keeps_well_formed(ops[j]);
    }

    /// Insertions made one run after the other are made in one run.
    pub proof fn lemma_apply_all_splits(self, first: Seq<Insertion<N>>, then: Seq<Insertion<N>>)
        ensures
            self.apply_all(first + then) == self.apply_all(first).apply_all(then),
        decreases then.len(),
    {
        if then.len() > 0 {
            assert((first + then).drop_last() == first + then.drop_last());
            self.lemma_apply_all_splits(first, then.drop_last());
        }
    }

    /// What is admitted as the later part of a run is admitted after the
    /// earlier part.
    pub proof fn lemma_admits_suffix(self, first: Seq<Insertion<N>>, then: Seq<Insertion<N>>)
        requires
            self.well_formed(),
            self.admits_all(first + then),
        ensures
            self.apply_all(first).admits_all(then),
    {
        let all = first + then;
        assert(all.take(first.len() as int) == first);
        self.lemma_admits_prefix(all, first.len() as int);
        self.lemma_apply_all_keeps_well_formed(first);
        assert forall|i: int| 0 <= i < then.len() implies #[trigger] self.apply_all(
            first,
        ).apply_all(then.take(i)).admits(then[i]) by {
            assert(all.take(first.len() + i) == first + then.take(i));
            self.lemma_apply_all_splits(first, then.take(i));
            assert(self.apply_all(all.take(first.len() + i)).admits(all[first.len() + i]));
        }
    }

    /// **Root stability.** The address of the node that is stored first is
    /// the root, and stays the root whatever is inserted later.
    pub proof fn lemma_first_insertion_stays_root(
        self,
        first: Insertion<N>,
        later: Seq<Insertion<N>>,
    )
        requires
            self.root is None,
            self.placed(first) is Some,
        ensures
            self.apply(first).apply_all(later).root == self.placed(first),
        decreases later.len(),
    {
        if later.len() > 0 {
            self.lemma_first_insertion_stays_root(first, later.drop_last());
        }
    }
}

} // verus!
