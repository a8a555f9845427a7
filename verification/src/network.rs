//! The arena: it owns the nodes, issues their addresses and records who is
//! whose parent and child.

use crate::address::{Address, Counter, FIRST_RESERVED};
use crate::history::Insertion;
use crate::topology::Topology;
use std::collections::HashMap;
use vstd::prelude::*;

verus! {

broadcast use vstd::std_specs::hash::group_hash_axioms;

/// Why an operation on an arena was refused.
#[derive(PartialEq, Eq, Structural, Debug, Clone, Copy)]
pub enum NetworkError {
    /// An insertion named a parent under whose address no node is stored.
    UnknownParent,
    /// A parent link leads to an address under which no node is stored.
    DanglingParentLink,
}

/// A tree of nodes of type `N`, each reached by the address it was stored
/// under.
pub struct Network<N> {
    counter: Counter,
    /// Root of the tree.
    root: Option<Address>,
    /// The nodes of the network, owned by this map.
    nodes: HashMap<u16, N>,
    /// For any node, the nodes that are connected to it as children.
    connections: HashMap<u16, Vec<Address>>,
    /// For any node, its parent, if it has one.
    parent_connection: HashMap<u16, Address>,
}

/// A map keyed by address numbers, read as a map keyed by addresses.
spec fn by_address<V>(m: Map<u16, V>) -> Map<Address, V> {
    Map::new(|a: Address| m.contains_key(a.0), |a: Address| m[a.0])
}

impl<N> View for Network<N> {
    type V = Topology<N>;

    closed spec fn view(&self) -> Topology<N> {
        Topology {
            nodes: by_address(self.nodes@),
            children: by_address(self.connections@.map_values(|kids: Vec<Address>| kids@)),
            parent: by_address(self.parent_connection@),
            root: self.root,
            issued: self.counter.last() as nat,
        }
    }
}

impl<N> Network<N> {
    /// An arena without nodes.
    pub fn new() -> (network: Network<N>)
        ensures
            network@ == Topology::<N>::empty(FIRST_RESERVED as nat),
            network@.well_formed(),
            network@.single_rooted(),
    {
        let network = Network {
            counter: Counter::new(),
            root: None,
            nodes: HashMap::new(),
            connections: HashMap::new(),
            parent_connection: HashMap::new(),
        };
        proof {
            assert(network@.nodes =~= Map::empty());
            assert(network@.children =~= Map::empty());
            assert(network@.parent =~= Map::empty());
            assert(crate::topology::ranks(network@.parent, |a: Address| 0nat));
        }
        network
    }

    /// Stores `new_node` under `new_address`, which the caller has chosen,
    /// and links it below `parent` if one is given. The first node stored
    /// becomes the root.
    ///
    /// Neither the address nor the parent is looked up first. The arena stays
    /// well formed where the address is unused and not one that the allocator
    /// will issue, and the parent, if any, is a node of the arena. A node
    /// already stored under the address is replaced; a parent that is no node
    /// leaves a dangling link.
    pub fn connect_with_address(
        &mut self,
        new_node: N,
        new_address: Address,
        parent: Option<Address>,
    ) -> (address: Address)
        ensures
            address == new_address,
            final(self)@ == old(self)@.attach(new_address, new_node, parent),
            final(self)@ == old(self)@.apply(
                Insertion::WithAddress { node: new_node, address: new_address, parent },
            ),
            final(self)@.children.contains_key(address),
            final(self)@.children[address] == Seq::<Address>::empty(),
            old(self)@.well_formed() && old(self)@.admits(
                Insertion::WithAddress { node: new_node, address: new_address, parent },
            ) ==> final(self)@.well_formed(),
            old(self)@.acyclic() && old(self)@.unlinked(new_address) && parent != Some(new_address)
                ==> final(self)@.acyclic(),
            old(self)@.single_rooted() && (old(self)@.root is None || parent is Some)
                ==> final(self)@.single_rooted(),
    {
        self.nodes.insert(new_address.0, new_node);
        // Assign root if we haven't yet (i.e. this is the first node)
        if self.root.is_none() {
            self.root = Some(new_address);
        }
        if let Some(p) = parent {
            let mut children = match self.connections.remove(&p.0) {
                Some(children) => children,
                None => Vec::new(),
            };
            children.push(new_address);
            self.connections.insert(p.0, children);
            self.parent_connection.insert(new_address.0, p);
        }
        self.connections.insert(new_address.0, Vec::new());
        proof {
            let after = old(self)@.attach(new_address, new_node, parent);
            assert(self@.nodes =~= after.nodes);
            assert(self@.children =~= after.children);
            assert(self@.parent =~= after.parent);
            if old(self)@.well_formed() && old(self)@.admits(
                Insertion::WithAddress { node: new_node, address: new_address, parent },
            ) {
                old(self)@.lemma_attach_keeps_well_formed(new_address, new_node, parent);
            }
            if old(self)@.acyclic() && old(self)@.unlinked(new_address) && parent != Some(
                new_address,
            ) {
                old(self)@.lemma_attach_keeps_acyclic(new_address, new_node, parent);
            }
            if old(self)@.single_rooted() && (old(self)@.root is None || parent is Some) {
                old(self)@.lemma_attach_keeps_single_rooted(new_address, new_node, parent);
            }
        }
        new_address
    }

    /// Stores `new_node` under a newly issued address and links it below
    /// `parent` if one is given. The first node stored becomes the root.
    ///
    /// A parent under whose address no node is stored is refused, and the
    /// arena stays as it was.
    pub fn connect_to_parent(&mut self, new_node: N, parent: Option<Address>) -> (result: Result<
        Address,
        NetworkError,
    >)
        requires
            old(self)@.issued < u16::MAX,
        ensures
            match result {
                Ok(address) => {
                    &&& old(self)@.accepts(parent)
                    &&& address == old(self)@.next_address()
                    &&& final(self)@ == old(self)@.connect(new_node, parent)
                    &&& final(self)@.children.contains_key(address)
                    &&& final(self)@.children[address] == Seq::<Address>::empty()
                },
                Err(e) => {
                    &&& !old(self)@.accepts(parent)
                    &&& e == NetworkError::UnknownParent
                    &&& final(self)@ == old(self)@
                },
            },
            result.ok() == old(self)@.placed(Insertion::ToParent { node: new_node, parent }),
            final(self)@ == old(self)@.apply(Insertion::ToParent { node: new_node, parent }),
            old(self)@.well_formed() ==> final(self)@.well_formed(),
            old(self)@.single_rooted() && (old(self)@.root is None || parent is Some)
                ==> final(self)@.single_rooted(),
            old(self)@.well_formed() && result is Ok ==> !old(self)@.contains(result->Ok_0),
    {
        if let Some(p) = parent {
            if !self.nodes.contains_key(&p.0) {
                return Err(NetworkError::UnknownParent);
            }
        }
        proof {
            if old(self)@.well_formed() {
                old(self)@.lemma_next_address_is_fresh();
                old(self)@.lemma_connect_keeps_well_formed(new_node, parent);
            }
        }
        let new_address = self.counter.next();
        assert(self@ == old(self)@.advance());
        Ok(self.connect_with_address(new_node, new_address, parent))
    }

    /// Stores `new_node` under a newly issued address. In an empty arena it
    /// becomes the root, whatever `parent` says. Otherwise it is linked below
    /// `parent` where one is given, and below the root where none is.
    ///
    /// In an arena that holds nodes, a parent under whose address no node is
    /// stored is refused, and the arena stays as it was.
    pub fn connect_with_root(&mut self, new_node: N, parent: Option<Address>) -> (result: Result<
        Address,
        NetworkError,
    >)
        requires
            old(self)@.issued < u16::MAX,
        ensures
            match result {
                Ok(address) => {
                    &&& old(self)@.accepts(old(self)@.parent_or_root(parent))
                    &&& address == old(self)@.next_address()
                    &&& final(self)@ == old(self)@.connect(
                        new_node,
                        old(self)@.parent_or_root(parent),
                    )
                    &&& final(self)@.children.contains_key(address)
                    &&& final(self)@.children[address] == Seq::<Address>::empty()
                },
                Err(e) => {
                    &&& !old(self)@.accepts(old(self)@.parent_or_root(parent))
                    &&& e == NetworkError::UnknownParent
                    &&& final(self)@ == old(self)@
                },
            },
            result.ok() == old(self)@.placed(Insertion::WithRoot { node: new_node, parent }),
            final(self)@ == old(self)@.apply(Insertion::WithRoot { node: new_node, parent }),
            old(self)@.well_formed() ==> final(self)@.well_formed(),
            old(self)@.rooted() && old(self)@.single_rooted() ==> final(self)@.single_rooted(),
            old(self)@.well_formed() && result is Ok ==> !old(self)@.contains(result->Ok_0),
    {
        proof {
            if old(self)@.rooted() && old(self)@.single_rooted() {
                old(self)@.lemma_with_root_keeps_single_rooted(new_node, parent);
            }
        }
        if self.is_empty() {
            self.connect_to_parent(new_node, None)
        } else {
            match parent {
                None => {
                    let root = self.root;
                    self.connect_to_parent(new_node, root)
                },
                Some(p) => self.connect_to_parent(new_node, Some(p)),
            }
        }
    }

    /// Whether the arena holds no node.
    pub fn is_empty(&self) -> (empty: bool)
        ensures
            empty == self@.is_empty(),
    {
        let empty = self.nodes.is_empty();
        proof {
            if empty {
                assert forall|a: Address| !self@.nodes.contains_key(a) by {
                    assert(!self.nodes@.dom().contains(a.0));
                }
            } else {
                let k = choose|k: u16| self.nodes@.dom().contains(k);
                assert(self@.nodes.contains_key(Address(k)));
            }
        }
        empty
    }

    /// The address of the root: that of the node that was stored first.
    pub fn root(&self) -> (root: Option<Address>)
        ensures
            root == self@.root,
    {
        self.root
    }

    /// Whether a node is stored under `address`.
    pub fn contains(&self, address: Address) -> (known: bool)
        ensures
            known == self@.contains(address),
    {
        self.nodes.contains_key(&address.0)
    }

    /// Whether the allocator can issue another address.
    pub fn can_allocate(&self) -> (more: bool)
        ensures
            more == (self@.issued < u16::MAX),
    {
        self.counter.has_next()
    }

    /// The node stored under `address`, if there is one.
    pub fn get_node(&self, address: Address) -> (node: Option<&N>)
        ensures
            match node {
                Some(n) => self@.contains(address) && *n == self@.nodes[address],
                None => !self@.contains(address),
            },
    {
        self.nodes.get(&address.0)
    }

    /// The parent recorded for `address`. None is recorded for the root, for
    /// a node that was stored without one, and for an address that is not in
    /// use.
    pub fn get_parent(&self, address: Address) -> (parent: Option<&Address>)
        ensures
            match parent {
                Some(p) => self@.parent.contains_key(address) && *p == self@.parent[address],
                None => !self@.parent.contains_key(address),
            },
    {
        self.parent_connection.get(&address.0)
    }

    /// The child list recorded for `address`, in insertion order. A node
    /// without children has an empty one.
    pub fn get_children(&self, address: Address) -> (children: Option<&Vec<Address>>)
        ensures
            match children {
                Some(c) => self@.children.contains_key(address) && c@ == self@.children[address],
                None => !self@.children.contains_key(address),
            },
    {
        self.connections.get(&address.0)
    }
}

} // verus!
