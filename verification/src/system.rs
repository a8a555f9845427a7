//! The kinds of device, the path of a device in a network, and the network
//! that a system starts with.

pub use crate::address::Address;
use crate::device::DevicePath;
pub use crate::network::{Network, NetworkError};
use crate::topology::{ranks, Topology};
use vstd::prelude::*;

verus! {

broadcast use vstd::string::group_string_axioms;

/// A relay between the devices of a network.
#[derive(Hash, PartialEq, Eq, Debug)]
pub struct NetworkNode {
    pub id: String,
    pub address: Address,
}

/// The central unit.
#[derive(Hash, PartialEq, Eq, Debug)]
pub struct Mainframe {
    pub id: String,
    pub address: Address,
}

/// A terminal.
#[derive(Hash, PartialEq, Eq, Debug)]
pub struct Terminal {
    pub id: String,
    pub address: Address,
}

/// A device of one of the known kinds. Each has a name and an address.
#[derive(Hash, PartialEq, Eq, Debug)]
pub enum Device {
    Mainframe(Mainframe),
    NetworkNode(NetworkNode),
    Terminal(Terminal),
}

/// The names of the nodes stored under `addresses`, in the same order.
pub open spec fn names(network: Topology<Device>, addresses: Seq<Address>) -> Seq<Seq<char>> {
    addresses.map_values(|a: Address| network.nodes[a].spec_id())
}

impl Device {
    /// The device's name.
    pub open spec fn spec_id(&self) -> Seq<char> {
        match self {
            Device::Mainframe(main) => main.id@,
            Device::NetworkNode(net) => net.id@,
            Device::Terminal(term) => term.id@,
        }
    }

    /// The device's address.
    pub open spec fn spec_address(&self) -> Address {
        match self {
            Device::Mainframe(main) => main.address,
            Device::NetworkNode(net) => net.address,
            Device::Terminal(term) => term.address,
        }
    }

    /// The names from the root of `network` down to this device: those of
    /// the ancestors of the device's address, the farthest first, and then the
    /// device's own. There is no path where the chain of parents reaches a
    /// link under which no node is stored.
    pub open spec fn spec_device_path(&self, network: Topology<Device>) -> Result<
        Seq<Seq<char>>,
        NetworkError,
    > {
        match network.ancestors(self.spec_address()) {
            Some(above) => Ok((seq![self.spec_id()] + names(network, above)).reverse()),
            None => Err(NetworkError::DanglingParentLink),
        }
    }

    /// The device's name.
    pub fn id(&self) -> (id: String)
        ensures
            id@ == self.spec_id(),
    {
        match self {
            Device::Mainframe(main) => main.id.clone(),
            Device::NetworkNode(net) => net.id.clone(),
            Device::Terminal(term) => term.id.clone(),
        }
    }

    /// The device's address.
    #[verifier::when_used_as_spec(spec_address)]
    pub fn address(&self) -> (address: Address)
        ensures
            address == self.spec_address(),
    {
        match self {
            Device::Mainframe(main) => main.address,
            Device::NetworkNode(net) => net.address,
            Device::Terminal(term) => term.address,
        }
    }

    /// The path of this device in `network`, from the root down to the
    /// device. The walk starts at the device's own address and follows the
    /// parent links of the network.
    ///
    /// A parent link under whose address no node is stored ends the walk
    /// with `DanglingParentLink`.
    pub fn device_path(&self, network: &Network<Device>) -> (result: Result<
        DevicePath,
        NetworkError,
    >)
        requires
            network@.acyclic(),
        ensures
            match result {
                Ok(path) => self.spec_device_path(network@) == Ok::<_, NetworkError>(path@),
                Err(e) => self.spec_device_path(network@) == Err::<Seq<Seq<char>>, _>(e),
            },
    {
        let mut upward: Vec<String> = Vec::new();
        upward.push(self.id());
        let mut current = self.address();
        let ghost mut seen: Seq<Address> = Seq::empty();
        loop
            invariant
                network@.acyclic(),
                upward@.map_values(|name: String| name@) == seq![self.spec_id()] + names(
                    network@,
                    seen,
                ),
                network@.ancestors(self.spec_address()) == match network@.ancestors(current) {
                    Some(above) => Some(seen + above),
                    None => None,
                },
            ensures
                network@.ancestors(self.spec_address()) == Some(seen),
            decreases network@.height(current),
        {
            let ghost collected = upward@.map_values(|name: String| name@);
            match network.get_parent(current) {
                None => {
                    assert(seen + Seq::<Address>::empty() == seen);
                    break ;
                },
                Some(p) => {
                    match network.get_node(*p) {
                        None => {
                            return Err(NetworkError::DanglingParentLink);
                        },
                        Some(d) => {
                            proof {
                                let rank = choose|rank: spec_fn(Address) -> nat|
                                    ranks(network@.parent, rank);
                                assert(ranks(network@.parent, rank));
                                assert(network@.parent.contains_key(current));
                                assert forall|above: Seq<Address>|
                                    seen + (seq![*p] + above) == seen.push(*p) + above by {
                                    assert(seen + (seq![*p] + above) =~= seen.push(*p) + above);
                                }
                            }
                            upward.push(d.id());
                            proof {
                                assert(upward@.map_values(|name: String| name@) == collected.push(
                                    d.spec_id(),
                                ));
                                assert(names(network@, seen.push(*p)) == names(
                                    network@,
                                    seen,
                                ).push(d.spec_id()));
                                seen = seen.push(*p);
                            }
                            current = *p;
                        },
                    }
                },
            }
        }
        let ghost collected = upward@.map_values(|name: String| name@);
        let mut path: Vec<String> = Vec::new();
        while upward.len() > 0
            invariant
                upward@.len() + path@.len() == collected.len(),
                upward@.map_values(|name: String| name@) == collected.take(upward@.len() as int),
                forall|i: int|
                    0 <= i < path@.len() ==> (#[trigger] path@[i])@ == collected[collected.len() - 1
                        - i],
            decreases upward.len(),
        {
            let ghost rest = upward@;
            let name = upward.pop().unwrap();
            assert(upward@.map_values(|name: String| name@) == rest.map_values(
                |name: String| name@,
            ).drop_last());
            assert(name@ == rest.map_values(|name: String| name@).last());
            path.push(name);
        }
        assert(path@.map_values(|name: String| name@) == collected.reverse());
        Ok(DevicePath { path })
    }
}

/// A network with the devices that every system starts with, and the
/// addresses of two of them.
pub struct System {
    pub mainframe: Address,
    pub terminal: Address,
    pub network: Network<Device>,
}

impl System {
    /// The system at start: the mainframe `main` is the root, under the
    /// fixed address 1; the relay `net3` hangs below it, under the first
    /// address that the network issues; the terminal `term1` hangs below the
    /// relay, under the fixed address 2. The relay's own record names the
    /// address 3, under which nothing is stored.
    pub fn new() -> (system: System)
        ensures
            system.mainframe == Address(1),
            system.terminal == Address(2),
            system.network@.well_formed(),
            system.network@.root == Some(Address(1)),
            system.network@.issued == 1001,
            system.network@.nodes.dom() == set![Address(1), Address(1001), Address(2)],
            system.network@.nodes[Address(1)] is Mainframe,
            system.network@.nodes[Address(1)].spec_id() == "main"@,
            system.network@.nodes[Address(1)].spec_address() == Address(1),
            system.network@.nodes[Address(1001)] is NetworkNode,
            system.network@.nodes[Address(1001)].spec_id() == "net3"@,
            system.network@.nodes[Address(1001)].spec_address() == Address(3),
            system.network@.nodes[Address(2)] is Terminal,
            system.network@.nodes[Address(2)].spec_id() == "term1"@,
            system.network@.nodes[Address(2)].spec_address() == Address(2),
            system.network@.parent == map![
                Address(1001) => Address(1),
                Address(2) => Address(1001),
            ],
            system.network@.children == map![
                Address(1) => seq![Address(1001)],
                Address(1001) => seq![Address(2)],
                Address(2) => Seq::<Address>::empty(),
            ],
    {
        let mut network: Network<Device> = Network::new();
        let mainframe = Mainframe { id: "main".to_owned(), address: Address(1) };
        let main_address = mainframe.address;
        network.connect_with_address(Device::Mainframe(mainframe), main_address, None);

        let term_main_netnode = NetworkNode { id: "net3".to_owned(), address: Address(3) };
        assert(network@.contains(Address(1)));
        let connected = network.connect_with_root(Device::NetworkNode(term_main_netnode), None);
        let netaddress = connected.unwrap();

        let terminal = Terminal { id: "term1".to_owned(), address: Address(2) };
        let terminal_address = terminal.address;
        assert(network@.contains(Address(1001)));
        network.connect_with_address(
            Device::Terminal(terminal),
            terminal_address,
            Some(netaddress),
        );
        proof {
            assert(network@.nodes.dom() =~= set![Address(1), Address(1001), Address(2)]);
            assert(network@.parent =~= map![
                Address(1001) => Address(1),
                Address(2) => Address(1001),
            ]);
            assert(network@.children =~= map![
                Address(1) => seq![Address(1001)],
                Address(1001) => seq![Address(2)],
                Address(2) => Seq::<Address>::empty(),
            ]);
        }
        System { mainframe: main_address, terminal: terminal_address, network }
    }
}

} // verus!
