use device_network::device::DevicePath;
use device_network::system::{
    Address, Device, Mainframe, Network, NetworkError, NetworkNode, System, Terminal,
};

fn mainframe(id: &str, address: u16) -> Device {
    Device::Mainframe(Mainframe {
        id: id.into(),
        address: Address(address),
    })
}

fn relay(id: &str, address: u16) -> Device {
    Device::NetworkNode(NetworkNode {
        id: id.into(),
        address: Address(address),
    })
}

fn terminal(id: &str, address: u16) -> Device {
    Device::Terminal(Terminal {
        id: id.into(),
        address: Address(address),
    })
}

#[test]
fn test_system_structure() {
    let system = System::new();

    assert_eq!(system.mainframe, Address(1));

    let grandparent = system
        .network
        .get_parent(system.terminal)
        .and_then(|p| system.network.get_parent(*p)); // Should be root (mainframe)

    assert_eq!(grandparent, Some(&system.mainframe));
}

#[test]
fn test_device_path() {
    let system = System::new();
    println!("nodes {:?}", system.network.get_node(system.mainframe));
    println!("parents {:?}", system.network.get_parent(system.terminal));
    println!("children {:?}", system.network.get_children(system.mainframe));

    let mainframe = system.network.get_node(system.mainframe).unwrap();
    assert_eq!(
        mainframe.device_path(&system.network).unwrap(),
        "/main".into()
    );
}

#[test]
fn system_starts_with_three_devices() {
    let system = System::new();
    assert_eq!(system.terminal, Address(2));
    assert_eq!(system.network.root(), Some(Address(1)));
    assert_eq!(
        system.network.get_node(Address(1)),
        Some(&mainframe("main", 1))
    );
    assert_eq!(
        system.network.get_node(Address(1001)),
        Some(&relay("net3", 3))
    );
    assert_eq!(
        system.network.get_node(Address(2)),
        Some(&terminal("term1", 2))
    );
    assert_eq!(
        system.network.get_children(Address(1)),
        Some(&vec![Address(1001)])
    );
    assert_eq!(
        system.network.get_children(Address(1001)),
        Some(&vec![Address(2)])
    );
    assert_eq!(system.network.get_children(Address(2)), Some(&Vec::new()));
    assert_eq!(system.network.get_parent(Address(2)), Some(&Address(1001)));
    assert_eq!(system.network.get_parent(Address(1001)), Some(&Address(1)));
    assert_eq!(system.network.get_parent(Address(1)), None);
    assert_eq!(system.network.get_node(Address(3)), None);
}

#[test]
fn terminal_path_runs_from_the_mainframe() {
    let system = System::new();
    let terminal = system.network.get_node(system.terminal).unwrap();
    let path = terminal.device_path(&system.network).unwrap();
    assert_eq!(path.path, vec!["main", "net3", "term1"]);
    assert_eq!(path.to_string(), "main/net3/term1");
}

#[test]
fn device_reports_id_and_address() {
    let main = mainframe("main", 1);
    let net = relay("net3", 3);
    let term = terminal("term1", 2);
    assert_eq!(main.id(), "main");
    assert_eq!(net.id(), "net3");
    assert_eq!(term.id(), "term1");
    assert_eq!(main.address(), Address(1));
    assert_eq!(net.address(), Address(3));
    assert_eq!(term.address(), Address(2));
}

#[test]
fn path_of_a_grandchild_names_root_relay_and_node() {
    let mut network: Network<Device> = Network::new();
    let a = network.connect_with_address(mainframe("A", 1), Address(1), None);
    let r = network.connect_with_address(relay("R", 2), Address(2), Some(a));
    let b = network.connect_with_address(terminal("B", 3), Address(3), Some(r));
    let c = network.connect_with_address(terminal("C", 4), Address(4), Some(r));

    let node_c = network.get_node(c).unwrap();
    assert_eq!(
        node_c.device_path(&network),
        Ok(DevicePath {
            path: vec!["A".to_string(), "R".to_string(), "C".to_string()]
        })
    );
    let node_b = network.get_node(b).unwrap();
    assert_eq!(
        node_b.device_path(&network).unwrap().path,
        vec!["A", "R", "B"]
    );
    let node_r = network.get_node(r).unwrap();
    assert_eq!(node_r.device_path(&network).unwrap().path, vec!["A", "R"]);
    let node_a = network.get_node(a).unwrap();
    assert_eq!(node_a.device_path(&network).unwrap().path, vec!["A"]);
}

#[test]
fn path_follows_issued_addresses() {
    let mut network: Network<Device> = Network::new();
    let a = network
        .connect_to_parent(mainframe("A", 1001), None)
        .unwrap();
    let r = network.connect_with_root(relay("R", 1002), None).unwrap();
    let c = network
        .connect_to_parent(terminal("C", 1003), Some(r))
        .unwrap();
    assert_eq!((a, r, c), (Address(1001), Address(1002), Address(1003)));
    let node_c = network.get_node(c).unwrap();
    assert_eq!(
        node_c.device_path(&network).unwrap().to_string(),
        "A/R/C"
    );
}

#[test]
fn path_is_the_same_when_asked_twice() {
    let system = System::new();
    let terminal = system.network.get_node(system.terminal).unwrap();
    let first = terminal.device_path(&system.network);
    let second = terminal.device_path(&system.network);
    assert_eq!(first, second);
}

#[test]
fn device_outside_the_network_has_only_its_own_name() {
    let system = System::new();
    let stranger = terminal("stranger", 500);
    assert_eq!(
        stranger.device_path(&system.network).unwrap().path,
        vec!["stranger"]
    );
}

#[test]
fn dangling_parent_link_is_reported() {
    let mut network: Network<Device> = Network::new();
    network.connect_with_address(mainframe("A", 1), Address(1), None);
    // a link to address 9, under which nothing is stored
    let c = network.connect_with_address(terminal("C", 2), Address(2), Some(Address(9)));
    assert_eq!(network.get_parent(c), Some(&Address(9)));
    assert_eq!(network.get_node(Address(9)), None);

    let node_c = network.get_node(c).unwrap();
    assert_eq!(
        node_c.device_path(&network),
        Err(NetworkError::DanglingParentLink)
    );
}

#[test]
fn dangling_link_further_up_is_reported() {
    let mut network: Network<Device> = Network::new();
    network.connect_with_address(mainframe("A", 1), Address(1), None);
    let r = network.connect_with_address(relay("R", 2), Address(2), Some(Address(9)));
    let c = network.connect_with_address(terminal("C", 3), Address(3), Some(r));
    let node_c = network.get_node(c).unwrap();
    assert_eq!(
        node_c.device_path(&network),
        Err(NetworkError::DanglingParentLink)
    );
    // the root is not affected
    let node_a = network.get_node(Address(1)).unwrap();
    assert_eq!(node_a.device_path(&network).unwrap().path, vec!["A"]);
}
