use raft::node::{addr_to_id, id_to_addr, IpAddress, RaftRequest, RaftResponse, SocketAddress};

#[test]
fn v4_address_id() {
    let a = SocketAddress { ip: IpAddress::V4([127, 0, 0, 1]), port: 8080 };
    assert_eq!(addr_to_id(&a), 0x0000_ffff_7f00_1f91);
}

#[test]
fn v6_address_id_keeps_last_eight_octets() {
    let mut o = [0u8; 16];
    for i in 0..16 {
        o[i] = (i as u8) + 1;
    }
    let a = SocketAddress { ip: IpAddress::V6(o), port: 0x0102 };
    assert_eq!(addr_to_id(&a), 0x090a_0b0c_0d0e_1012);
}

#[test]
fn loopback_v6_id() {
    let mut o = [0u8; 16];
    o[15] = 1;
    let a = SocketAddress { ip: IpAddress::V6(o), port: 50052 };
    assert_eq!(addr_to_id(&a), 50053);
}

#[test]
fn id_to_addr_splits_id() {
    let a = id_to_addr(0x1234_5678_9abc_def0);
    assert_eq!(a.port, 0xdef0);
    match a.ip {
        IpAddress::V6(o) => assert_eq!(o, [0, 0, 0, 0, 0, 0, 0, 0, 0x12, 0x34, 0x56, 0x78, 0x9a, 0xbc, 0, 0]),
        IpAddress::V4(_) => panic!("expected an IPv6 address"),
    }
}

#[test]
fn id_roundtrip() {
    for id in [0u64, 1, 0xffff, 0x1_0000, 0xdead_beef_cafe_f00d, u64::MAX] {
        assert_eq!(addr_to_id(&id_to_addr(id)), id);
    }
}

#[test]
fn address_of_id_has_same_id() {
    let a = SocketAddress { ip: IpAddress::V4([10, 1, 2, 3]), port: 7 };
    let id = addr_to_id(&a);
    assert_eq!(id, 0x0000_ffff_0a01_020a);
    assert_eq!(addr_to_id(&id_to_addr(id)), id);
}

#[test]
fn id_wraps_around() {
    let a = SocketAddress { ip: IpAddress::V6([0xff; 16]), port: 3 };
    assert_eq!(addr_to_id(&a), 2);
}

#[test]
fn same_port_ids_differ_in_low_bits() {
    // [::1:0:0:1]:1 and [::1]:1
    let mut x = [0u8; 16];
    x[9] = 1;
    x[15] = 1;
    let mut y = [0u8; 16];
    y[15] = 1;
    let a = SocketAddress { ip: IpAddress::V6(x), port: 1 };
    let b = SocketAddress { ip: IpAddress::V6(y), port: 1 };
    assert_ne!(addr_to_id(&a), addr_to_id(&b));
}

#[test]
fn same_port_ids_ignore_high_bits() {
    let mut x = [0u8; 16];
    x[0] = 0x20;
    x[7] = 0xff;
    x[15] = 1;
    let mut y = [0u8; 16];
    y[15] = 1;
    let a = SocketAddress { ip: IpAddress::V6(x), port: 9 };
    let b = SocketAddress { ip: IpAddress::V6(y), port: 9 };
    assert_eq!(addr_to_id(&a), addr_to_id(&b));
}

#[test]
fn address_with_zero_ends_roundtrips() {
    let o = [0, 0, 0, 0, 0, 0, 0, 0, 1, 2, 3, 4, 5, 6, 0, 0];
    let a = SocketAddress { ip: IpAddress::V6(o), port: 4242 };
    let back = id_to_addr(addr_to_id(&a));
    assert_eq!(back.port, 4242);
    match back.ip {
        IpAddress::V6(p) => assert_eq!(p, o),
        IpAddress::V4(_) => panic!("expected an IPv6 address"),
    }
}

#[test]
fn request_bytes() {
    let r = RaftRequest::new(vec![1, 2, 3]);
    assert_eq!(r.to_bytes(), vec![1, 2, 3]);
    assert!(RaftRequest::new(vec![]).to_bytes().is_empty());
    let resp = RaftResponse::new(Some(String::from("done")));
    assert_eq!(resp.clone().into_inner().as_deref(), Some("done"));
    assert!(RaftResponse::new(None).into_inner().is_none());
    let r2 = r.clone();
    assert_eq!(format!("{:?}", r2.to_bytes()), "[1, 2, 3]");
}
