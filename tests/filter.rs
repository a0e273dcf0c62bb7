use ptraf::filter::{Attributes, Expr, Interpretor, IpVersion, Protocol};
use ptraf::parser::{parse_expr, ParseErrorKind};
use ptraf::types::IpAddr;

fn v4(a: u8, b: u8, c: u8, d: u8) -> IpAddr {
    IpAddr::v4(u32::from_be_bytes([a, b, c, d]))
}

#[test]
fn single_statements() {
    assert_eq!(parse_expr("pid[1293]"), Ok(Expr::Pid(1293)));

    assert_eq!(parse_expr("udp"), Ok(Expr::Protocol(Protocol::Udp)));
    assert_eq!(parse_expr("tcp"), Ok(Expr::Protocol(Protocol::Tcp)));

    assert_eq!(parse_expr("stcp").unwrap_err().column, 1);
    assert_eq!(parse_expr("uvp").unwrap_err().column, 1);

    assert_eq!(parse_expr("ipv4"), Ok(Expr::IpVersion(IpVersion::IpV4)));
    assert_eq!(parse_expr("ipv6"), Ok(Expr::IpVersion(IpVersion::IpV6)));

    assert_eq!(parse_expr("port[1231]"), Ok(Expr::Port(1231)));
    assert_eq!(parse_expr("lport[2345]"), Ok(Expr::LocalPort(2345)));
    assert_eq!(parse_expr("rport[43323]"), Ok(Expr::RemotePort(43323)));

    assert_eq!(parse_expr("port[1239921232]").unwrap_err().column, 16);

    let ex_v6_addr = IpAddr::v6(0x1050_0000_0000_0000_0005_0600_300c_326b);
    assert_eq!(
        parse_expr("raddr[1050:0:0:0:5:600:300c:326b]"),
        Ok(Expr::RemoteAddr(ex_v6_addr))
    );

    assert_eq!(parse_expr("addr[10.0.254.0]"), Ok(Expr::Addr(v4(10, 0, 254, 0))));
    assert_eq!(parse_expr("laddr[10.0.234.4]"), Ok(Expr::LocalAddr(v4(10, 0, 234, 4))));
    assert_eq!(parse_expr("raddr[192.168.1.12]"), Ok(Expr::RemoteAddr(v4(192, 168, 1, 12))));
    assert_eq!(parse_expr("raddr[1.1.1.1]"), Ok(Expr::RemoteAddr(v4(1, 1, 1, 1))));
}

#[test]
fn logical_operators() {
    assert_eq!(
        parse_expr("(pid[3221] or tcp) and ipv4"),
        Ok(Expr::And(
            Box::new(Expr::Or(
                Box::new(Expr::Pid(3221)),
                Box::new(Expr::Protocol(Protocol::Tcp))
            )),
            Box::new(Expr::IpVersion(IpVersion::IpV4))
        ))
    );

    // `and` binds tighter than `or`.
    assert_eq!(
        parse_expr("pid[3221] or tcp and ipv4"),
        Ok(Expr::Or(
            Box::new(Expr::Pid(3221)),
            Box::new(Expr::And(
                Box::new(Expr::Protocol(Protocol::Tcp)),
                Box::new(Expr::IpVersion(IpVersion::IpV4))
            ))
        ))
    );

    assert_eq!(
        parse_expr("pid[3221] and tcp or ipv4"),
        Ok(Expr::Or(
            Box::new(Expr::And(
                Box::new(Expr::Pid(3221)),
                Box::new(Expr::Protocol(Protocol::Tcp))
            )),
            Box::new(Expr::IpVersion(IpVersion::IpV4))
        ))
    );
}

fn packet(remote_port: u16) -> Attributes {
    Attributes {
        pid: 213,
        protocol: Some(Protocol::Tcp),
        ip_version: IpVersion::IpV4,
        local_address: v4(127, 0, 0, 1),
        remote_address: v4(1, 1, 1, 1),
        local_port: 12382,
        remote_port,
    }
}

#[test]
fn filtering() {
    let packet0 = packet(443);
    let packet1 = packet(8443);

    let interpretor =
        Interpretor::parse("tcp and (laddr[127.0.0.1] or laddr[192.168.1.32]) and rport[443]")
            .unwrap();

    assert!(interpretor.filter(&packet0));
    assert!(!interpretor.filter(&packet1));
}

#[test]
fn not_binds_tighter_than_and_and_or() {
    assert_eq!(
        parse_expr("not tcp and udp"),
        Ok(Expr::And(
            Box::new(Expr::Not(Box::new(Expr::Protocol(Protocol::Tcp)))),
            Box::new(Expr::Protocol(Protocol::Udp))
        ))
    );
    assert_eq!(
        parse_expr("tcp or udp or ipv6"),
        Ok(Expr::Or(
            Box::new(Expr::Or(
                Box::new(Expr::Protocol(Protocol::Tcp)),
                Box::new(Expr::Protocol(Protocol::Udp))
            )),
            Box::new(Expr::IpVersion(IpVersion::IpV6))
        ))
    );
}

#[test]
fn whitespace_between_tokens_is_ignored() {
    assert_eq!(
        parse_expr("  ( tcp )\tand\tpid[7] "),
        parse_expr("(tcp) and pid[7]")
    );
    assert!(parse_expr(" (tcp) and pid[7]").is_ok());
}

#[test]
fn parse_error_kinds() {
    let e = parse_expr("").unwrap_err();
    assert_eq!((e.line, e.column, e.kind), (1, 1, ParseErrorKind::UnexpectedEnd));
    let e = parse_expr("tcp and").unwrap_err();
    assert_eq!(e.kind, ParseErrorKind::UnexpectedEnd);
    let e = parse_expr("tcp udp").unwrap_err();
    assert_eq!((e.column, e.kind), (5, ParseErrorKind::UnexpectedToken));
    let e = parse_expr("pid[4294967296]").unwrap_err();
    assert_eq!((e.column, e.kind), (15, ParseErrorKind::InvalidNumber));
    assert_eq!(parse_expr("pid[4294967295]"), Ok(Expr::Pid(4294967295)));
    assert_eq!(parse_expr("port[65536]").unwrap_err().kind, ParseErrorKind::InvalidNumber);
    let e = parse_expr("addr[1.2.3.256]").unwrap_err();
    assert_eq!((e.column, e.kind), (6, ParseErrorKind::InvalidAddress));
    assert_eq!(parse_expr("addr[1.2.3]").unwrap_err().kind, ParseErrorKind::InvalidAddress);
    assert_eq!(parse_expr("(tcp").unwrap_err().kind, ParseErrorKind::UnexpectedEnd);
    assert_eq!(parse_expr("and").unwrap_err().kind, ParseErrorKind::UnexpectedToken);
    assert_eq!(parse_expr("pid 3").unwrap_err().kind, ParseErrorKind::UnexpectedToken);
    assert_eq!(e.message(), "invalid ip address");
}

fn ip(a: &IpAddr) -> String {
    match a {
        IpAddr::V4(x) => {
            let b = x.to_be_bytes();
            format!("{}.{}.{}.{}", b[0], b[1], b[2], b[3])
        }
        IpAddr::V6(x) => {
            let g: Vec<String> = (0..8)
                .map(|i| format!("{:x}", (x >> (112 - 16 * i)) & 0xffff))
                .collect();
            g.join(":")
        }
    }
}

fn render(e: &Expr) -> String {
    match e {
        Expr::Pid(p) => format!("pid[{}]", p),
        Expr::Protocol(Protocol::Tcp) => "tcp".to_string(),
        Expr::Protocol(Protocol::Udp) => "udp".to_string(),
        Expr::IpVersion(IpVersion::IpV4) => "ipv4".to_string(),
        Expr::IpVersion(IpVersion::IpV6) => "ipv6".to_string(),
        Expr::Addr(a) => format!("addr[{}]", ip(a)),
        Expr::LocalAddr(a) => format!("laddr[{}]", ip(a)),
        Expr::RemoteAddr(a) => format!("raddr[{}]", ip(a)),
        Expr::Port(p) => format!("port[{}]", p),
        Expr::LocalPort(p) => format!("lport[{}]", p),
        Expr::RemotePort(p) => format!("rport[{}]", p),
        Expr::And(a, b) => format!("({} and {})", render(a), render(b)),
        Expr::Or(a, b) => format!("({} or {})", render(a), render(b)),
        Expr::Not(a) => format!("not {}", render(a)),
    }
}

#[test]
fn parse_render_round_trip() {
    let ast = Expr::Or(
        Box::new(Expr::And(
            Box::new(Expr::Not(Box::new(Expr::Protocol(Protocol::Udp)))),
            Box::new(Expr::LocalAddr(v4(192, 168, 1, 32))),
        )),
        Box::new(Expr::Not(Box::new(Expr::Or(
            Box::new(Expr::RemoteAddr(IpAddr::v6(0xfe80_0000_0000_0000_0000_0000_0000_0001))),
            Box::new(Expr::And(
                Box::new(Expr::Port(0)),
                Box::new(Expr::Pid(u32::MAX)),
            )),
        )))),
    );
    let text = render(&ast);
    assert_eq!(parse_expr(&text), Ok(ast.clone()));
    for atom in [
        Expr::IpVersion(IpVersion::IpV4),
        Expr::IpVersion(IpVersion::IpV6),
        Expr::Protocol(Protocol::Tcp),
        Expr::Addr(v4(0, 0, 0, 0)),
        Expr::LocalPort(65535),
        Expr::RemotePort(1),
    ] {
        assert_eq!(parse_expr(&render(&atom)), Ok(atom.clone()));
    }
}

#[test]
fn de_morgan_on_a_packet() {
    let p = packet(443);
    let a = Expr::Protocol(Protocol::Udp);
    let b = Expr::RemotePort(443);
    let lhs = Interpretor::new(Expr::Not(Box::new(Expr::And(Box::new(a.clone()), Box::new(b.clone())))));
    let rhs = Interpretor::new(Expr::Or(
        Box::new(Expr::Not(Box::new(a.clone()))),
        Box::new(Expr::Not(Box::new(b.clone()))),
    ));
    assert_eq!(lhs.filter(&p), rhs.filter(&p));
    let lhs = Interpretor::new(Expr::Not(Box::new(Expr::Or(Box::new(a.clone()), Box::new(b.clone())))));
    let rhs = Interpretor::new(Expr::And(
        Box::new(Expr::Not(Box::new(a))),
        Box::new(Expr::Not(Box::new(b))),
    ));
    assert_eq!(lhs.filter(&p), rhs.filter(&p));
    assert!(!lhs.filter(&p));
}

#[test]
fn addr_and_port_match_either_endpoint() {
    let p = packet(443);
    assert!(Interpretor::parse("addr[1.1.1.1]").unwrap().filter(&p));
    assert!(Interpretor::parse("addr[127.0.0.1]").unwrap().filter(&p));
    assert!(Interpretor::parse("port[12382]").unwrap().filter(&p));
    assert!(Interpretor::parse("port[443]").unwrap().filter(&p));
    assert!(!Interpretor::parse("lport[443]").unwrap().filter(&p));
    assert!(!Interpretor::parse("udp or ipv6 or pid[1]").unwrap().filter(&p));
}

#[test]
fn compressed_ipv6_addresses() {
    assert_eq!(parse_expr("raddr[::1]"), Ok(Expr::RemoteAddr(IpAddr::v6(1))));
    assert_eq!(
        parse_expr("addr[fe80::1]"),
        Ok(Expr::Addr(IpAddr::v6(0xfe80_0000_0000_0000_0000_0000_0000_0001)))
    );
    assert_eq!(parse_expr("laddr[::]"), Ok(Expr::LocalAddr(IpAddr::v6(0))));
    assert_eq!(
        parse_expr("laddr[1::]"),
        Ok(Expr::LocalAddr(IpAddr::v6(0x0001_0000_0000_0000_0000_0000_0000_0000)))
    );
    assert_eq!(
        parse_expr("raddr[::ffff:10.0.0.1]"),
        Ok(Expr::RemoteAddr(IpAddr::v6(0xffff_0a00_0001)))
    );
    assert_eq!(
        parse_expr("raddr[0:0:0:0:0:ffff:10.0.0.1]"),
        Ok(Expr::RemoteAddr(IpAddr::v6(0xffff_0a00_0001)))
    );
    assert_eq!(
        parse_expr("raddr[1:2:3:4:5:6:7::]"),
        Ok(Expr::RemoteAddr(IpAddr::v6(0x0001_0002_0003_0004_0005_0006_0007_0000)))
    );
    assert_eq!(
        parse_expr("raddr[2001:DB8::8:800:200C:417A]"),
        Ok(Expr::RemoteAddr(IpAddr::v6(0x2001_0db8_0000_0000_0008_0800_200c_417a)))
    );
    for bad in [
        "raddr[:::]",
        "raddr[1::2::3]",
        "raddr[1:2:3:4:5:6:7:8::]",
        "raddr[1.2.3.4::]",
        "raddr[::12345]",
        "raddr[1:2]",
        "raddr[::1.2.3]",
    ] {
        assert_eq!(parse_expr(bad).unwrap_err().kind, ParseErrorKind::InvalidAddress, "{}", bad);
    }
}

#[test]
fn displayed_ipv6_endpoints_read_back() {
    // The shortest forms that the table prints for these addresses.
    let cases: [(&str, u128); 4] = [
        ("::1", 1),
        ("fe80::1", 0xfe80_0000_0000_0000_0000_0000_0000_0001),
        ("2001:db8::ff00:42:8329", 0x2001_0db8_0000_0000_0000_ff00_0042_8329),
        ("::ffff:192.0.2.128", 0xffff_c000_0280),
    ];
    for (shown, bits) in cases {
        let expr = parse_expr(&format!("raddr[{}]", shown)).unwrap();
        assert_eq!(expr, Expr::RemoteAddr(IpAddr::v6(bits)), "{}", shown);
    }
}
