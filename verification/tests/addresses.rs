use y7ke_bootstrap::addr::{
    addrs_from_list, external_addrs, listen_targets, parse_addr_args, Component, ParsedAddr,
};

fn parse_one(text: &str) -> Option<ParsedAddr> {
    parse_addr_args(&vec![text.to_string()]).ok().map(|mut v| v.remove(0))
}

#[test]
fn parsing_keeps_components_in_order() {
    let a = parse_one("/dns4/h.example/tcp/4101/p2p/12D3KooWDUXHhUBbQFBFhVmd5zcxGWxrRXBKNXtnmrBVsfNoL9dc")
        .unwrap();
    let cs = a.components();
    assert_eq!(cs.len(), 3);
    assert!(matches!(&cs[0], Component::Dns4(h) if h == "h.example"));
    assert!(matches!(&cs[1], Component::Tcp(4101)));
    assert!(matches!(&cs[2], Component::Other));
    assert_eq!(
        a.multiaddr().to_string(),
        "/dns4/h.example/tcp/4101/p2p/12D3KooWDUXHhUBbQFBFhVmd5zcxGWxrRXBKNXtnmrBVsfNoL9dc"
    );
}

#[test]
fn parsing_reads_ip_components() {
    let a = parse_one("/ip4/192.0.2.9/udp/9/quic-v1").unwrap();
    let cs = a.components();
    assert!(matches!(&cs[0], Component::Ip4([192, 0, 2, 9])));
    assert!(matches!(&cs[1], Component::Udp(9)));
    assert!(matches!(&cs[2], Component::Other));
    let b = parse_one("/ip6/::1/tcp/80").unwrap();
    assert!(matches!(&b.components()[0], Component::Ip6(h) if h == "::1"));
    let c = parse_one("/dns/x.example/tcp/1").unwrap();
    assert!(matches!(&c.components()[0], Component::Dns(h) if h == "x.example"));
    let d = parse_one("/dns6/x.example/tcp/1").unwrap();
    assert!(matches!(&d.components()[0], Component::Dns6(h) if h == "x.example"));
}

#[test]
fn text_without_leading_slash_is_refused() {
    assert!(parse_one("dns4/h/tcp/1").is_none());
    assert!(parse_one("/nonsense").is_none());
    assert!(parse_one("/nonsense/1").is_none());
}

#[test]
fn empty_text_is_the_empty_address() {
    let a = parse_one("").unwrap();
    assert!(a.components().is_empty());
}

#[test]
fn argument_list_fails_on_first_invalid_text() {
    let args = vec![
        "/dns4/a/tcp/1".to_string(),
        "bad-one".to_string(),
        "bad-two".to_string(),
    ];
    assert_eq!(parse_addr_args(&args).err(), Some("bad-one".to_string()));
    let ok = vec!["/dns4/a/tcp/1".to_string(), "/ip4/1.2.3.4/udp/2".to_string()];
    assert_eq!(parse_addr_args(&ok).unwrap().len(), 2);
    assert_eq!(parse_addr_args(&vec![]).unwrap().len(), 0);
}

#[test]
fn list_is_split_on_commas_trimmed_and_empty_items_dropped() {
    let l = addrs_from_list(" /dns4/a.example/tcp/1 , ,bogus,\t/ip4/1.2.3.4/udp/2/quic-v1\n,,");
    assert_eq!(l.accepted.len(), 2);
    assert_eq!(l.accepted[0].multiaddr().to_string(), "/dns4/a.example/tcp/1");
    assert_eq!(l.accepted[1].multiaddr().to_string(), "/ip4/1.2.3.4/udp/2/quic-v1");
    assert_eq!(l.rejected, vec!["bogus".to_string()]);
}

#[test]
fn list_trims_unicode_white_space() {
    let l = addrs_from_list("\u{3000}/dns4/a/tcp/1\u{a0},\u{2003}");
    assert_eq!(l.accepted.len(), 1);
    assert!(l.rejected.is_empty());
}

#[test]
fn empty_list_gives_nothing() {
    let l = addrs_from_list("");
    assert!(l.accepted.is_empty() && l.rejected.is_empty());
    let l = addrs_from_list(" , ,, ");
    assert!(l.accepted.is_empty() && l.rejected.is_empty());
}

#[test]
fn given_addresses_come_before_list_addresses() {
    let given = parse_addr_args(&vec!["/dns4/first/tcp/1".to_string()]).unwrap();
    let all = external_addrs(given, Some("/dns4/second/tcp/2,oops"));
    let texts: Vec<String> = all.accepted.iter().map(|a| a.multiaddr().to_string()).collect();
    assert_eq!(texts, vec!["/dns4/first/tcp/1".to_string(), "/dns4/second/tcp/2".to_string()]);
    assert_eq!(all.rejected, vec!["oops".to_string()]);

    let given = parse_addr_args(&vec!["/dns4/first/tcp/1".to_string()]).unwrap();
    let none = external_addrs(given, None);
    assert_eq!(none.accepted.len(), 1);
    assert!(none.rejected.is_empty());
}

#[test]
fn listen_targets_are_tcp_then_quic_with_ipv4_tcp_required() {
    let t = listen_targets(4101);
    let texts: Vec<&str> = t.iter().map(|x| x.text.as_str()).collect();
    assert_eq!(
        texts,
        vec![
            "/ip4/0.0.0.0/tcp/4101",
            "/ip6/::/tcp/4101",
            "/ip4/0.0.0.0/udp/4101/quic-v1",
            "/ip6/::/udp/4101/quic-v1",
        ]
    );
    let required: Vec<bool> = t.iter().map(|x| x.required).collect();
    assert_eq!(required, vec![true, false, false, false]);
    for x in &t {
        assert_eq!(x.addr.as_ref().unwrap().multiaddr().to_string(), x.text);
    }
}

#[test]
fn listen_targets_render_port_zero() {
    assert_eq!(listen_targets(0)[0].text, "/ip4/0.0.0.0/tcp/0");
}

#[test]
fn every_list_item_is_accepted_or_refused() {
    let l = addrs_from_list("a, /dns4/x/tcp/1 ,b,/ip6/::1/udp/3, c d ");
    assert_eq!(l.accepted.len() + l.rejected.len(), 5);
    assert_eq!(l.rejected, vec!["a".to_string(), "b".to_string(), "c d".to_string()]);
}
