use y7ke_bootstrap::addr::{parse_addr_args, ParsedAddr};
use y7ke_bootstrap::descriptor::shorthand_descriptors;

const PEER: &str = "12D3KooWExamplePeer";

fn addrs(texts: &[&str]) -> Vec<ParsedAddr> {
    let args: Vec<String> = texts.iter().map(|t| t.to_string()).collect();
    parse_addr_args(&args).expect("test addresses are valid multiaddrs")
}

fn descriptors(texts: &[&str]) -> Vec<String> {
    shorthand_descriptors(&addrs(texts), PEER)
}

#[test]
fn dns4_tcp_address_gives_transport_free_descriptor() {
    assert_eq!(
        descriptors(&["/dns4/your-host.example/tcp/4101"]),
        vec!["/dns4/your-host.example/4101/p2p/12D3KooWExamplePeer".to_string()]
    );
}

#[test]
fn tcp_and_quic_forms_of_one_endpoint_give_one_line() {
    assert_eq!(
        descriptors(&[
            "/dns4/your-host.example/tcp/4101",
            "/dns4/your-host.example/udp/4101/quic-v1",
        ]),
        vec!["/dns4/your-host.example/4101/p2p/12D3KooWExamplePeer".to_string()]
    );
}

#[test]
fn distinct_endpoints_keep_order_of_first_appearance() {
    assert_eq!(
        descriptors(&[
            "/dns4/b.example/tcp/1",
            "/ip4/10.0.0.1/tcp/2",
            "/dns4/b.example/udp/1/quic-v1",
            "/dns4/a.example/tcp/1",
        ]),
        vec![
            "/dns4/b.example/1/p2p/12D3KooWExamplePeer".to_string(),
            "/ip4/10.0.0.1/2/p2p/12D3KooWExamplePeer".to_string(),
            "/dns4/a.example/1/p2p/12D3KooWExamplePeer".to_string(),
        ]
    );
}

#[test]
fn every_host_kind_keeps_its_network_name() {
    assert_eq!(
        descriptors(&[
            "/dns/h.example/tcp/7",
            "/dns6/h.example/tcp/7",
            "/ip4/203.0.113.7/tcp/7",
            "/ip6/2001:db8::1/udp/7/quic-v1",
        ]),
        vec![
            "/dns/h.example/7/p2p/12D3KooWExamplePeer".to_string(),
            "/dns6/h.example/7/p2p/12D3KooWExamplePeer".to_string(),
            "/ip4/203.0.113.7/7/p2p/12D3KooWExamplePeer".to_string(),
            "/ip6/2001:db8::1/7/p2p/12D3KooWExamplePeer".to_string(),
        ]
    );
}

#[test]
fn ip4_octets_are_rendered_in_decimal() {
    assert_eq!(
        descriptors(&["/ip4/0.10.200.255/tcp/65535"]),
        vec!["/ip4/0.10.200.255/65535/p2p/12D3KooWExamplePeer".to_string()]
    );
}

#[test]
fn port_zero_is_rendered() {
    assert_eq!(
        descriptors(&["/ip4/127.0.0.1/tcp/0"]),
        vec!["/ip4/127.0.0.1/0/p2p/12D3KooWExamplePeer".to_string()]
    );
}

#[test]
fn addresses_without_host_or_port_give_nothing() {
    assert!(descriptors(&["/dns4/only-host.example", "/tcp/4101", "/udp/5/quic-v1"]).is_empty());
    assert!(descriptors(&[]).is_empty());
}

#[test]
fn last_host_and_last_port_win() {
    assert_eq!(
        descriptors(&["/ip4/1.2.3.4/tcp/1/dns4/later.example/udp/2/quic-v1"]),
        vec!["/dns4/later.example/2/p2p/12D3KooWExamplePeer".to_string()]
    );
}

#[test]
fn peer_component_in_address_is_ignored() {
    assert_eq!(
        descriptors(&["/dns4/h.example/tcp/4101/p2p/12D3KooWDUXHhUBbQFBFhVmd5zcxGWxrRXBKNXtnmrBVsfNoL9dc"]),
        vec!["/dns4/h.example/4101/p2p/12D3KooWExamplePeer".to_string()]
    );
}

#[test]
fn same_host_on_other_port_is_another_endpoint() {
    assert_eq!(
        descriptors(&["/dns4/h.example/tcp/1", "/dns4/h.example/tcp/2"]).len(),
        2
    );
}

#[test]
fn no_line_appears_twice() {
    let out = descriptors(&[
        "/dns4/a/tcp/1",
        "/dns4/a/udp/1/quic-v1",
        "/dns4/a/tcp/1",
        "/ip4/1.1.1.1/tcp/1",
        "/ip4/1.1.1.1/udp/1",
    ]);
    for i in 0..out.len() {
        for j in (i + 1)..out.len() {
            assert_ne!(out[i], out[j]);
        }
    }
    assert_eq!(out.len(), 2);
}

#[test]
fn descriptors_of_prefix_are_prefix_of_descriptors() {
    let texts = ["/dns4/a/tcp/1", "/dns4/b/tcp/1", "/dns4/a/udp/1", "/dns4/c/tcp/3"];
    let full = descriptors(&texts);
    for k in 0..=texts.len() {
        let part = descriptors(&texts[..k]);
        assert!(part.len() <= full.len());
        assert_eq!(&full[..part.len()], &part[..]);
    }
}

#[test]
fn a_line_is_listed_exactly_when_some_address_yields_it() {
    let texts = [
        "/dns4/a/tcp/1",
        "/tcp/9",
        "/dns4/b/udp/2/quic-v1",
        "/dns6/a/tcp/1",
        "/dns4/a/udp/1",
    ];
    let all = descriptors(&texts);
    for t in texts {
        for d in descriptors(&[t]) {
            assert!(all.contains(&d));
        }
    }
    for d in &all {
        assert!(texts.iter().any(|t| descriptors(&[t]).contains(d)));
    }
    assert_eq!(all.len(), 3);
}

#[test]
fn distinct_endpoints_give_distinct_lines() {
    let out = descriptors(&[
        "/dns/h.example/tcp/1",
        "/dns4/h.example/tcp/1",
        "/dns4/h.example/tcp/11",
        "/dns4/h2.example/tcp/1",
        "/ip4/1.1.1.1/tcp/1",
        "/ip4/1.1.1.11/tcp/1",
    ]);
    assert_eq!(out.len(), 6);
}

#[test]
fn every_line_splits_into_six_fields() {
    let out = descriptors(&[
        "/dns4/h.example/tcp/1",
        "/ip6/2001:db8::ffff:1.2.3.4/udp/2/quic-v1",
        "/ip4/10.1.2.3/tcp/65535",
        "/dns/x/udp/0",
    ]);
    assert_eq!(out.len(), 4);
    let nets = ["dns4", "dns6", "dns", "ip4", "ip6"];
    for d in &out {
        let f: Vec<&str> = d.split('/').collect();
        assert_eq!(f.len(), 6, "{d}");
        assert_eq!(f[0], "");
        assert!(nets.contains(&f[1]));
        assert!(f[3].parse::<u16>().is_ok());
        assert_eq!(f[4], "p2p");
        assert_eq!(f[5], PEER);
    }
}

#[test]
fn tcp_quic_and_peer_suffixed_forms_give_one_line() {
    let forms = [
        "/ip4/198.51.100.4/tcp/4101",
        "/ip4/198.51.100.4/udp/4101/quic-v1",
        "/ip4/198.51.100.4/tcp/4101/p2p/12D3KooWDUXHhUBbQFBFhVmd5zcxGWxrRXBKNXtnmrBVsfNoL9dc",
    ];
    let one = descriptors(&forms[..1]);
    for f in forms {
        assert_eq!(descriptors(&[f]), one);
    }
    assert_eq!(descriptors(&forms), one);
    assert_eq!(one, vec!["/ip4/198.51.100.4/4101/p2p/12D3KooWExamplePeer".to_string()]);
}
