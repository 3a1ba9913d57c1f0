//! Transport-agnostic client descriptors: `/{net}/{host}/{port}/p2p/{peer}`,
//! one per distinct endpoint among the node's external addresses.

use vstd::prelude::*;
use crate::addr::{
    Component, ComponentView, ParsedAddr, addr_views, component_views, host_text_free_of_slash,
    hosts_free_of_slash,
};
use crate::text::{
    decimal, digit_char, lemma_decimal_digits, lemma_decimal_injective,
    lemma_split_at_first_separator, push_decimal, string_views,
};

verus! {

/// The dotted-decimal rendering of an IPv4 address.
pub open spec fn ip4_text(a: [u8; 4]) -> Seq<char> {
    decimal(a@[0] as nat) + "."@ + decimal(a@[1] as nat) + "."@ + decimal(a@[2] as nat) + "."@
        + decimal(a@[3] as nat)
}

/// The network name and host text that a component names, if it names a host.
pub open spec fn host_of(c: ComponentView) -> Option<(Seq<char>, Seq<char>)> {
    match c {
        ComponentView::Dns4(h) => Some(("dns4"@, h)),
        ComponentView::Dns6(h) => Some(("dns6"@, h)),
        ComponentView::Dns(h) => Some(("dns"@, h)),
        ComponentView::Ip4(a) => Some(("ip4"@, ip4_text(a))),
        ComponentView::Ip6(h) => Some(("ip6"@, h)),
        _ => None,
    }
}

/// The port that a component names, if it is a TCP or UDP port.
pub open spec fn port_of(c: ComponentView) -> Option<u16> {
    match c {
        ComponentView::Tcp(p) => Some(p),
        ComponentView::Udp(p) => Some(p),
        _ => None,
    }
}

/// The host named by the last host component of `cs`.
pub open spec fn last_host(cs: Seq<ComponentView>) -> Option<(Seq<char>, Seq<char>)>
    decreases cs.len(),
{
    if cs.len() == 0 {
        None
    } else {
        match host_of(cs.last()) {
            Some(h) => Some(h),
            None => last_host(cs.drop_last()),
        }
    }
}

/// The port named by the last TCP or UDP component of `cs`.
pub open spec fn last_port(cs: Seq<ComponentView>) -> Option<u16>
    decreases cs.len(),
{
    if cs.len() == 0 {
        None
    } else {
        match port_of(cs.last()) {
            Some(p) => Some(p),
            None => last_port(cs.drop_last()),
        }
    }
}

/// The shorthand descriptor of one address, if it names both a host and a port.
pub open spec fn descriptor(cs: Seq<ComponentView>, peer: Seq<char>) -> Option<Seq<char>> {
    match (last_host(cs), last_port(cs)) {
        (Some((net, host)), Some(p)) => Some(descriptor_line(net, host, p, peer)),
        _ => None,
    }
}

/// The line `/{net}/{host}/{port}/p2p/{peer}`.
pub open spec fn descriptor_line(net: Seq<char>, host: Seq<char>, port: u16, peer: Seq<char>) -> Seq<
    char,
> {
    "/"@ + net + "/"@ + host + "/"@ + decimal(port as nat) + "/p2p/"@ + peer
}

/// Whether `n` is one of the network names a descriptor may carry.
pub open spec fn is_net_name(n: Seq<char>) -> bool {
    n == "dns4"@ || n == "dns6"@ || n == "dns"@ || n == "ip4"@ || n == "ip6"@
}

/// Whether `d` is a descriptor line for `peer`: a network name, a host text
/// free of `/`, a port in decimal, so that `d` splits on `/` into the empty
/// text, the network, the host, the port, `p2p` and the peer.
pub open spec fn is_descriptor_line(d: Seq<char>, peer: Seq<char>) -> bool {
    exists|net: Seq<char>, host: Seq<char>, port: u16|
        is_net_name(net) && !host.contains('/') && d == #[trigger] descriptor_line(
            net,
            host,
            port,
            peer,
        )
}

/// The descriptors of a list of addresses: each one at its first appearance,
/// in the order of the addresses, skipping addresses without host or port.
pub open spec fn descriptors(addrs: Seq<Seq<ComponentView>>, peer: Seq<char>) -> Seq<Seq<char>>
    decreases addrs.len(),
{
    if addrs.len() == 0 {
        Seq::empty()
    } else {
        let prev = descriptors(addrs.drop_last(), peer);
        match descriptor(addrs.last(), peer) {
            Some(d) => if prev.contains(d) {
                prev
            } else {
                prev.push(d)
            },
            None => prev,
        }
    }
}

/// No descriptor appears twice: each endpoint yields one line.
pub proof fn lemma_descriptors_distinct(addrs: Seq<Seq<ComponentView>>, peer: Seq<char>)
    ensures
        forall|i: int, j: int|
            0 <= i < j < descriptors(addrs, peer).len() ==> descriptors(addrs, peer)[i]
                != descriptors(addrs, peer)[j],
    decreases addrs.len(),
{
    if addrs.len() > 0 {
        let prev = descriptors(addrs.drop_last(), peer);
        lemma_descriptors_distinct(addrs.drop_last(), peer);
        match descriptor(addrs.last(), peer) {
            Some(d) => {
                if !prev.contains(d) {
                    let cur = prev.push(d);
                    assert forall|i: int, j: int| 0 <= i < j < cur.len() implies cur[i] != cur[j] by {
                        if j == prev.len() {
                            assert(cur[i] == prev[i]);
                        } else {
                            assert(cur[i] == prev[i] && cur[j] == prev[j]);
                        }
                    }
                }
            },
            None => {},
        }
    }
}

/// A line is listed exactly when some address has it as its descriptor; so
/// the list is empty exactly when no address names both a host and a port.
pub proof fn lemma_descriptors_members(addrs: Seq<Seq<ComponentView>>, peer: Seq<char>)
    ensures
        forall|d: Seq<char>|
            descriptors(addrs, peer).contains(d) <==> exists|i: int|
                0 <= i < addrs.len() && #[trigger] descriptor(addrs[i], peer) == Some(d),
        descriptors(addrs, peer).len() == 0 <==> forall|i: int|
            0 <= i < addrs.len() ==> #[trigger] descriptor(addrs[i], peer) is None,
    decreases addrs.len(),
{
    if addrs.len() > 0 {
        let init = addrs.drop_last();
        lemma_descriptors_members(init, peer);
        let prev = descriptors(init, peer);
        let last: int = addrs.len() - 1;
        assert(addrs.last() == addrs[last]);
        assert forall|d: Seq<char>|
            descriptors(addrs, peer).contains(d) implies exists|i: int|
                0 <= i < addrs.len() && #[trigger] descriptor(addrs[i], peer) == Some(d) by {
            if prev.contains(d) {
                let i = choose|i: int| 0 <= i < init.len() && #[trigger] descriptor(init[i], peer) == Some(d);
                assert(addrs[i] == init[i]);
                assert(descriptor(addrs[i], peer) == Some(d));
            } else {
                assert(descriptor(addrs[last], peer) == Some(d));
            }
        }
        assert forall|d: Seq<char>, i: int|
            #![trigger descriptors(addrs, peer).contains(d), descriptor(addrs[i], peer)]
            0 <= i < addrs.len() && descriptor(addrs[i], peer) == Some(d) implies
                descriptors(addrs, peer).contains(d) by {
            if i < last {
                assert(init[i] == addrs[i]);
                assert(descriptor(init[i], peer) == Some(d));
                assert(prev.contains(d));
                let k = choose|k: int| 0 <= k < prev.len() && prev[k] == d;
                assert(descriptors(addrs, peer)[k] == d);
            } else {
                if !prev.contains(d) {
                    assert(descriptors(addrs, peer) == prev.push(d));
                    assert(descriptors(addrs, peer)[prev.len() as int] == d);
                }
            }
        }
        if descriptors(addrs, peer).len() == 0 {
            assert forall|i: int| 0 <= i < addrs.len() implies #[trigger] descriptor(addrs[i], peer) is None by {
                if descriptor(addrs[i], peer) is Some {
                    let d = descriptor(addrs[i], peer)->Some_0;
                    assert(descriptors(addrs, peer).contains(d));
                }
            }
        } else {
            let d = descriptors(addrs, peer)[0];
            assert(descriptors(addrs, peer).contains(d));
        }
    }
}

/// Adding addresses at the end never removes or reorders earlier lines: the
/// descriptors of a prefix of the addresses are a prefix of the descriptors.
pub proof fn lemma_descriptors_prefix(addrs: Seq<Seq<ComponentView>>, k: int, peer: Seq<char>)
    requires
        0 <= k <= addrs.len(),
    ensures
        descriptors(addrs.take(k), peer).len() <= descriptors(addrs, peer).len(),
        descriptors(addrs, peer).take(descriptors(addrs.take(k), peer).len() as int)
            == descriptors(addrs.take(k), peer),
    decreases addrs.len() - k,
{
    if k == addrs.len() {
        assert(addrs.take(k) =~= addrs);
        assert(descriptors(addrs, peer).take(descriptors(addrs, peer).len() as int)
            =~= descriptors(addrs, peer));
    } else {
        lemma_descriptors_prefix(addrs, k + 1, peer);
        let t = addrs.take(k + 1);
        assert(t.drop_last() =~= addrs.take(k));
        let small = descriptors(addrs.take(k), peer);
        let mid = descriptors(t, peer);
        let full = descriptors(addrs, peer);
        assert(mid.take(small.len() as int) =~= small);
        assert(full.take(small.len() as int) =~= mid.take(small.len() as int));
    }
}

proof fn lemma_swap_port_protocol(cs: Seq<ComponentView>, i: int, p: u16)
    requires
        0 <= i < cs.len(),
    ensures
        last_host(cs.update(i, ComponentView::Tcp(p))) == last_host(
            cs.update(i, ComponentView::Udp(p)),
        ),
        last_port(cs.update(i, ComponentView::Tcp(p))) == last_port(
            cs.update(i, ComponentView::Udp(p)),
        ),
    decreases cs.len(),
{
    let a = cs.update(i, ComponentView::Tcp(p));
    let b = cs.update(i, ComponentView::Udp(p));
    if i == cs.len() - 1 {
        assert(a.drop_last() =~= b.drop_last());
    } else {
        lemma_swap_port_protocol(cs.drop_last(), i, p);
        assert(a.drop_last() =~= cs.drop_last().update(i, ComponentView::Tcp(p)));
        assert(b.drop_last() =~= cs.drop_last().update(i, ComponentView::Udp(p)));
        assert(a.last() == b.last());
    }
}

/// Descriptors are transport-agnostic: writing a port as `/tcp/{p}` or as
/// `/udp/{p}` gives the same descriptor.
pub proof fn lemma_descriptor_transport_agnostic(
    cs: Seq<ComponentView>,
    i: int,
    p: u16,
    peer: Seq<char>,
)
    requires
        0 <= i < cs.len(),
    ensures
        descriptor(cs.update(i, ComponentView::Tcp(p)), peer) == descriptor(
            cs.update(i, ComponentView::Udp(p)),
            peer,
        ),
{
    lemma_swap_port_protocol(cs, i, p);
}

proof fn lemma_two_component_endpoint(c: ComponentView, p: u16)
    ensures
        last_host(seq![c, ComponentView::Tcp(p)]) == host_of(c),
        last_port(seq![c, ComponentView::Tcp(p)]) == Some(p),
{
    let cs = seq![c, ComponentView::Tcp(p)];
    assert(cs.drop_last() =~= seq![c]);
    assert(seq![c].drop_last() =~= Seq::<ComponentView>::empty());
    assert(cs.last() == ComponentView::Tcp(p));
    assert(seq![c].last() == c);
    assert(last_host(Seq::<ComponentView>::empty()) is None);
    assert(last_host(seq![c]) == host_of(c));
    assert(last_host(cs) == last_host(seq![c]));
}

/// A host component followed by a TCP port has, as descriptor, the line of
/// that host's own network name and text, for every host, port and peer:
/// `/dns4/{h}/tcp/{p}` gives `/dns4/{h}/{p}/p2p/{peer}`, and likewise
/// `/dns6`, `/dns` and `/ip6` keep their name and text.
pub proof fn lemma_descriptor_of_host_and_port(h: Seq<char>, p: u16, peer: Seq<char>)
    ensures
        descriptor(seq![ComponentView::Dns4(h), ComponentView::Tcp(p)], peer) == Some(
            "/dns4/"@ + h + "/"@ + decimal(p as nat) + "/p2p/"@ + peer,
        ),
        descriptor(seq![ComponentView::Dns6(h), ComponentView::Tcp(p)], peer) == Some(
            "/dns6/"@ + h + "/"@ + decimal(p as nat) + "/p2p/"@ + peer,
        ),
        descriptor(seq![ComponentView::Dns(h), ComponentView::Tcp(p)], peer) == Some(
            "/dns/"@ + h + "/"@ + decimal(p as nat) + "/p2p/"@ + peer,
        ),
        descriptor(seq![ComponentView::Ip6(h), ComponentView::Tcp(p)], peer) == Some(
            "/ip6/"@ + h + "/"@ + decimal(p as nat) + "/p2p/"@ + peer,
        ),
{
    assert("/dns4/"@ =~= "/"@ + "dns4"@ + "/"@) by {
        reveal_strlit("/");
        reveal_strlit("dns4");
        reveal_strlit("/dns4/");
    }
    assert("/dns6/"@ =~= "/"@ + "dns6"@ + "/"@) by {
        reveal_strlit("/");
        reveal_strlit("dns6");
        reveal_strlit("/dns6/");
    }
    assert("/dns/"@ =~= "/"@ + "dns"@ + "/"@) by {
        reveal_strlit("/");
        reveal_strlit("dns");
        reveal_strlit("/dns/");
    }
    assert("/ip6/"@ =~= "/"@ + "ip6"@ + "/"@) by {
        reveal_strlit("/");
        reveal_strlit("ip6");
        reveal_strlit("/ip6/");
    }
    lemma_host_port_line(ComponentView::Dns4(h), p, peer, "/dns4/"@);
    lemma_host_port_line(ComponentView::Dns6(h), p, peer, "/dns6/"@);
    lemma_host_port_line(ComponentView::Dns(h), p, peer, "/dns/"@);
    lemma_host_port_line(ComponentView::Ip6(h), p, peer, "/ip6/"@);
}

/// `/ip4/{a}/tcp/{p}` gives `/ip4/{a0}.{a1}.{a2}.{a3}/{p}/p2p/{peer}`, the
/// octets in decimal, for every address, port and peer.
pub proof fn lemma_descriptor_of_ip4_and_port(a: [u8; 4], p: u16, peer: Seq<char>)
    ensures
        descriptor(seq![ComponentView::Ip4(a), ComponentView::Tcp(p)], peer) == Some(
            "/ip4/"@ + decimal(a@[0] as nat) + "."@ + decimal(a@[1] as nat) + "."@ + decimal(
                a@[2] as nat,
            ) + "."@ + decimal(a@[3] as nat) + "/"@ + decimal(p as nat) + "/p2p/"@ + peer,
        ),
{
    assert("/ip4/"@ =~= "/"@ + "ip4"@ + "/"@) by {
        reveal_strlit("/");
        reveal_strlit("ip4");
        reveal_strlit("/ip4/");
    }
    lemma_host_port_line(ComponentView::Ip4(a), p, peer, "/ip4/"@);
    assert("/ip4/"@ + ip4_text(a) + "/"@ + decimal(p as nat) + "/p2p/"@ + peer =~= "/ip4/"@
        + decimal(a@[0] as nat) + "."@ + decimal(a@[1] as nat) + "."@ + decimal(a@[2] as nat)
        + "."@ + decimal(a@[3] as nat) + "/"@ + decimal(p as nat) + "/p2p/"@ + peer);
}

proof fn lemma_host_port_line(c: ComponentView, p: u16, peer: Seq<char>, slashed: Seq<char>)
    requires
        host_of(c) is Some,
        slashed == "/"@ + host_of(c)->Some_0.0 + "/"@,
    ensures
        descriptor(seq![c, ComponentView::Tcp(p)], peer) == Some(
            slashed + host_of(c)->Some_0.1 + "/"@ + decimal(p as nat) + "/p2p/"@ + peer,
        ),
{
    lemma_two_component_endpoint(c, p);
    let (net, host) = host_of(c)->Some_0;
    lemma_line_regroup(net, slashed, host, p, peer);
}

proof fn lemma_line_regroup(
    net: Seq<char>,
    slashed: Seq<char>,
    host: Seq<char>,
    p: u16,
    peer: Seq<char>,
)
    requires
        slashed == "/"@ + net + "/"@,
    ensures
        descriptor_line(net, host, p, peer) == slashed + host + "/"@ + decimal(p as nat) + "/p2p/"@
            + peer,
{
    assert(descriptor_line(net, host, p, peer) =~= slashed + host + "/"@ + decimal(p as nat)
        + "/p2p/"@ + peer);
}

proof fn lemma_net_name_has_no_slash(c: ComponentView)
    ensures
        host_of(c) matches Some((n, h)) ==> !n.contains('/'),
{
    reveal_strlit("dns4");
    reveal_strlit("dns6");
    reveal_strlit("dns");
    reveal_strlit("ip4");
    reveal_strlit("ip6");
    assert("dns4"@ =~= seq!['d', 'n', 's', '4']);
    assert("dns6"@ =~= seq!['d', 'n', 's', '6']);
    assert("dns"@ =~= seq!['d', 'n', 's']);
    assert("ip4"@ =~= seq!['i', 'p', '4']);
    assert("ip6"@ =~= seq!['i', 'p', '6']);
}

proof fn lemma_decimal_has_no_slash(n: nat)
    ensures
        !decimal(n).contains('/'),
{
    lemma_decimal_digits(n);
    assert forall|i: int| 0 <= i < decimal(n).len() implies decimal(n)[i] != '/' by {
        let d = choose|d: int| 0 <= d < 10 && #[trigger] decimal(n)[i] == digit_char(d);
    }
}

/// Distinct endpoints give distinct lines: where two addresses, with host
/// texts free of `/` (as every parsed address has them), have the same
/// descriptor, they name the same network, host and port.
#[verifier::rlimit(40)]
pub proof fn lemma_descriptor_injective(
    cs1: Seq<ComponentView>,
    cs2: Seq<ComponentView>,
    peer: Seq<char>,
)
    requires
        descriptor(cs1, peer) is Some,
        descriptor(cs1, peer) == descriptor(cs2, peer),
        hosts_free_of_slash(cs1),
        hosts_free_of_slash(cs2),
    ensures
        last_host(cs1) == last_host(cs2),
        last_port(cs1) == last_port(cs2),
{
    lemma_last_host_shape(cs1);
    lemma_last_host_shape(cs2);
    reveal_strlit("/");
    reveal_strlit("/p2p/");
    let (n1, h1) = last_host(cs1)->Some_0;
    let (n2, h2) = last_host(cs2)->Some_0;
    let p1 = last_port(cs1)->Some_0;
    let p2 = last_port(cs2)->Some_0;
    lemma_last_host_net(cs1);
    lemma_last_host_net(cs2);
    lemma_decimal_has_no_slash(p1 as nat);
    lemma_decimal_has_no_slash(p2 as nat);
    let rest = seq!['p', '2', 'p', '/'] + peer;
    let t1 = decimal(p1 as nat) + seq!['/'] + rest;
    let t2 = decimal(p2 as nat) + seq!['/'] + rest;
    let u1 = h1 + seq!['/'] + t1;
    let u2 = h2 + seq!['/'] + t2;
    let w1 = n1 + seq!['/'] + u1;
    let w2 = n2 + seq!['/'] + u2;
    assert(descriptor(cs1, peer)->Some_0 =~= seq!['/'] + w1);
    assert(descriptor(cs2, peer)->Some_0 =~= seq!['/'] + w2);
    assert(w1 =~= (seq!['/'] + w1).drop_first());
    assert(w2 =~= (seq!['/'] + w2).drop_first());
    lemma_split_at_first_separator(n1, u1, n2, u2, '/');
    lemma_split_at_first_separator(h1, t1, h2, t2, '/');
    lemma_split_at_first_separator(decimal(p1 as nat), rest, decimal(p2 as nat), rest, '/');
    lemma_decimal_injective(p1 as nat, p2 as nat);
}

proof fn lemma_ip4_text_has_no_slash(a: [u8; 4])
    ensures
        !ip4_text(a).contains('/'),
{
    reveal_strlit(".");
    lemma_decimal_has_no_slash(a@[0] as nat);
    lemma_decimal_has_no_slash(a@[1] as nat);
    lemma_decimal_has_no_slash(a@[2] as nat);
    lemma_decimal_has_no_slash(a@[3] as nat);
    let t = ip4_text(a);
    assert forall|i: int| 0 <= i < t.len() implies t[i] != '/' by {
        let d0 = decimal(a@[0] as nat);
        let d1 = decimal(a@[1] as nat);
        let d2 = decimal(a@[2] as nat);
        let d3 = decimal(a@[3] as nat);
        let dot = "."@;
        assert(dot =~= seq!['.']);
        let l0 = d0.len() as int;
        let l1 = l0 + 1 + d1.len();
        let l2 = l1 + 1 + d2.len();
        if i < l0 {
            assert(t[i] == d0[i]);
        } else if i == l0 {
            assert(t[i] == '.');
        } else if i < l1 {
            assert(t[i] == d1[i - l0 - 1]);
        } else if i == l1 {
            assert(t[i] == '.');
        } else if i < l2 {
            assert(t[i] == d2[i - l1 - 1]);
        } else if i == l2 {
            assert(t[i] == '.');
        } else {
            assert(t[i] == d3[i - l2 - 1]);
        }
    }
}

/// The host that an address with slash-free host texts names is one of the
/// network names with a slash-free host text.
pub proof fn lemma_last_host_shape(cs: Seq<ComponentView>)
    requires
        hosts_free_of_slash(cs),
    ensures
        last_host(cs) matches Some((n, h)) ==> is_net_name(n) && !h.contains('/'),
    decreases cs.len(),
{
    if cs.len() > 0 {
        let c = cs.last();
        assert(host_text_free_of_slash(cs[cs.len() - 1]));
        if let ComponentView::Ip4(a) = c {
            lemma_ip4_text_has_no_slash(a);
        }
        assert(hosts_free_of_slash(cs.drop_last())) by {
            assert forall|i: int| 0 <= i < cs.drop_last().len() implies #[trigger] host_text_free_of_slash(cs.drop_last()[i]) by {
                assert(cs.drop_last()[i] == cs[i]);
                assert(host_text_free_of_slash(cs[i]));
            }
        }
        lemma_last_host_shape(cs.drop_last());
    }
}

/// Every descriptor of an address with slash-free host texts is a
/// descriptor line.
pub proof fn lemma_descriptor_is_line(cs: Seq<ComponentView>, peer: Seq<char>)
    requires
        hosts_free_of_slash(cs),
    ensures
        descriptor(cs, peer) matches Some(d) ==> is_descriptor_line(d, peer),
{
    lemma_last_host_shape(cs);
    if let (Some((n, h)), Some(p)) = (last_host(cs), last_port(cs)) {
        assert(descriptor(cs, peer) == Some(descriptor_line(n, h, p, peer)));
    }
}

proof fn lemma_last_host_net(cs: Seq<ComponentView>)
    ensures
        last_host(cs) matches Some((n, h)) ==> !n.contains('/'),
    decreases cs.len(),
{
    if cs.len() > 0 {
        lemma_net_name_has_no_slash(cs.last());
        lemma_last_host_net(cs.drop_last());
    }
}

/// Whether a component names neither a host nor a port (such as `quic-v1`
/// or `p2p`).
pub open spec fn names_no_endpoint(c: ComponentView) -> bool {
    host_of(c) is None && port_of(c) is None
}

proof fn lemma_last_host_port_ignore(cs: Seq<ComponentView>, extra: Seq<ComponentView>)
    requires
        forall|i: int| 0 <= i < extra.len() ==> #[trigger] names_no_endpoint(extra[i]),
    ensures
        last_host(cs + extra) == last_host(cs),
        last_port(cs + extra) == last_port(cs),
    decreases extra.len(),
{
    if extra.len() == 0 {
        assert(cs + extra =~= cs);
    } else {
        let e = extra.drop_last();
        assert forall|i: int| 0 <= i < e.len() implies #[trigger] names_no_endpoint(e[i]) by {
            assert(e[i] == extra[i]);
            assert(names_no_endpoint(extra[i]));
        }
        lemma_last_host_port_ignore(cs, e);
        assert((cs + extra).drop_last() =~= cs + e);
        assert((cs + extra).last() == extra[extra.len() - 1]);
        assert(names_no_endpoint(extra[extra.len() - 1]));
    }
}

/// Components that name neither a host nor a port, appended to an address
/// (such as `/quic-v1` or `/p2p/{id}`), leave its descriptor unchanged.
pub proof fn lemma_descriptor_ignores_other_components(
    cs: Seq<ComponentView>,
    extra: Seq<ComponentView>,
    peer: Seq<char>,
)
    requires
        forall|i: int| 0 <= i < extra.len() ==> #[trigger] names_no_endpoint(extra[i]),
    ensures
        descriptor(cs + extra, peer) == descriptor(cs, peer),
{
    lemma_last_host_port_ignore(cs, extra);
}

/// One endpoint written as `{host}/tcp/{p}`, as `{host}/udp/{p}/quic-v1` and
/// as `{host}/tcp/{p}/p2p/{id}` has one descriptor, and the three addresses
/// together give a single line.
pub proof fn lemma_endpoint_forms_give_one_line(
    host: ComponentView,
    p: u16,
    other: ComponentView,
    peer: Seq<char>,
)
    requires
        host_of(host) is Some,
        names_no_endpoint(other),
    ensures
        descriptor(seq![host, ComponentView::Tcp(p)], peer) is Some,
        descriptor(seq![host, ComponentView::Udp(p), other], peer) == descriptor(
            seq![host, ComponentView::Tcp(p)],
            peer,
        ),
        descriptor(seq![host, ComponentView::Tcp(p), other], peer) == descriptor(
            seq![host, ComponentView::Tcp(p)],
            peer,
        ),
        descriptors(
            seq![
                seq![host, ComponentView::Tcp(p)],
                seq![host, ComponentView::Udp(p), other],
                seq![host, ComponentView::Tcp(p), other],
            ],
            peer,
        ).len() == 1,
{
    let a1 = seq![host, ComponentView::Tcp(p)];
    let b = seq![host, ComponentView::Udp(p)];
    let a2 = seq![host, ComponentView::Udp(p), other];
    let a3 = seq![host, ComponentView::Tcp(p), other];
    let tail = seq![other];
    assert forall|i: int| 0 <= i < tail.len() implies #[trigger] names_no_endpoint(tail[i]) by {
        assert(tail[i] == other);
    }
    assert(a2 =~= b + tail);
    assert(a3 =~= a1 + tail);
    lemma_descriptor_ignores_other_components(b, tail, peer);
    lemma_descriptor_ignores_other_components(a1, tail, peer);
    assert(a1.drop_last() =~= seq![host]);
    assert(b.drop_last() =~= seq![host]);
    assert(seq![host].drop_last() =~= Seq::<ComponentView>::empty());
    assert(last_host(seq![host]) == host_of(host));
    assert(last_host(a1) == host_of(host));
    assert(last_host(b) == host_of(host));
    assert(last_port(a1) == Some(p));
    assert(last_port(b) == Some(p));
    let addrs = seq![a1, a2, a3];
    let d = descriptor(a1, peer)->Some_0;
    assert(addrs.drop_last() =~= seq![a1, a2]);
    assert(seq![a1, a2].drop_last() =~= seq![a1]);
    assert(seq![a1].drop_last() =~= Seq::<Seq<ComponentView>>::empty());
    let d1 = descriptors(seq![a1], peer);
    assert(seq![a1].last() == a1);
    assert(descriptors(Seq::<Seq<ComponentView>>::empty(), peer) =~= Seq::<Seq<char>>::empty());
    assert(!Seq::<Seq<char>>::empty().contains(d));
    assert(d1 =~= Seq::<Seq<char>>::empty().push(d));
    assert(d1.contains(d)) by {
        assert(d1[0] == d);
    }
    let d2 = descriptors(seq![a1, a2], peer);
    assert(seq![a1, a2].last() == a2);
    assert(d2 == d1);
    assert(addrs.last() == a3);
    assert(d2.contains(d));
}

/// Appends the dotted-decimal rendering of `a` to `out`.
fn push_ip4(out: &mut String, a: [u8; 4])
    ensures
        final(out)@ == old(out)@ + ip4_text(a),
{
    push_decimal(out, a[0] as u64);
    out.append(".");
    push_decimal(out, a[1] as u64);
    out.append(".");
    push_decimal(out, a[2] as u64);
    out.append(".");
    push_decimal(out, a[3] as u64);
    assert(final(out)@ =~= old(out)@ + ip4_text(a));
}

/// The network name and host text of a component, if it names a host.
fn net_host(c: &Component) -> (r: Option<(&'static str, String)>)
    ensures
        r is Some <==> host_of(c@) is Some,
        r matches Some((n, h)) ==> host_of(c@) == Some((n@, h@)),
{
    match c {
        Component::Dns4(h) => Some(("dns4", h.clone())),
        Component::Dns6(h) => Some(("dns6", h.clone())),
        Component::Dns(h) => Some(("dns", h.clone())),
        Component::Ip4(a) => {
            let mut t = String::new();
            push_ip4(&mut t, *a);
            assert(t@ =~= ip4_text(*a));
            Some(("ip4", t))
        },
        Component::Ip6(h) => Some(("ip6", h.clone())),
        _ => None,
    }
}

/// The port of a component, if it is a TCP or UDP port.
fn port(c: &Component) -> (r: Option<u16>)
    ensures
        r == port_of(c@),
{
    match c {
        Component::Tcp(p) => Some(*p),
        Component::Udp(p) => Some(*p),
        _ => None,
    }
}

/// The shorthand descriptor of one address for the peer `peer`.
fn descriptor_of(addr: &ParsedAddr, peer: &str) -> (r: Option<String>)
    ensures
        r is Some <==> descriptor(addr@, peer@) is Some,
        r matches Some(d) ==> descriptor(addr@, peer@) == Some(d@),
        r matches Some(d) ==> is_descriptor_line(d@, peer@),
{
    let cs = addr.components();
    proof {
        lemma_descriptor_is_line(addr@, peer@);
    }
    let ghost v = addr@;
    let mut host_idx: Option<usize> = None;
    let mut port_val: Option<u16> = None;
    let mut i: usize = 0;
    while i < cs.len()
        invariant
            i <= cs.len(),
            v == component_views(cs@),
            match host_idx {
                Some(k) => k < i && host_of(v[k as int]) is Some && last_host(v.take(i as int))
                    == host_of(v[k as int]),
                None => last_host(v.take(i as int)) is None,
            },
            port_val == last_port(v.take(i as int)),
        decreases cs.len() - i,
    {
        assert(v.take(i + 1).drop_last() =~= v.take(i as int));
        assert(v.take(i + 1).last() == cs@[i as int]@);
        let found = net_host(&cs[i]);
        if found.is_some() {
            host_idx = Some(i);
        }
        let p = port(&cs[i]);
        if p.is_some() {
            port_val = p;
        }
        i = i + 1;
    }
    assert(v.take(i as int) =~= v);
    match (host_idx, port_val) {
        (Some(k), Some(p)) => {
            let nh = net_host(&cs[k]);
            match nh {
                Some((net, host)) => {
                    let mut d = String::new();
                    d.append("/");
                    d.append(net);
                    d.append("/");
                    d.append(host.as_str());
                    d.append("/");
                    push_decimal(&mut d, p as u64);
                    d.append("/p2p/");
                    d.append(peer);
                    assert(d@ =~= "/"@ + net@ + "/"@ + host@ + "/"@ + decimal(p as nat) + "/p2p/"@
                        + peer@);
                    Some(d)
                },
                None => None,
            }
        },
        _ => None,
    }
}

/// Whether `out` already holds a string equal to `d`.
fn holds(out: &Vec<String>, d: &String) -> (r: bool)
    ensures
        r == string_views(out@).contains(d@),
{
    let mut i: usize = 0;
    while i < out.len()
        invariant
            i <= out.len(),
            forall|j: int| 0 <= j < i ==> out@[j]@ != d@,
        decreases out.len() - i,
    {
        if out[i] == *d {
            assert(string_views(out@)[i as int] == d@);
            return true;
        }
        i = i + 1;
    }
    assert forall|j: int| 0 <= j < string_views(out@).len() implies string_views(out@)[j] != d@ by {
        assert(out@[j]@ != d@);
    }
    false
}

/// The transport-agnostic shorthand descriptors of the external addresses
/// `external` for the peer `peer`: for each address that names both a host
/// (dns4, dns6, dns, ip4 or ip6; the last one wins) and a port (tcp or udp;
/// the last one wins), the line `/{net}/{host}/{port}/p2p/{peer}`, each
/// distinct line once, in the order of first appearance.
pub fn shorthand_descriptors(external: &[ParsedAddr], peer: &str) -> (out: Vec<String>)
    ensures
        string_views(out@) == descriptors(addr_views(external@), peer@),
        forall|i: int| 0 <= i < out@.len() ==> is_descriptor_line(#[trigger] out@[i]@, peer@),
{
    let mut out: Vec<String> = Vec::new();
    let ghost a = addr_views(external@);
    let mut i: usize = 0;
    while i < external.len()
        invariant
            i <= external.len(),
            a == addr_views(external@),
            string_views(out@) == descriptors(a.take(i as int), peer@),
            forall|j: int| 0 <= j < out@.len() ==> is_descriptor_line(#[trigger] out@[j]@, peer@),
        decreases external.len() - i,
    {
        assert(a.take(i + 1).drop_last() =~= a.take(i as int));
        assert(a.take(i + 1).last() == external@[i as int]@);
        let d = descriptor_of(&external[i], peer);
        match d {
            Some(d) => {
                if !holds(&out, &d) {
                    let ghost before = string_views(out@);
                    out.push(d);
                    assert(string_views(out@) =~= before.push(d@));
                }
            },
            None => {},
        }
        i = i + 1;
    }
    assert(a.take(i as int) =~= a);
    out
}

} // verus!
