//! Multiaddrs as the node reads them: the parsed address, kept for the
//! network stack, together with the plain components that the node's own
//! logic inspects.

use vstd::prelude::*;
use libp2p::multiaddr::Protocol;
use libp2p::Multiaddr;
use crate::text::{comma_list_items, decimal, list_items, push_decimal, string_views};

verus! {

#[verifier::external_type_specification]
#[verifier::external_body]
pub struct ExMultiaddr(Multiaddr);

/// One component of a multiaddr, reduced to what the node looks at.
/// Host names and IPv6 addresses are kept as their textual rendering;
/// IPv4 addresses as their four octets.
pub enum Component {
    Dns4(String),
    Dns6(String),
    Dns(String),
    Ip4([u8; 4]),
    Ip6(String),
    Tcp(u16),
    Udp(u16),
    Other,
}

/// The mathematical value of a [`Component`].
pub enum ComponentView {
    Dns4(Seq<char>),
    Dns6(Seq<char>),
    Dns(Seq<char>),
    Ip4([u8; 4]),
    Ip6(Seq<char>),
    Tcp(u16),
    Udp(u16),
    Other,
}

impl View for Component {
    type V = ComponentView;

    open spec fn view(&self) -> ComponentView {
        match self {
            Component::Dns4(h) => ComponentView::Dns4(h@),
            Component::Dns6(h) => ComponentView::Dns6(h@),
            Component::Dns(h) => ComponentView::Dns(h@),
            Component::Ip4(a) => ComponentView::Ip4(*a),
            Component::Ip6(h) => ComponentView::Ip6(h@),
            Component::Tcp(p) => ComponentView::Tcp(*p),
            Component::Udp(p) => ComponentView::Udp(*p),
            Component::Other => ComponentView::Other,
        }
    }
}

/// A parsed multiaddr together with its components, in order. Host texts
/// hold no `/` (the parser reads each one from between two slashes).
pub struct ParsedAddr {
    addr: Multiaddr,
    components: Vec<Component>,
}

/// Whether a component's host text, if it carries one as text, holds no `/`.
pub open spec fn host_text_free_of_slash(c: ComponentView) -> bool {
    match c {
        ComponentView::Dns4(h) => !h.contains('/'),
        ComponentView::Dns6(h) => !h.contains('/'),
        ComponentView::Dns(h) => !h.contains('/'),
        ComponentView::Ip6(h) => !h.contains('/'),
        _ => true,
    }
}

/// Whether no host text among the components holds a `/`.
pub open spec fn hosts_free_of_slash(cs: Seq<ComponentView>) -> bool {
    forall|i: int| 0 <= i < cs.len() ==> #[trigger] host_text_free_of_slash(cs[i])
}

/// The views of a sequence of components.
pub open spec fn component_views(cs: Seq<Component>) -> Seq<ComponentView> {
    Seq::new(cs.len(), |i: int| cs[i]@)
}

impl View for ParsedAddr {
    type V = Seq<ComponentView>;

    closed spec fn view(&self) -> Seq<ComponentView> {
        component_views(self.components@)
    }
}

impl ParsedAddr {
    #[verifier::type_invariant]
    spec fn hosts_ok(self) -> bool {
        hosts_free_of_slash(component_views(self.components@))
    }
}

/// The multiaddr that the text `text` denotes, with its components in order,
/// or `None` where the text is not a valid multiaddr, as libp2p's parser
/// (`<Multiaddr as FromStr>::from_str`) decides.
pub uninterp spec fn multiaddr_of_text(text: Seq<char>) -> Option<(Multiaddr, Seq<ComponentView>)>;

/// The components of the multiaddr that `text` denotes, if it denotes one.
pub open spec fn multiaddr_components(text: Seq<char>) -> Option<Seq<ComponentView>> {
    match multiaddr_of_text(text) {
        Some((_, cs)) => Some(cs),
        None => None,
    }
}

/// The multiaddr that `text` denotes (meaningful where it denotes one).
pub open spec fn parsed_multiaddr(text: Seq<char>) -> Multiaddr {
    multiaddr_of_text(text)->Some_0.0
}

/// Calls `<libp2p::Multiaddr as FromStr>::from_str` on `text` and, on success,
/// walks the address with `Multiaddr::iter`, converting each `Protocol`: DNS
/// names as their text, IPv4 addresses as their octets, IPv6 addresses as
/// their standard text rendering, TCP and UDP ports as numbers, any other
/// protocol as `Other`.
/// Trusted: the address and its components are the named value
/// `multiaddr_of_text(text@)` (a function of the text alone); a non-empty text
/// that does not start with `/` is refused (the parser's first check; the
/// empty text parses to the empty address); and no host text holds a `/`
/// (DNS names are single `/`-separated segments of the text, and IPv6 text
/// is hexadecimal groups, colons and dots). Which other texts parse, and to
/// what, is left to the name.
#[verifier::external_body]
fn parse_multiaddr(text: &str) -> (r: Option<ParsedAddr>)
    ensures
        r is Some <==> multiaddr_of_text(text@) is Some,
        r matches Some(a) ==> multiaddr_of_text(text@) == Some((a.address(), a@)),
        r matches Some(a) ==> hosts_free_of_slash(a@),
        (text@.len() > 0 && text@[0] != '/') ==> r is None,
{
    let addr: Multiaddr = text.parse().ok()?;
    let components = addr.iter().map(|p| match p {
        Protocol::Dns4(h) => Component::Dns4(h.to_string()),
        Protocol::Dns6(h) => Component::Dns6(h.to_string()),
        Protocol::Dns(h) => Component::Dns(h.to_string()),
        Protocol::Ip4(ip) => Component::Ip4(ip.octets()),
        Protocol::Ip6(ip) => Component::Ip6(ip.to_string()),
        Protocol::Tcp(port) => Component::Tcp(port),
        Protocol::Udp(port) => Component::Udp(port),
        _ => Component::Other,
    }).collect();
    Some(ParsedAddr { addr, components })
}

impl ParsedAddr {
    /// The address that was parsed, the one whose components `self@` lists.
    pub closed spec fn address(&self) -> Multiaddr {
        self.addr
    }

    /// The parsed address, for handing to the network stack.
    pub fn multiaddr(&self) -> (r: &Multiaddr)
        ensures
            *r == self.address(),
    {
        &self.addr
    }

    /// The components of the address, in order; no host text among them
    /// holds a `/`.
    pub fn components(&self) -> (r: &Vec<Component>)
        ensures
            component_views(r@) == self@,
            hosts_free_of_slash(self@),
    {
        proof {
            use_type_invariant(self);
        }
        &self.components
    }
}

/// The views of a sequence of parsed addresses.
pub open spec fn addr_views(s: Seq<ParsedAddr>) -> Seq<Seq<ComponentView>> {
    Seq::new(s.len(), |i: int| s[i]@)
}

/// The multiaddrs of a sequence of parsed addresses.
pub open spec fn addresses(s: Seq<ParsedAddr>) -> Seq<Multiaddr> {
    Seq::new(s.len(), |i: int| s[i].address())
}

/// The multiaddrs that the texts `items` denote, in order, skipping the texts
/// that are not valid multiaddrs.
pub open spec fn accepted_multiaddrs(items: Seq<Seq<char>>) -> Seq<Multiaddr>
    decreases items.len(),
{
    if items.len() == 0 {
        Seq::empty()
    } else {
        let prev = accepted_multiaddrs(items.drop_last());
        match multiaddr_of_text(items.last()) {
            Some((m, _)) => prev.push(m),
            None => prev,
        }
    }
}

/// The addresses that the texts `items` denote, in order, skipping the texts
/// that are not valid multiaddrs.
pub open spec fn accepted_addrs(items: Seq<Seq<char>>) -> Seq<Seq<ComponentView>>
    decreases items.len(),
{
    if items.len() == 0 {
        Seq::empty()
    } else {
        let prev = accepted_addrs(items.drop_last());
        match multiaddr_components(items.last()) {
            Some(a) => prev.push(a),
            None => prev,
        }
    }
}

/// The texts among `items` that are not valid multiaddrs, in order.
pub open spec fn rejected_items(items: Seq<Seq<char>>) -> Seq<Seq<char>>
    decreases items.len(),
{
    if items.len() == 0 {
        Seq::empty()
    } else {
        let prev = rejected_items(items.drop_last());
        match multiaddr_components(items.last()) {
            Some(a) => prev,
            None => prev.push(items.last()),
        }
    }
}

/// Every item of a list is either accepted as an address or set aside as
/// refused: none is lost and none is counted twice.
pub proof fn lemma_list_partition(items: Seq<Seq<char>>)
    ensures
        accepted_addrs(items).len() + rejected_items(items).len() == items.len(),
    decreases items.len(),
{
    if items.len() > 0 {
        lemma_list_partition(items.drop_last());
    }
}

/// The addresses of a comma-separated list, and the items that were refused.
pub struct AddrList {
    pub accepted: Vec<ParsedAddr>,
    pub rejected: Vec<String>,
}

/// Reads the comma-separated list `value` of multiaddrs: each item, trimmed
/// of white space and not empty, is parsed; the valid ones are accepted in
/// order, the others are set aside (for a warning) in order.
pub fn addrs_from_list(value: &str) -> (r: AddrList)
    ensures
        addr_views(r.accepted@) == accepted_addrs(list_items(value@)),
        addresses(r.accepted@) == accepted_multiaddrs(list_items(value@)),
        string_views(r.rejected@) == rejected_items(list_items(value@)),
{
    let items = comma_list_items(value);
    let ghost it = list_items(value@);
    let mut accepted: Vec<ParsedAddr> = Vec::new();
    let mut rejected: Vec<String> = Vec::new();
    let mut i: usize = 0;
    while i < items.len()
        invariant
            i <= items.len(),
            string_views(items@) == it,
            addr_views(accepted@) == accepted_addrs(it.take(i as int)),
            addresses(accepted@) == accepted_multiaddrs(it.take(i as int)),
            string_views(rejected@) == rejected_items(it.take(i as int)),
        decreases items.len() - i,
    {
        assert(it.take(i + 1).drop_last() =~= it.take(i as int));
        assert(it.take(i + 1).last() == items@[i as int]@);
        match parse_multiaddr(items[i].as_str()) {
            Some(a) => {
                let ghost before = addr_views(accepted@);
                let ghost before_m = addresses(accepted@);
                let ghost m = a.address();
                accepted.push(a);
                assert(addr_views(accepted@) =~= before.push(accepted@.last()@));
                assert(addresses(accepted@) =~= before_m.push(m));
            },
            None => {
                let ghost before = string_views(rejected@);
                rejected.push(items[i].clone());
                assert(string_views(rejected@) =~= before.push(items@[i as int]@));
            },
        }
        i = i + 1;
    }
    assert(it.take(i as int) =~= it);
    AddrList { accepted, rejected }
}

/// The external addresses of the node: those given one by one (`given`),
/// followed by those of the comma-separated list `list`, if there is one.
/// The refused items of the list are returned too.
pub fn external_addrs(given: Vec<ParsedAddr>, list: Option<&str>) -> (r: AddrList)
    ensures
        addr_views(r.accepted@) == match list {
            Some(v) => addr_views(given@) + accepted_addrs(list_items(v@)),
            None => addr_views(given@),
        },
        addresses(r.accepted@) == match list {
            Some(v) => addresses(given@) + accepted_multiaddrs(list_items(v@)),
            None => addresses(given@),
        },
        string_views(r.rejected@) == match list {
            Some(v) => rejected_items(list_items(v@)),
            None => Seq::<Seq<char>>::empty(),
        },
{
    let mut addrs = given;
    match list {
        Some(v) => {
            let mut from_list = addrs_from_list(v);
            let ghost g = addr_views(addrs@);
            let ghost l = addr_views(from_list.accepted@);
            let ghost gm = addresses(addrs@);
            let ghost lm = addresses(from_list.accepted@);
            addrs.append(&mut from_list.accepted);
            assert(addr_views(addrs@) =~= g + l);
            assert(addresses(addrs@) =~= gm + lm);
            AddrList { accepted: addrs, rejected: from_list.rejected }
        },
        None => {
            let rejected: Vec<String> = Vec::new();
            assert(string_views(rejected@) =~= Seq::<Seq<char>>::empty());
            AddrList { accepted: addrs, rejected }
        },
    }
}

/// Parses each text of `args` as a multiaddr. All must be valid: the first
/// one that is not is returned as the error.
pub fn parse_addr_args(args: &Vec<String>) -> (r: Result<Vec<ParsedAddr>, String>)
    ensures
        r is Ok <==> forall|i: int|
            0 <= i < args@.len() ==> #[trigger] multiaddr_components(args@[i]@) is Some,
        r matches Ok(v) ==> addr_views(v@) == Seq::new(
            args@.len(),
            |i: int| multiaddr_components(args@[i]@)->Some_0,
        ),
        r matches Ok(v) ==> addresses(v@) == Seq::new(
            args@.len(),
            |i: int| parsed_multiaddr(args@[i]@),
        ),
        r matches Err(t) ==> exists|k: int|
            0 <= k < args@.len() && t@ == args@[k]@ && multiaddr_components(args@[k]@) is None
                && forall|j: int| 0 <= j < k ==> #[trigger] multiaddr_components(args@[j]@) is Some,
{
    let mut out: Vec<ParsedAddr> = Vec::new();
    let mut i: usize = 0;
    while i < args.len()
        invariant
            i <= args.len(),
            out@.len() == i,
            forall|j: int|
                0 <= j < i ==> #[trigger] multiaddr_of_text(args@[j]@) == Some(
                    (out@[j].address(), out@[j]@),
                ),
        decreases args.len() - i,
    {
        match parse_multiaddr(args[i].as_str()) {
            Some(a) => {
                out.push(a);
            },
            None => {
                assert(multiaddr_components(args@[i as int]@) is None);
                assert(forall|j: int| 0 <= j < i ==> #[trigger] multiaddr_components(args@[j]@) is Some) by {
                    assert forall|j: int| 0 <= j < i implies #[trigger] multiaddr_components(args@[j]@) is Some by {
                        assert(multiaddr_of_text(args@[j]@) == Some((out@[j].address(), out@[j]@)));
                    }
                }
                return Err(args[i].clone());
            },
        }
        i = i + 1;
    }
    assert(addr_views(out@) =~= Seq::new(
        args@.len(),
        |i: int| multiaddr_components(args@[i]@)->Some_0,
    ));
    assert(addresses(out@) =~= Seq::new(args@.len(), |i: int| parsed_multiaddr(args@[i]@)));
    Ok(out)
}

/// The texts of the four addresses the node listens on for `port`: TCP on
/// IPv4 and IPv6, then QUIC over UDP on IPv4 and IPv6, all on every interface.
pub open spec fn listen_texts(port: u16) -> Seq<Seq<char>> {
    seq![
        "/ip4/0.0.0.0/tcp/"@ + decimal(port as nat),
        "/ip6/::/tcp/"@ + decimal(port as nat),
        "/ip4/0.0.0.0/udp/"@ + decimal(port as nat) + "/quic-v1"@,
        "/ip6/::/udp/"@ + decimal(port as nat) + "/quic-v1"@,
    ]
}

/// Whether `text` holds, as whole fields, the transport `transport` followed
/// by the port `port` in decimal: `{head}/{transport}/{port}` optionally
/// followed by further `/`-fields.
pub open spec fn names_port(text: Seq<char>, transport: Seq<char>, port: u16) -> bool {
    exists|head: Seq<char>, tail: Seq<char>|
        text == head + "/"@ + transport + "/"@ + decimal(port as nat) + tail && (tail.len() == 0
            || tail[0] == '/')
}

proof fn lemma_names_port_witness(
    text: Seq<char>,
    head: Seq<char>,
    transport: Seq<char>,
    port: u16,
    tail: Seq<char>,
)
    requires
        text == head + "/"@ + transport + "/"@ + decimal(port as nat) + tail,
        tail.len() == 0 || tail[0] == '/',
    ensures
        names_port(text, transport, port),
{
}

/// Every listen address names the configured port, whatever it is: TCP for
/// the first two and UDP (QUIC on the same port number) for the last two;
/// the first and third are on IPv4 (`0.0.0.0`), the others on IPv6 (`::`);
/// the last two end in `/quic-v1`.
pub proof fn lemma_listen_texts_name_port(port: u16)
    ensures
        names_port(listen_texts(port)[0], "tcp"@, port),
        names_port(listen_texts(port)[1], "tcp"@, port),
        names_port(listen_texts(port)[2], "udp"@, port),
        names_port(listen_texts(port)[3], "udp"@, port),
        "/ip4/0.0.0.0/"@.is_prefix_of(listen_texts(port)[0]),
        "/ip6/::/"@.is_prefix_of(listen_texts(port)[1]),
        "/ip4/0.0.0.0/"@.is_prefix_of(listen_texts(port)[2]),
        "/ip6/::/"@.is_prefix_of(listen_texts(port)[3]),
        "/quic-v1"@.is_suffix_of(listen_texts(port)[2]),
        "/quic-v1"@.is_suffix_of(listen_texts(port)[3]),
{
    reveal_strlit("/");
    reveal_strlit("tcp");
    reveal_strlit("udp");
    reveal_strlit("");
    reveal_strlit("/quic-v1");
    reveal_strlit("/ip4/0.0.0.0");
    reveal_strlit("/ip6/::");
    reveal_strlit("/ip4/0.0.0.0/");
    reveal_strlit("/ip6/::/");
    reveal_strlit("/ip4/0.0.0.0/tcp/");
    reveal_strlit("/ip6/::/tcp/");
    reveal_strlit("/ip4/0.0.0.0/udp/");
    reveal_strlit("/ip6/::/udp/");
    let d = decimal(port as nat);
    let t = listen_texts(port);
    let v4 = "/ip4/0.0.0.0"@;
    let v6 = "/ip6/::"@;
    let q = "/quic-v1"@;
    let e = Seq::<char>::empty();
    assert(t[0] =~= v4 + "/"@ + "tcp"@ + "/"@ + d + e);
    assert(t[1] =~= v6 + "/"@ + "tcp"@ + "/"@ + d + e);
    assert(t[2] =~= v4 + "/"@ + "udp"@ + "/"@ + d + q);
    assert(t[3] =~= v6 + "/"@ + "udp"@ + "/"@ + d + q);
    lemma_names_port_witness(t[0], v4, "tcp"@, port, e);
    lemma_names_port_witness(t[1], v6, "tcp"@, port, e);
    lemma_names_port_witness(t[2], v4, "udp"@, port, q);
    lemma_names_port_witness(t[3], v6, "udp"@, port, q);
    assert(t[0].subrange(0, 13) =~= "/ip4/0.0.0.0/"@);
    assert(t[2].subrange(0, 13) =~= "/ip4/0.0.0.0/"@);
    assert(t[1].subrange(0, 8) =~= "/ip6/::/"@);
    assert(t[3].subrange(0, 8) =~= "/ip6/::/"@);
    assert(t[2].subrange(t[2].len() - 8, t[2].len() as int) =~= q);
    assert(t[3].subrange(t[3].len() - 8, t[3].len() as int) =~= q);
}

/// An address to listen on: its text, the parsed address (if the text
/// parses), and whether failing to listen on it is fatal.
pub struct ListenTarget {
    pub text: String,
    pub addr: Option<ParsedAddr>,
    pub required: bool,
}

fn listen_target(prefix: &str, port: u16, suffix: &str, required: bool) -> (r: ListenTarget)
    ensures
        r.text@ == prefix@ + decimal(port as nat) + suffix@,
        r.addr is Some <==> multiaddr_components(r.text@) is Some,
        r.addr matches Some(a) ==> multiaddr_components(r.text@) == Some(a@),
        r.addr matches Some(a) ==> a.address() == parsed_multiaddr(r.text@),
        r.required == required,
{
    let mut text = String::new();
    text.append(prefix);
    push_decimal(&mut text, port as u64);
    text.append(suffix);
    assert(text@ =~= prefix@ + decimal(port as nat) + suffix@);
    let addr = parse_multiaddr(text.as_str());
    ListenTarget { text, addr, required }
}

/// The addresses the node listens on for `port`, in the order it binds them:
/// IPv4 TCP (required: without it the node is useless), then IPv6 TCP, IPv4
/// QUIC and IPv6 QUIC (each best effort).
pub fn listen_targets(port: u16) -> (r: Vec<ListenTarget>)
    ensures
        r@.len() == 4,
        forall|i: int|
            0 <= i < 4 ==> {
                &&& #[trigger] r@[i].text@ == listen_texts(port)[i]
                &&& (r@[i].addr is Some <==> multiaddr_components(r@[i].text@) is Some)
                &&& (r@[i].addr matches Some(a) ==> multiaddr_components(r@[i].text@) == Some(a@))
                &&& (r@[i].addr matches Some(a) ==> a.address() == parsed_multiaddr(r@[i].text@))
                &&& r@[i].required == (i == 0)
            },
{
    let mut r: Vec<ListenTarget> = Vec::new();
    r.push(listen_target("/ip4/0.0.0.0/tcp/", port, "", true));
    r.push(listen_target("/ip6/::/tcp/", port, "", false));
    r.push(listen_target("/ip4/0.0.0.0/udp/", port, "/quic-v1", false));
    r.push(listen_target("/ip6/::/udp/", port, "/quic-v1", false));
    proof {
        reveal_strlit("");
        assert(r@[0].text@ =~= listen_texts(port)[0]);
        assert(r@[1].text@ =~= listen_texts(port)[1]);
    }
    r
}

} // verus!
