//! A report on how the tunnel fits the host's routes and forwarding.

use vstd::prelude::*;
use vstd::string::*;

use crate::config::{Config, TransportConfig};
use crate::net::{IpAddr, Ipv4Addr};
use crate::router::{Route, Router};
use crate::text::{
    from_chars, has_prefix, has_suffix, is_text, lines, push_all, push_string, push_text, texts,
    to_chars, trim, CharClass,
};

verus! {

/// The name of a transport.
pub open spec fn transport_text(transport: TransportConfig) -> Seq<char> {
    match transport {
        TransportConfig::Udp => "Udp"@,
        TransportConfig::Tcp => "Tcp"@,
    }
}

pub fn transport_name(transport: TransportConfig) -> (name: &'static str)
    ensures
        name@ == transport_text(transport),
{
    match transport {
        TransportConfig::Udp => "Udp",
        TransportConfig::Tcp => "Tcp",
    }
}

/// Appends the concatenation of three texts to a list.
pub(crate) fn push_line(list: &mut Vec<String>, a: &str, b: &str, c: &str)
    ensures
        texts(final(list)@) == texts(old(list)@).push(a@ + b@ + c@),
{
    let mut line = a.to_owned();
    line.append(b);
    line.append(c);
    push_string(list, line);
}

/// The lines that introduce the report.
pub fn header_lines(config: &Config) -> (list: Vec<String>)
    ensures
        texts(list@) == seq![
            "HushWire doctor"@,
            "Interface: "@ + config.interface.name@,
            "Tunnel address: "@ + config.interface.address.text(),
            "Transport: "@ + transport_text(config.interface.transport) + " "@
                + config.interface.listen.text(),
            ""@,
        ],
{
    let mut list: Vec<String> = Vec::new();
    push_text(&mut list, "HushWire doctor");
    push_line(&mut list, "Interface: ", config.interface.name.as_str(), "");
    push_line(&mut list, "Tunnel address: ", config.interface.address.to_text().as_str(), "");
    let mut transport = "Transport: ".to_owned();
    transport.append(transport_name(config.interface.transport));
    transport.append(" ");
    transport.append(config.interface.listen.to_text().as_str());
    push_string(&mut list, transport);
    push_text(&mut list, "");
    proof {
        reveal_strlit("");
        let name = "Interface: "@ + config.interface.name@;
        let address = "Tunnel address: "@ + config.interface.address.text();
        assert(name + ""@ =~= name);
        assert(address + ""@ =~= address);
        assert(texts(list@) =~= seq![
            "HushWire doctor"@,
            name,
            address,
            "Transport: "@ + transport_text(config.interface.transport) + " "@
                + config.interface.listen.text(),
            ""@,
        ]);
    }
    list
}

// ---------------------------------------------------------------------------
// The host's route to an endpoint.
// ---------------------------------------------------------------------------

/// What the system says about its route to a host.
#[derive(Debug)]
pub struct HostRoute {
    pub output: String,
}

/// Whether a line says that a route uses an interface.
pub open spec fn names_interface(line: Seq<char>, interface: Seq<char>) -> bool {
    line == "interface: "@ + interface || crate::text::ends_with(line, " dev "@ + interface)
}

/// Whether a text occurs in another.
pub open spec fn occurs(text: Seq<char>, part: Seq<char>) -> bool {
    exists|i: int|
        #![trigger text.skip(i)]
        0 <= i <= text.len() && crate::text::begins_with(text.skip(i), part)
}

/// Whether a line is worth showing.
pub open spec fn is_summary(line: Seq<char>) -> bool {
    crate::text::begins_with(line, "gateway:"@) || crate::text::begins_with(line, "interface:"@)
        || crate::text::begins_with(line, "route to:"@) || occurs(line, " dev "@)
        || crate::text::begins_with(line, "default via "@)
}

/// The lines worth showing among the first `n`, without white space around
/// them.
pub open spec fn summaries(lines: Seq<Seq<char>>, n: int) -> Seq<Seq<char>>
    decreases n,
{
    if n <= 0 {
        seq![]
    } else {
        let line = crate::text::trimmed(lines[n - 1], CharClass::WhiteSpace);
        if is_summary(line) {
            summaries(lines, n - 1).push(line)
        } else {
            summaries(lines, n - 1)
        }
    }
}

/// Whether a text occurs in a line.
fn contains_text(line: &Vec<char>, part: &str) -> (found: bool)
    ensures
        found == occurs(line@, part@),
{
    let mut i: usize = 0;
    while i < line.len()
        invariant
            i <= line.len(),
            forall|j: int|
                #![trigger line@.skip(j)]
                0 <= j < i ==> !crate::text::begins_with(line@.skip(j), part@),
        decreases line.len() - i,
    {
        if has_prefix(&suffix_from(line, i), part) {
            return true;
        }
        i = i + 1;
    }
    let end = suffix_from(line, i);
    has_prefix(&end, part)
}

fn suffix_from(line: &Vec<char>, start: usize) -> (rest: Vec<char>)
    requires
        start <= line.len(),
    ensures
        rest@ == line@.skip(start as int),
{
    let mut rest: Vec<char> = Vec::new();
    let mut k: usize = start;
    while k < line.len()
        invariant
            start <= k <= line.len(),
            rest@ == line@.subrange(start as int, k as int),
        decreases line.len() - k,
    {
        rest.push(line[k]);
        k = k + 1;
        assert(line@.subrange(start as int, k as int) =~= line@.subrange(start as int, k - 1).push(
            line@[k - 1],
        ));
    }
    assert(rest@ =~= line@.skip(start as int));
    rest
}

impl HostRoute {
    /// Whether the route goes through an interface.
    pub fn uses_interface(&self, interface: &str) -> (uses: bool)
        ensures
            uses == exists|i: int|
                #![trigger crate::text::lines_of(self.output@)[i]]
                0 <= i < crate::text::lines_of(self.output@).len() && names_interface(
                    crate::text::trimmed(
                        crate::text::lines_of(self.output@)[i],
                        CharClass::WhiteSpace,
                    ),
                    interface@,
                ),
    {
        let mut labelled = "interface: ".to_owned();
        labelled.append(interface);
        let mut device = " dev ".to_owned();
        device.append(interface);
        let chars = to_chars(self.output.as_str());
        let list = lines(&chars);
        let ghost all = crate::text::lines_of(self.output@);
        assert(all.len() == list@.len());
        let mut i: usize = 0;
        while i < list.len()
            invariant
                i <= list.len(),
                all == crate::text::word_texts(list@),
                all == crate::text::lines_of(self.output@),
                all.len() == list@.len(),
                labelled@ == "interface: "@ + interface@,
                device@ == " dev "@ + interface@,
                forall|j: int|
                    #![trigger all[j]]
                    0 <= j < i ==> !names_interface(
                        crate::text::trimmed(all[j], CharClass::WhiteSpace),
                        interface@,
                    ),
            decreases list.len() - i,
        {
            assert(all[i as int] == list@[i as int]@);
            let line = trim(&list[i], CharClass::WhiteSpace);
            if is_text(&line, labelled.as_str()) || has_suffix(&line, device.as_str()) {
                return true;
            }
            i = i + 1;
        }
        false
    }

    /// The lines worth showing.
    pub fn summary_lines(&self) -> (list: Vec<String>)
        ensures
            texts(list@) == summaries(
                crate::text::lines_of(self.output@),
                crate::text::lines_of(self.output@).len() as int,
            ),
    {
        let chars = to_chars(self.output.as_str());
        let all_lines = lines(&chars);
        let ghost all = crate::text::lines_of(self.output@);
        assert(all.len() == all_lines@.len());
        let mut list: Vec<String> = Vec::new();
        let mut i: usize = 0;
        assert(texts(list@) =~= summaries(all, 0));
        while i < all_lines.len()
            invariant
                i <= all_lines.len(),
                all == crate::text::word_texts(all_lines@),
                all.len() == all_lines@.len(),
                texts(list@) == summaries(all, i as int),
            decreases all_lines.len() - i,
        {
            assert(all[i as int] == all_lines@[i as int]@);
            let line = trim(&all_lines[i], CharClass::WhiteSpace);
            if has_prefix(&line, "gateway:") || has_prefix(&line, "interface:") || has_prefix(
                &line,
                "route to:",
            ) || contains_text(&line, " dev ") || has_prefix(&line, "default via ") {
                push_string(&mut list, from_chars(line.as_slice()));
            }
            i = i + 1;
        }
        list
    }
}

// ---------------------------------------------------------------------------
// Routes.
// ---------------------------------------------------------------------------

/// What came of asking the system for its route to an endpoint.
pub enum Inspection {
    Found(HostRoute),
    Failed(String),
}

/// Whether the system's route uses an interface.
pub open spec fn route_uses(output: Seq<char>, interface: Seq<char>) -> bool {
    exists|i: int|
        #![trigger crate::text::lines_of(output)[i]]
        0 <= i < crate::text::lines_of(output).len() && names_interface(
            crate::text::trimmed(crate::text::lines_of(output)[i], CharClass::WhiteSpace),
            interface,
        )
}

/// Texts with four spaces before each.
pub open spec fn indented(list: Seq<Seq<char>>) -> Seq<Seq<char>> {
    list.map_values(|line: Seq<char>| "    "@ + line)
}

/// The lines on the system's route to one endpoint.
pub open spec fn inspection_text(inspection: Inspection, interface: Seq<char>) -> Seq<Seq<char>> {
    match inspection {
        Inspection::Found(route) => {
            let all = crate::text::lines_of(route.output@);
            seq![
                if route_uses(route.output@, interface) {
                    "  FAIL current host route appears to use "@ + interface
                        + "; this can loop the tunnel"@
                } else {
                    "  OK current host route does not appear to use "@ + interface
                },
            ] + indented(summaries(all, all.len() as int))
        },
        Inspection::Failed(reason) => seq!["  WARN could not inspect host route: "@ + reason@],
    }
}

fn inspection_lines(inspection: &Inspection, interface: &str) -> (list: Vec<String>)
    ensures
        texts(list@) == inspection_text(*inspection, interface@),
{
    let mut list: Vec<String> = Vec::new();
    match inspection {
        Inspection::Found(route) => {
            let ghost found = crate::text::lines_of(route.output@);
            let ghost shown = summaries(found, found.len() as int);
            if route.uses_interface(interface) {
                push_line(
                    &mut list,
                    "  FAIL current host route appears to use ",
                    interface,
                    "; this can loop the tunnel",
                );
            } else {
                let mut line = "  OK current host route does not appear to use ".to_owned();
                line.append(interface);
                push_string(&mut list, line);
            }
            let ghost head = texts(list@);
            let summary = route.summary_lines();
            let mut i: usize = 0;
            assert(head + indented(shown).take(0) =~= head);
            while i < summary.len()
                invariant
                    i <= summary.len(),
                    texts(summary@) == shown,
                    texts(list@) == head + indented(shown).take(i as int),
                decreases summary.len() - i,
            {
                assert(shown[i as int] == summary@[i as int]@);
                let mut line = "    ".to_owned();
                line.append(summary[i].as_str());
                push_string(&mut list, line);
                i = i + 1;
                assert(indented(shown).take(i as int) =~= indented(shown).take(i - 1).push(
                    indented(shown)[i - 1],
                ));
                assert(texts(list@) =~= head + indented(shown).take(i as int));
            }
            assert(indented(shown).take(i as int) =~= indented(shown));
            assert(texts(list@) =~= inspection_text(*inspection, interface@));
        },
        Inspection::Failed(reason) => {
            let mut line = "  WARN could not inspect host route: ".to_owned();
            line.append(reason.as_str());
            push_string(&mut list, line);
            assert(texts(list@) =~= inspection_text(*inspection, interface@));
        },
    }
    list
}

/// One line for each of the first `n` routes.
pub open spec fn route_lines(routes: Seq<Route>, arrow: Seq<char>, n: int) -> Seq<Seq<char>>
    decreases n,
{
    if n <= 0 {
        seq![]
    } else {
        let route = routes[n - 1];
        route_lines(routes, arrow, n - 1).push(
            "  "@ + route.prefix.text() + arrow + route.peer.name@ + " ("@
                + route.peer.endpoint.text() + ")"@,
        )
    }
}

/// Appends one line for each route.
pub(crate) fn push_route_lines(list: &mut Vec<String>, routes: &[Route], arrow: &str)
    ensures
        texts(final(list)@) == texts(old(list)@) + route_lines(
            routes@,
            arrow@,
            routes@.len() as int,
        ),
{
    let ghost head = texts(list@);
    let mut i: usize = 0;
    assert(head + route_lines(routes@, arrow@, 0) =~= head);
    while i < routes.len()
        invariant
            i <= routes.len(),
            texts(list@) == head + route_lines(routes@, arrow@, i as int),
        decreases routes.len() - i,
    {
        let mut line = "  ".to_owned();
        line.append(routes[i].prefix.to_text().as_str());
        line.append(arrow);
        line.append(routes[i].peer.name.as_str());
        line.append(" (");
        line.append(routes[i].peer.endpoint.to_text().as_str());
        line.append(")");
        push_string(list, line);
        i = i + 1;
        assert(texts(list@) =~= head + route_lines(routes@, arrow@, i as int));
    }
}

/// The positions, among the first `n` routes, of default routes.
pub open spec fn full_tunnel(routes: Seq<Route>, n: int) -> Seq<int>
    decreases n,
{
    if n <= 0 {
        seq![]
    } else if routes[n - 1].prefix.prefix_len == 0 {
        full_tunnel(routes, n - 1).push(n - 1)
    } else {
        full_tunnel(routes, n - 1)
    }
}

/// The endpoints of the peers with default routes: those whose host routes are
/// worth asking for.
pub fn full_tunnel_endpoints(router: &Router) -> (endpoints: Vec<IpAddr>)
    ensures
        ({
            let routes = router.route_list();
            let listed = full_tunnel(routes, routes.len() as int);
            endpoints@.len() == listed.len() && forall|k: int|
                #![trigger endpoints@[k]]
                0 <= k < listed.len() ==> endpoints@[k]
                    == routes[listed[k]].peer.endpoint.ip_of()
        }),
{
    let routes = router.routes();
    let mut endpoints: Vec<IpAddr> = Vec::new();
    let mut i: usize = 0;
    while i < routes.len()
        invariant
            i <= routes.len(),
            endpoints@.len() == full_tunnel(routes@, i as int).len(),
            forall|k: int|
                #![trigger endpoints@[k]]
                0 <= k < endpoints@.len() ==> endpoints@[k] == routes@[full_tunnel(
                    routes@,
                    i as int,
                )[k]].peer.endpoint.ip_of(),
        decreases routes.len() - i,
    {
        if routes[i].prefix.prefix_len == 0 {
            endpoints.push(routes[i].peer.endpoint.ip());
        }
        i = i + 1;
    }
    endpoints
}

/// The lines on the first `n` default routes.
pub open spec fn endpoint_text(
    routes: Seq<Route>,
    listed: Seq<int>,
    inspections: Seq<Inspection>,
    interface: Seq<char>,
    n: int,
) -> Seq<Seq<char>>
    decreases n,
{
    if n <= 0 {
        seq![]
    } else {
        let peer = routes[listed[n - 1]].peer;
        let ip = peer.endpoint.ip_of().text();
        endpoint_text(routes, listed, inspections, interface, n - 1) + seq![
            "  endpoint "@ + ip + " for peer "@ + peer.name@,
        ] + inspection_text(inspections[n - 1], interface) + seq![
            "  suggested macOS exception:"@,
            "    sudo route add -host "@ + ip + " <current_gateway>"@,
        ]
    }
}

/// The lines on the configured routes and, for default routes, on the host's
/// routes to the endpoints.
pub open spec fn routes_text(
    interface: Seq<char>,
    routes: Seq<Route>,
    inspections: Seq<Inspection>,
) -> Seq<Seq<char>> {
    let n = routes.len() as int;
    let listed = full_tunnel(routes, n);
    if n == 0 {
        seq!["WARN no peer allowed_ips routes are configured"@]
    } else if listed.len() == 0 {
        seq!["Configured HushWire routes:"@] + route_lines(routes, " -> "@, n) + seq![
            "OK no full-tunnel route configured"@,
        ]
    } else {
        seq!["Configured HushWire routes:"@] + route_lines(routes, " -> "@, n) + seq![
            "WARN full-tunnel route configured"@,
            "  before routing default traffic into "@ + interface
                + ", add endpoint exception routes:"@,
        ] + endpoint_text(routes, listed, inspections, interface, listed.len() as int)
    }
}

/// The lines on routes. `inspections` answer for the endpoints of
/// `full_tunnel_endpoints`, in its order.
pub fn check_routes(config: &Config, router: &Router, inspections: &Vec<Inspection>) -> (list: Vec<
    String,
>)
    requires
        inspections@.len() == full_tunnel(
            router.route_list(),
            router.route_list().len() as int,
        ).len(),
    ensures
        texts(list@) == routes_text(config.interface.name@, router.route_list(), inspections@),
{
    let interface = config.interface.name.as_str();
    let routes = router.routes();
    let ghost n = routes@.len() as int;
    let ghost listed = full_tunnel(routes@, n);
    let mut list: Vec<String> = Vec::new();
    if routes.len() == 0 {
        push_text(&mut list, "WARN no peer allowed_ips routes are configured");
        assert(texts(list@) =~= routes_text(interface@, routes@, inspections@));
        return list;
    }
    push_text(&mut list, "Configured HushWire routes:");
    push_route_lines(&mut list, routes, " -> ");
    if inspections.len() == 0 {
        push_text(&mut list, "OK no full-tunnel route configured");
        assert(texts(list@) =~= routes_text(interface@, routes@, inspections@));
        return list;
    }
    push_text(&mut list, "WARN full-tunnel route configured");
    push_line(
        &mut list,
        "  before routing default traffic into ",
        interface,
        ", add endpoint exception routes:",
    );
    let ghost head = texts(list@);
    let mut k: usize = 0;
    let mut i: usize = 0;
    assert(head + endpoint_text(routes@, listed, inspections@, interface@, 0) =~= head);
    while i < routes.len()
        invariant
            i <= routes.len(),
            n == routes@.len(),
            listed == full_tunnel(routes@, n),
            inspections.len() == listed.len(),
            k == full_tunnel(routes@, i as int).len(),
            k <= listed.len(),
            full_tunnel(routes@, i as int) == listed.take(k as int),
            texts(list@) == head + endpoint_text(
                routes@,
                listed,
                inspections@,
                interface@,
                k as int,
            ),
        decreases routes.len() - i,
    {
        if routes[i].prefix.prefix_len == 0 {
            let ghost before = texts(list@);
            proof {
                lemma_full_tunnel_grows(routes@, i + 1, n);
                let next = full_tunnel(routes@, i + 1);
                assert(next[k as int] == i);
                assert(listed[k as int] == i);
                assert(next =~= listed.take(k + 1));
            }
            let peer = &routes[i].peer;
            let ip = peer.endpoint.ip().to_text();
            let mut line = "  endpoint ".to_owned();
            line.append(ip.as_str());
            line.append(" for peer ");
            line.append(peer.name.as_str());
            push_string(&mut list, line);
            push_all(&mut list, &inspection_lines(&inspections[k], interface));
            push_text(&mut list, "  suggested macOS exception:");
            push_line(&mut list, "    sudo route add -host ", ip.as_str(), " <current_gateway>");
            k = k + 1;
            assert(texts(list@) =~= head + endpoint_text(
                routes@,
                listed,
                inspections@,
                interface@,
                k as int,
            ));
        }
        i = i + 1;
    }
    assert(listed.take(k as int).len() == listed.len());
    assert(texts(list@) =~= routes_text(interface@, routes@, inspections@));
    list
}

proof fn lemma_full_tunnel_grows(routes: Seq<Route>, m: int, n: int)
    requires
        0 <= m <= n <= routes.len(),
    ensures
        full_tunnel(routes, m).len() <= full_tunnel(routes, n).len(),
        full_tunnel(routes, m) == full_tunnel(routes, n).take(full_tunnel(routes, m).len() as int),
    decreases n - m,
{
    if m == n {
        assert(full_tunnel(routes, n).take(full_tunnel(routes, n).len() as int) =~= full_tunnel(
            routes,
            n,
        ));
    } else {
        lemma_full_tunnel_grows(routes, m, n - 1);
        let short = full_tunnel(routes, m);
        assert(full_tunnel(routes, n).take(short.len() as int) =~= full_tunnel(
            routes,
            n - 1,
        ).take(short.len() as int));
    }
}

// ---------------------------------------------------------------------------
// Forwarding.
// ---------------------------------------------------------------------------

/// Whether the forwarding setting, as the system prints it, is on.
pub fn forwarding_is_on(setting: &str) -> (on: bool)
    ensures
        on == (crate::text::trimmed(setting@, CharClass::WhiteSpace) == "1"@),
{
    let chars = to_chars(setting);
    is_text(&trim(&chars, CharClass::WhiteSpace), "1")
}

/// The lines on forwarding, which may be unknown.
pub open spec fn forwarding_text(forwarding: Option<bool>) -> Seq<Seq<char>> {
    match forwarding {
        Some(true) => seq!["OK IPv4 forwarding appears enabled"@],
        Some(false) => seq![
            "FAIL IPv4 forwarding appears disabled"@,
            "  macOS: sudo sysctl -w net.inet.ip.forwarding=1"@,
            "  Linux: sudo sysctl -w net.ipv4.ip_forward=1"@,
        ],
        None => seq!["WARN IPv4 forwarding status is unknown on this OS"@],
    }
}

/// The lines above the checks of an exit node.
pub fn exit_node_heading() -> (list: Vec<String>)
    ensures
        texts(list@) == seq![""@, "Exit-node checks:"@],
{
    let mut list: Vec<String> = Vec::new();
    push_text(&mut list, "");
    push_text(&mut list, "Exit-node checks:");
    assert(texts(list@) =~= seq![""@, "Exit-node checks:"@]);
    list
}

/// The lines on an exit node: its forwarding, and the NAT that it needs.
pub fn exit_node_lines(config: &Config, forwarding: Option<bool>) -> (list: Vec<String>)
    ensures
        texts(list@) == forwarding_text(forwarding) + seq![
            "NAT: manual check required"@,
            "  tunnel subnet "@ + (Ipv4Addr {
                bits: config.interface.address.network_bits() as u32,
            }).text() + " must be masqueraded/NATed to the outbound interface"@,
        ],
{
    let mut list: Vec<String> = Vec::new();
    match forwarding {
        Some(enabled) => {
            if enabled {
                push_text(&mut list, "OK IPv4 forwarding appears enabled");
            } else {
                push_text(&mut list, "FAIL IPv4 forwarding appears disabled");
                push_text(&mut list, "  macOS: sudo sysctl -w net.inet.ip.forwarding=1");
                push_text(&mut list, "  Linux: sudo sysctl -w net.ipv4.ip_forward=1");
            }
        },
        None => {
            push_text(&mut list, "WARN IPv4 forwarding status is unknown on this OS");
        },
    }
    push_text(&mut list, "NAT: manual check required");
    push_line(
        &mut list,
        "  tunnel subnet ",
        config.interface.address.network().to_text().as_str(),
        " must be masqueraded/NATed to the outbound interface",
    );
    assert(texts(list@) =~= forwarding_text(forwarding) + seq![
        "NAT: manual check required"@,
        "  tunnel subnet "@ + (Ipv4Addr {
            bits: config.interface.address.network_bits() as u32,
        }).text() + " must be masqueraded/NATed to the outbound interface"@,
    ]);
    list
}

// ---------------------------------------------------------------------------
// Laws.
// ---------------------------------------------------------------------------

/// Every route has its line, in the order of the routes.
pub proof fn every_route_has_its_line(routes: Seq<Route>, arrow: Seq<char>, n: int, i: int)
    requires
        0 <= i < n <= routes.len(),
    ensures
        route_lines(routes, arrow, n).len() == n,
        route_lines(routes, arrow, n)[i] == "  "@ + routes[i].prefix.text() + arrow
            + routes[i].peer.name@ + " ("@ + routes[i].peer.endpoint.text() + ")"@,
    decreases n,
{
    assert(route_lines(routes, arrow, 0).len() == 0);
    if i < n - 1 {
        every_route_has_its_line(routes, arrow, n - 1, i);
    } else if n > 1 {
        every_route_has_its_line(routes, arrow, n - 1, 0);
    }
}

/// The default routes are all found, each once and in order, and no other route
/// is taken for one.
pub proof fn every_default_route_is_found(routes: Seq<Route>, n: int, i: int)
    requires
        0 <= i < n <= routes.len(),
    ensures
        full_tunnel(routes, n).contains(i) <==> routes[i].prefix.prefix_len == 0,
        forall|a: int, b: int|
            #![trigger full_tunnel(routes, n)[a], full_tunnel(routes, n)[b]]
            0 <= a < b < full_tunnel(routes, n).len() ==> 0 <= full_tunnel(routes, n)[a]
                < full_tunnel(routes, n)[b] < n,
    decreases n,
{
    lemma_full_tunnel(routes, n);
    let found = full_tunnel(routes, n);
    if found.contains(i) {
        let at = found.index_of(i);
        assert(routes[found[at]].prefix.prefix_len == 0);
    }
}

proof fn lemma_full_tunnel(routes: Seq<Route>, n: int)
    requires
        0 <= n <= routes.len(),
    ensures
        forall|k: int|
            #![trigger full_tunnel(routes, n)[k]]
            0 <= k < full_tunnel(routes, n).len() ==> 0 <= full_tunnel(routes, n)[k] < n
                && routes[full_tunnel(routes, n)[k]].prefix.prefix_len == 0,
        forall|i: int|
            #![trigger routes[i]]
            0 <= i < n && routes[i].prefix.prefix_len == 0 ==> full_tunnel(routes, n).contains(i),
        forall|a: int, b: int|
            #![trigger full_tunnel(routes, n)[a], full_tunnel(routes, n)[b]]
            0 <= a < b < full_tunnel(routes, n).len() ==> full_tunnel(routes, n)[a] < full_tunnel(
                routes,
                n,
            )[b],
    decreases n,
{
    if n > 0 {
        lemma_full_tunnel(routes, n - 1);
        let before = full_tunnel(routes, n - 1);
        let after = full_tunnel(routes, n);
        assert forall|k: int|
            #![trigger full_tunnel(routes, n)[k]]
            0 <= k < after.len() implies 0 <= after[k] < n && routes[after[k]].prefix.prefix_len
            == 0 by {
            if k < before.len() {
                assert(after[k] == before[k]);
            }
        }
        assert forall|i: int|
            #![trigger routes[i]]
            0 <= i < n && routes[i].prefix.prefix_len == 0 implies after.contains(i) by {
            if i < n - 1 {
                let at = before.index_of(i);
                assert(after[at] == before[at]);
            } else {
                assert(after[after.len() - 1] == n - 1);
            }
        }
        assert forall|a: int, b: int|
            #![trigger full_tunnel(routes, n)[a], full_tunnel(routes, n)[b]]
            0 <= a < b < after.len() implies after[a] < after[b] by {
            assert(after[a] == before[a]);
            if b < before.len() {
                assert(after[b] == before[b]);
            }
        }
    }
}

/// Every line of the system's answer that is worth showing is shown, without the
/// white space around it, and nothing else is.
pub proof fn every_telling_line_is_shown(lines: Seq<Seq<char>>, n: int, i: int)
    requires
        0 <= i < n <= lines.len(),
    ensures
        is_summary(crate::text::trimmed(lines[i], CharClass::WhiteSpace)) ==> summaries(
            lines,
            n,
        ).contains(crate::text::trimmed(lines[i], CharClass::WhiteSpace)),
        summaries(lines, n).len() <= n,
        forall|k: int|
            #![trigger summaries(lines, n)[k]]
            0 <= k < summaries(lines, n).len() ==> is_summary(summaries(lines, n)[k]),
    decreases n,
{
    lemma_summaries(lines, n);
    if i < n - 1 {
        every_telling_line_is_shown(lines, n - 1, i);
        let line = crate::text::trimmed(lines[i], CharClass::WhiteSpace);
        if is_summary(line) {
            let at = summaries(lines, n - 1).index_of(line);
            assert(summaries(lines, n)[at] == line);
        }
    } else {
        let line = crate::text::trimmed(lines[n - 1], CharClass::WhiteSpace);
        if is_summary(line) {
            assert(summaries(lines, n)[summaries(lines, n).len() - 1] == line);
        }
    }
}

proof fn lemma_summaries(lines: Seq<Seq<char>>, n: int)
    requires
        0 <= n <= lines.len(),
    ensures
        summaries(lines, n).len() <= n,
        forall|k: int|
            #![trigger summaries(lines, n)[k]]
            0 <= k < summaries(lines, n).len() ==> is_summary(summaries(lines, n)[k]),
    decreases n,
{
    if n > 0 {
        lemma_summaries(lines, n - 1);
        let before = summaries(lines, n - 1);
        assert forall|k: int|
            #![trigger summaries(lines, n)[k]]
            0 <= k < summaries(lines, n).len() implies is_summary(summaries(lines, n)[k]) by {
            if k < before.len() {
                assert(summaries(lines, n)[k] == before[k]);
            }
        }
    }
}

/// A route that the system lists with a device at its end uses that device.
pub proof fn listed_device_is_recognised(start: Seq<char>, interface: Seq<char>)
    ensures
        names_interface(start + (" dev "@ + interface), interface),
        names_interface("interface: "@ + interface, interface),
{
    let tail = " dev "@ + interface;
    assert((start + tail).skip((start + tail).len() - tail.len()) =~= tail);
}

} // verus!
