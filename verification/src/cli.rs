//! What the command line shows: routing decisions, route plans and key pairs.

use vstd::prelude::*;
use vstd::string::*;

use crate::bytes::to_array32;
use crate::config::{base64_encode, Config};
use crate::doctor::{push_line, push_route_lines, transport_name};
use crate::net::Ipv4Addr;
use crate::noise::{fill_random, x25519_public_key};
use crate::router::{ExcludedRoute, Route, Router};
use crate::text::{decimal, push_string, push_text, texts};

verus! {

// ---------------------------------------------------------------------------
// Keys.
// ---------------------------------------------------------------------------

/// The lines that show a key pair.
pub open spec fn key_pair_text(secret: Seq<u8>) -> Seq<Seq<char>> {
    seq![
        "PrivateKey = "@ + crate::config::base64_text(secret),
        "PublicKey  = "@ + crate::config::base64_text(crate::noise::static_public_key(secret)),
        ""@,
        "# Put PrivateKey in your [interface] section."@,
        "# Put the peer's PublicKey in their [[peer]] section."@,
    ]
}

/// The lines that show the key pair of a secret.
pub fn key_pair_lines(secret: &[u8; 32]) -> (list: Vec<String>)
    ensures
        texts(list@) == key_pair_text(secret@),
{
    let public_key = x25519_public_key(secret);
    let mut list: Vec<String> = Vec::new();
    let mut private_line = "PrivateKey = ".to_owned();
    private_line.append(encode_key(secret).as_str());
    push_string(&mut list, private_line);
    let mut public_line = "PublicKey  = ".to_owned();
    public_line.append(encode_key(&public_key).as_str());
    push_string(&mut list, public_line);
    push_text(&mut list, "");
    push_text(&mut list, "# Put PrivateKey in your [interface] section.");
    push_text(&mut list, "# Put the peer's PublicKey in their [[peer]] section.");
    assert(texts(list@) =~= key_pair_text(secret@));
    list
}

/// Generates a static key pair for the Noise handshake: the lines that show
/// it, for a secret drawn from the operating system's generator.
pub fn genkey() -> (list: Vec<String>)
    ensures
        exists|secret: Seq<u8>|
            #![trigger key_pair_text(secret)]
            secret.len() == 32 && texts(list@) == key_pair_text(secret),
{
    let mut bytes: Vec<u8> = vec![0u8; 32];
    fill_random(&mut bytes);
    let secret = to_array32(bytes.as_slice());
    let list = key_pair_lines(&secret);
    assert(texts(list@) == key_pair_text(secret@));
    list
}

/// A key as base64 text, which decodes to the key again.
pub fn encode_key(key: &[u8; 32]) -> (text: String)
    ensures
        text@ == crate::config::base64_text(key@),
        crate::config::key_of(crate::config::base64_bytes(text@)) == Some(key@),
{
    base64_encode(key.as_slice())
}

// ---------------------------------------------------------------------------
// Routing decisions.
// ---------------------------------------------------------------------------

/// The lines that say that a configuration is accepted.
pub fn check_lines(config: &Config, router: &Router) -> (list: Vec<String>)
    ensures
        texts(list@) == seq![
            "config ok"@,
            "interface: "@ + config.interface.name@,
            "listen: "@ + config.interface.listen.text(),
            "routes: "@ + crate::text::decimal_text(router.route_list().len()),
        ],
{
    let mut list: Vec<String> = Vec::new();
    push_text(&mut list, "config ok");
    let mut interface = "interface: ".to_owned();
    interface.append(config.interface.name.as_str());
    push_string(&mut list, interface);
    let mut listen = "listen: ".to_owned();
    listen.append(config.interface.listen.to_text().as_str());
    push_string(&mut list, listen);
    let mut routes = "routes: ".to_owned();
    routes.append(decimal(router.routes().len() as u64).as_str());
    push_string(&mut list, routes);
    assert(texts(list@) =~= seq![
        "config ok"@,
        "interface: "@ + config.interface.name@,
        "listen: "@ + config.interface.listen.text(),
        "routes: "@ + crate::text::decimal_text(router.route_list().len()),
    ]);
    list
}

/// The line on where a destination is routed.
pub open spec fn route_text(destination: Ipv4Addr, found: Option<Route>) -> Seq<char> {
    match found {
        Some(route) => destination.text() + " -> peer="@ + route.peer.name@ + " endpoint="@
            + route.peer.endpoint.text() + " via="@ + route.prefix.text(),
        None => destination.text() + " -> no route"@,
    }
}

/// Whether `found` is the first route of a router that takes a destination.
pub open spec fn is_first_route(router: Router, destination: Ipv4Addr, found: Option<Route>) -> bool {
    let routes = router.route_list();
    match found {
        Some(route) => exists|i: int|
            #![trigger routes[i]]
            0 <= i < routes.len() && routes[i] == route && route.takes(destination) && forall|j: int|
                #![trigger routes[j]]
                0 <= j < i ==> !routes[j].takes(destination),
        None => forall|j: int|
            #![trigger routes[j]]
            0 <= j < routes.len() ==> !routes[j].takes(destination),
    }
}

/// The line on where a destination is routed.
pub fn route_line(router: &Router, destination: Ipv4Addr) -> (line: String)
    ensures
        exists|found: Option<Route>|
            #![trigger is_first_route(*router, destination, found)]
            is_first_route(*router, destination, found) && line@ == route_text(destination, found),
{
    let mut line = destination.to_text();
    match router.lookup(destination) {
        Some(route) => {
            line.append(" -> peer=");
            line.append(route.peer.name.as_str());
            line.append(" endpoint=");
            line.append(route.peer.endpoint.to_text().as_str());
            line.append(" via=");
            line.append(route.prefix.to_text().as_str());
            assert(is_first_route(*router, destination, Some(*route)));
        },
        None => {
            line.append(" -> no route");
            assert(is_first_route(*router, destination, None));
        },
    }
    line
}

/// One line for each of the first `n` routes, with its peer.
pub open spec fn peer_lines(routes: Seq<Route>, n: int) -> Seq<Seq<char>>
    decreases n,
{
    if n <= 0 {
        seq![]
    } else {
        peer_lines(routes, n - 1).push(
            "  "@ + routes[n - 1].prefix.text() + " -> "@ + routes[n - 1].peer.name@,
        )
    }
}

/// The lines that explain where a destination is routed.
pub open spec fn explanation(
    config: Config,
    routes: Seq<Route>,
    destination: Ipv4Addr,
    found: Option<Route>,
) -> Seq<Seq<char>> {
    seq![
        "Config: "@ + config.interface.name@,
        "Destination: "@ + destination.text(),
        "Local tunnel address: "@ + config.interface.address.addr.text(),
        "Transport: "@ + crate::doctor::transport_text(config.interface.transport)
            + " listening on "@ + config.interface.listen.text(),
    ] + match found {
        Some(route) => seq![
            "Decision: send"@,
            "Reason: "@ + destination.text() + " matches allowed_ips entry "@
                + route.prefix.text() + "."@,
            "Peer: "@ + route.peer.name@,
            "Peer endpoint: "@ + route.peer.endpoint.text(),
        ],
        None => seq![
            "Decision: drop"@,
            "Reason: no peer allowed_ips entry matches "@ + destination.text() + "."@,
        ] + if routes.len() == 0 {
            seq!["Configured routes: none"@]
        } else {
            seq!["Configured routes:"@] + peer_lines(routes, routes.len() as int)
        },
    }
}

/// The lines that explain where a destination is routed.
pub fn explain_route(config: &Config, router: &Router, destination: Ipv4Addr) -> (list: Vec<String>)
    ensures
        exists|found: Option<Route>|
            #![trigger is_first_route(*router, destination, found)]
            is_first_route(*router, destination, found) && texts(list@) == explanation(
                *config,
                router.route_list(),
                destination,
                found,
            ),
{
    let mut list: Vec<String> = Vec::new();
    let mut name = "Config: ".to_owned();
    name.append(config.interface.name.as_str());
    push_string(&mut list, name);
    let mut target = "Destination: ".to_owned();
    target.append(destination.to_text().as_str());
    push_string(&mut list, target);
    let mut local = "Local tunnel address: ".to_owned();
    local.append(config.interface.address.addr.to_text().as_str());
    push_string(&mut list, local);
    let mut transport = "Transport: ".to_owned();
    transport.append(transport_name(config.interface.transport));
    transport.append(" listening on ");
    transport.append(config.interface.listen.to_text().as_str());
    push_string(&mut list, transport);
    match router.lookup(destination) {
        Some(route) => {
            push_text(&mut list, "Decision: send");
            let mut reason = "Reason: ".to_owned();
            reason.append(destination.to_text().as_str());
            reason.append(" matches allowed_ips entry ");
            reason.append(route.prefix.to_text().as_str());
            reason.append(".");
            push_string(&mut list, reason);
            let mut peer = "Peer: ".to_owned();
            peer.append(route.peer.name.as_str());
            push_string(&mut list, peer);
            let mut endpoint = "Peer endpoint: ".to_owned();
            endpoint.append(route.peer.endpoint.to_text().as_str());
            push_string(&mut list, endpoint);
            assert(is_first_route(*router, destination, Some(*route)));
            assert(texts(list@) =~= explanation(
                *config,
                router.route_list(),
                destination,
                Some(*route),
            ));
        },
        None => {
            push_text(&mut list, "Decision: drop");
            push_line(
                &mut list,
                "Reason: no peer allowed_ips entry matches ",
                destination.to_text().as_str(),
                ".",
            );
            let routes = router.routes();
            if routes.len() == 0 {
                push_text(&mut list, "Configured routes: none");
            } else {
                push_text(&mut list, "Configured routes:");
                push_peer_lines(&mut list, routes);
            }
            assert(is_first_route(*router, destination, None));
            assert(texts(list@) =~= explanation(*config, router.route_list(), destination, None));
        },
    }
    list
}

fn push_peer_lines(list: &mut Vec<String>, routes: &[Route])
    ensures
        texts(final(list)@) == texts(old(list)@) + peer_lines(routes@, routes@.len() as int),
{
    let ghost head = texts(list@);
    let mut i: usize = 0;
    assert(head + peer_lines(routes@, 0) =~= head);
    while i < routes.len()
        invariant
            i <= routes.len(),
            texts(list@) == head + peer_lines(routes@, i as int),
        decreases routes.len() - i,
    {
        let mut line = "  ".to_owned();
        line.append(routes[i].prefix.to_text().as_str());
        line.append(" -> ");
        line.append(routes[i].peer.name.as_str());
        push_string(list, line);
        i = i + 1;
        assert(texts(list@) =~= head + peer_lines(routes@, i as int));
    }
}

// ---------------------------------------------------------------------------
// Route plans.
// ---------------------------------------------------------------------------

/// One line for each of the first `n` exclusions.
pub open spec fn exclusion_lines(routes: Seq<ExcludedRoute>, n: int) -> Seq<Seq<char>>
    decreases n,
{
    if n <= 0 {
        seq![]
    } else {
        exclusion_lines(routes, n - 1).push(
            "  "@ + routes[n - 1].prefix.text() + " (excluded from peer "@
                + routes[n - 1].peer.name@ + ")"@,
        )
    }
}

/// The host routes that one route needs. A default route needs the endpoint to
/// stay reachable outside the tunnel.
pub open spec fn host_route_text(route: Route, interface: Seq<char>) -> Seq<Seq<char>> {
    if route.prefix.prefix_len == 0 {
        seq![
            ""@,
            "Full-tunnel route detected: "@ + route.prefix.text(),
            "Before replacing the default route, keep the peer endpoint reachable outside the tunnel:"@,
            "  sudo route add -host "@ + route.peer.endpoint.ip_of().text()
                + " <current_gateway>"@,
            "Then route default traffic into the TUN interface:"@,
            "  sudo route add default -interface "@ + interface,
            "If your OS already has a default route, replace/add semantics may differ."@,
        ]
    } else if route.prefix.prefix_len == 32 {
        seq![
            "  sudo route add -host "@ + route.prefix.addr.text() + " -interface "@ + interface,
        ]
    } else {
        seq!["  sudo route add -net "@ + route.prefix.text() + " -interface "@ + interface]
    }
}

/// The host routes that the first `n` routes need.
pub open spec fn host_routes_text(routes: Seq<Route>, interface: Seq<char>, n: int) -> Seq<
    Seq<char>,
>
    decreases n,
{
    if n <= 0 {
        seq![]
    } else {
        host_routes_text(routes, interface, n - 1) + host_route_text(routes[n - 1], interface)
    }
}

/// The lines of a route plan.
pub open spec fn plan_text(
    config: Config,
    routes: Seq<Route>,
    exclusions: Seq<ExcludedRoute>,
) -> Seq<Seq<char>> {
    let header = seq![
        "Interface: "@ + config.interface.name@,
        "Tunnel address: "@ + config.interface.address.text(),
        "Transport listen: "@ + config.interface.listen.text(),
    ];
    if routes.len() == 0 {
        header + seq!["No allowed_ips routes are configured."@]
    } else {
        header + seq![""@, "Routes HushWire will use internally:"@] + crate::doctor::route_lines(
            routes,
            " -> peer "@,
            routes.len() as int,
        ) + (if exclusions.len() == 0 {
            seq![]
        } else {
            seq![""@, "Configured routes that remain on the physical network:"@]
                + exclusion_lines(exclusions, exclusions.len() as int)
        }) + seq![""@, "Host routes you need outside HushWire:"@] + host_routes_text(
            routes,
            config.interface.name@,
            routes.len() as int,
        ) + seq![
            ""@,
            "Exit-node peer requirements:"@,
            "  enable IPv4 forwarding"@,
            "  enable NAT/masquerade from the tunnel subnet to the outbound interface"@,
        ]
    }
}

fn push_host_route(list: &mut Vec<String>, route: &Route, interface: &str)
    ensures
        texts(final(list)@) == texts(old(list)@) + host_route_text(*route, interface@),
{
    let ghost head = texts(list@);
    if route.prefix.prefix_len == 0 {
        push_text(list, "");
        let mut detected = "Full-tunnel route detected: ".to_owned();
        detected.append(route.prefix.to_text().as_str());
        push_string(list, detected);
        push_text(
            list,
            "Before replacing the default route, keep the peer endpoint reachable outside the tunnel:",
        );
        push_line(
            list,
            "  sudo route add -host ",
            route.peer.endpoint.ip().to_text().as_str(),
            " <current_gateway>",
        );
        push_text(list, "Then route default traffic into the TUN interface:");
        let mut command = "  sudo route add default -interface ".to_owned();
        command.append(interface);
        push_string(list, command);
        push_text(list, "If your OS already has a default route, replace/add semantics may differ.");
    } else {
        let mut command = if route.prefix.prefix_len == 32 {
            let mut command = "  sudo route add -host ".to_owned();
            command.append(route.prefix.addr.to_text().as_str());
            command
        } else {
            let mut command = "  sudo route add -net ".to_owned();
            command.append(route.prefix.to_text().as_str());
            command
        };
        command.append(" -interface ");
        command.append(interface);
        push_string(list, command);
    }
    assert(texts(list@) =~= head + host_route_text(*route, interface@));
}

fn push_host_routes(list: &mut Vec<String>, routes: &[Route], interface: &str)
    ensures
        texts(final(list)@) == texts(old(list)@) + host_routes_text(
            routes@,
            interface@,
            routes@.len() as int,
        ),
{
    let ghost head = texts(list@);
    let mut i: usize = 0;
    assert(head + host_routes_text(routes@, interface@, 0) =~= head);
    while i < routes.len()
        invariant
            i <= routes.len(),
            texts(list@) == head + host_routes_text(routes@, interface@, i as int),
        decreases routes.len() - i,
    {
        push_host_route(list, &routes[i], interface);
        i = i + 1;
        assert(texts(list@) =~= head + host_routes_text(routes@, interface@, i as int));
    }
}

fn push_exclusion_lines(list: &mut Vec<String>, routes: &[ExcludedRoute])
    ensures
        texts(final(list)@) == texts(old(list)@) + exclusion_lines(routes@, routes@.len() as int),
{
    let ghost head = texts(list@);
    let mut i: usize = 0;
    assert(head + exclusion_lines(routes@, 0) =~= head);
    while i < routes.len()
        invariant
            i <= routes.len(),
            texts(list@) == head + exclusion_lines(routes@, i as int),
        decreases routes.len() - i,
    {
        let mut line = "  ".to_owned();
        line.append(routes[i].prefix.to_text().as_str());
        line.append(" (excluded from peer ");
        line.append(routes[i].peer.name.as_str());
        line.append(")");
        push_string(list, line);
        i = i + 1;
        assert(texts(list@) =~= head + exclusion_lines(routes@, i as int));
    }
}

/// The lines of a route plan: what HushWire routes internally, what stays on
/// the physical network, and which host routes are needed.
pub fn plan_routes(config: &Config, router: &Router) -> (list: Vec<String>)
    ensures
        texts(list@) == plan_text(*config, router.route_list(), router.exclusion_list()),
{
    let routes = router.routes();
    let exclusions = router.excluded_routes();
    let mut list: Vec<String> = Vec::new();
    let mut interface = "Interface: ".to_owned();
    interface.append(config.interface.name.as_str());
    push_string(&mut list, interface);
    let mut address = "Tunnel address: ".to_owned();
    address.append(config.interface.address.to_text().as_str());
    push_string(&mut list, address);
    let mut listen = "Transport listen: ".to_owned();
    listen.append(config.interface.listen.to_text().as_str());
    push_string(&mut list, listen);
    if routes.len() == 0 {
        push_text(&mut list, "No allowed_ips routes are configured.");
        assert(texts(list@) =~= plan_text(*config, routes@, exclusions@));
        return list;
    }
    push_text(&mut list, "");
    push_text(&mut list, "Routes HushWire will use internally:");
    push_route_lines(&mut list, routes, " -> peer ");
    if exclusions.len() != 0 {
        push_text(&mut list, "");
        push_text(&mut list, "Configured routes that remain on the physical network:");
        push_exclusion_lines(&mut list, exclusions);
    }
    push_text(&mut list, "");
    push_text(&mut list, "Host routes you need outside HushWire:");
    push_host_routes(&mut list, routes, config.interface.name.as_str());
    push_text(&mut list, "");
    push_text(&mut list, "Exit-node peer requirements:");
    push_text(&mut list, "  enable IPv4 forwarding");
    push_text(
        &mut list,
        "  enable NAT/masquerade from the tunnel subnet to the outbound interface",
    );
    assert(texts(list@) =~= plan_text(*config, routes@, exclusions@));
    list
}

// ---------------------------------------------------------------------------
// Laws.
// ---------------------------------------------------------------------------

/// Where nothing takes a destination, every route is listed with its peer.
pub proof fn every_configured_route_is_listed(routes: Seq<Route>, n: int, i: int)
    requires
        0 <= i < n <= routes.len(),
    ensures
        peer_lines(routes, n).len() == n,
        peer_lines(routes, n)[i] == "  "@ + routes[i].prefix.text() + " -> "@
            + routes[i].peer.name@,
    decreases n,
{
    assert(peer_lines(routes, 0).len() == 0);
    if i < n - 1 {
        every_configured_route_is_listed(routes, n - 1, i);
    } else if n > 1 {
        every_configured_route_is_listed(routes, n - 1, 0);
    }
}

/// Every exclusion is listed with its peer.
pub proof fn every_exclusion_is_listed(routes: Seq<ExcludedRoute>, n: int, i: int)
    requires
        0 <= i < n <= routes.len(),
    ensures
        exclusion_lines(routes, n).len() == n,
        exclusion_lines(routes, n)[i] == "  "@ + routes[i].prefix.text()
            + " (excluded from peer "@ + routes[i].peer.name@ + ")"@,
    decreases n,
{
    assert(exclusion_lines(routes, 0).len() == 0);
    if i < n - 1 {
        every_exclusion_is_listed(routes, n - 1, i);
    } else if n > 1 {
        every_exclusion_is_listed(routes, n - 1, 0);
    }
}

/// Every route's host routes are among those that the plan asks for.
pub proof fn every_host_route_is_asked_for(
    routes: Seq<Route>,
    interface: Seq<char>,
    n: int,
    i: int,
    k: int,
)
    requires
        0 <= i < n <= routes.len(),
        0 <= k < host_route_text(routes[i], interface).len(),
    ensures
        host_routes_text(routes, interface, n).contains(host_route_text(routes[i], interface)[k]),
        routes[i].prefix.prefix_len == 32 ==> host_routes_text(routes, interface, n).contains(
            "  sudo route add -host "@ + routes[i].prefix.addr.text() + " -interface "@ + interface,
        ),
        0 < routes[i].prefix.prefix_len < 32 ==> host_routes_text(routes, interface, n).contains(
            "  sudo route add -net "@ + routes[i].prefix.text() + " -interface "@ + interface,
        ),
        routes[i].prefix.prefix_len == 0 ==> host_routes_text(routes, interface, n).contains(
            "  sudo route add -host "@ + routes[i].peer.endpoint.ip_of().text()
                + " <current_gateway>"@,
        ),
    decreases n,
{
    let before = host_routes_text(routes, interface, n - 1);
    let last = host_route_text(routes[n - 1], interface);
    let all = host_routes_text(routes, interface, n);
    let own = host_route_text(routes[i], interface);
    assert forall|line: Seq<char>| #[trigger] own.contains(line) implies all.contains(line) by {
        let at = own.index_of(line);
        if i < n - 1 {
            every_host_route_is_asked_for(routes, interface, n - 1, i, at);
            let j = before.index_of(own[at]);
            assert(all[j] == before[j]);
        } else {
            assert(all[before.len() + at] == last[at]);
        }
    }
    assert(own.contains(own[k]));
    if routes[i].prefix.prefix_len == 0 {
        assert(own.contains(own[3]));
    } else {
        assert(own.contains(own[0]));
    }
}

/// The explanation says that a destination is sent exactly if a route takes it,
/// and then to that route's peer.
pub proof fn explanation_states_the_decision(
    config: Config,
    router: Router,
    destination: Ipv4Addr,
    found: Option<Route>,
)
    requires
        is_first_route(router, destination, found),
    ensures
        ({
            let text = explanation(config, router.route_list(), destination, found);
            &&& text.len() >= 6
            &&& (exists|i: int|
                #![trigger router.route_list()[i]]
                0 <= i < router.route_list().len() && router.route_list()[i].takes(destination))
                ==> found is Some && text[4] == "Decision: send"@ && text[6] == "Peer: "@
                + found->0.peer.name@ && found->0.takes(destination)
            &&& !(exists|i: int|
                #![trigger router.route_list()[i]]
                0 <= i < router.route_list().len() && router.route_list()[i].takes(destination))
                ==> text[4] == "Decision: drop"@
        }),
{
}

} // verus!
