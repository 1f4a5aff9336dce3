//! Host routes that bring traffic into the tunnel and keep its own endpoints
//! out of it.

use vstd::prelude::*;
use vstd::string::*;

use crate::net::{IpAddr, Ipv4Addr, Ipv4Net};
use crate::router::{ExcludedRoute, Peer, Route, Router};
use crate::text::{
    from_chars, has_prefix, is_text, lines, push_text, texts, to_chars, trim, words, CharClass,
};

verus! {

/// Whose routing commands are spoken.
#[derive(Clone, Copy, Debug, Eq, PartialEq, Structural)]
pub enum Platform {
    Linux,
    MacOs,
}

#[derive(Clone, Copy, Debug, Eq, PartialEq, Structural)]
pub enum RouteKind {
    Tun,
    EndpointException,
    ExcludedPrefix,
}

#[derive(Debug)]
pub struct InstalledRoute {
    pub kind: RouteKind,
    pub spec: String,
    pub tun_name: String,
}

/// An installed route as texts.
pub struct InstalledModel {
    pub kind: RouteKind,
    pub target: Seq<char>,
    pub device: Seq<char>,
}

impl View for InstalledRoute {
    type V = InstalledModel;

    open spec fn view(&self) -> InstalledModel {
        InstalledModel { kind: self.kind, target: self.spec@, device: self.tun_name@ }
    }
}

impl Clone for InstalledRoute {
    fn clone(&self) -> (copy: InstalledRoute)
        ensures
            copy@ == self@,
    {
        InstalledRoute {
            kind: self.kind,
            spec: self.spec.clone(),
            tun_name: self.tun_name.clone(),
        }
    }
}

/// Installed routes as texts.
pub open spec fn installed_models(routes: Seq<InstalledRoute>) -> Seq<InstalledModel> {
    routes.map_values(|route: InstalledRoute| route@)
}

// ---------------------------------------------------------------------------
// What to install.
// ---------------------------------------------------------------------------

/// A route to install.
#[derive(Clone, Copy, Debug, Eq, PartialEq, Structural)]
pub enum RouteStep {
    /// Keep a configured exclusion on the physical network.
    Exclude(Ipv4Net),
    /// Keep a peer's endpoint on the physical network.
    Except(IpAddr),
    /// Bring a prefix into the tunnel.
    Tunnel(Ipv4Net),
}

/// The prefixes of the first `n` exclusions, each once.
pub open spec fn exclusion_steps(routes: Seq<ExcludedRoute>, n: int) -> Seq<RouteStep>
    decreases n,
{
    if n <= 0 {
        seq![]
    } else {
        let before = exclusion_steps(routes, n - 1);
        let step = RouteStep::Exclude(routes[n - 1].prefix);
        if before.contains(step) {
            before
        } else {
            before.push(step)
        }
    }
}

/// The endpoints to keep outside, one for each listed route.
pub open spec fn exception_steps(routes: Seq<Route>, listed: Seq<int>) -> Seq<RouteStep> {
    listed.map_values(|i: int| RouteStep::Except(routes[i].peer.endpoint.ip_of()))
}

/// What brings one prefix into the tunnel: a default route is split in two, so
/// that the system's own is not replaced.
pub open spec fn tunnel_steps_of(prefix: Ipv4Net) -> Seq<RouteStep> {
    if prefix.prefix_len == 0 {
        seq![
            RouteStep::Tunnel(Ipv4Net { addr: Ipv4Addr { bits: 0 }, prefix_len: 1 }),
            RouteStep::Tunnel(Ipv4Net { addr: Ipv4Addr { bits: 0x8000_0000 }, prefix_len: 1 }),
        ]
    } else {
        seq![RouteStep::Tunnel(prefix)]
    }
}

/// What brings the prefixes of the first `n` routes into the tunnel.
pub open spec fn tunnel_steps(routes: Seq<Route>, n: int) -> Seq<RouteStep>
    decreases n,
{
    if n <= 0 {
        seq![]
    } else {
        tunnel_steps(routes, n - 1) + tunnel_steps_of(routes[n - 1].prefix)
    }
}

/// All the routes to install, in order. What stays outside comes first, so that
/// the tunnel never carries its own encrypted flow.
pub open spec fn setup_steps(router: Router) -> Seq<RouteStep> {
    let routes = router.route_list();
    exclusion_steps(router.exclusion_list(), router.exclusion_list().len() as int)
        + exception_steps(routes, router.exceptions(routes.len() as int)) + tunnel_steps(
        routes,
        routes.len() as int,
    )
}

/// Whether a step is in a list.
fn has_step(steps: &Vec<RouteStep>, step: RouteStep) -> (found: bool)
    ensures
        found == steps@.contains(step),
{
    let mut i: usize = 0;
    while i < steps.len()
        invariant
            i <= steps.len(),
            forall|j: int| 0 <= j < i ==> steps@[j] != step,
        decreases steps.len() - i,
    {
        if steps[i] == step {
            assert(steps@[i as int] == step);
            return true;
        }
        i = i + 1;
    }
    false
}

/// All the routes to install, in order.
pub fn plan_setup(router: &Router) -> (steps: Vec<RouteStep>)
    ensures
        steps@ == setup_steps(*router),
{
    let mut steps: Vec<RouteStep> = Vec::new();
    let exclusions = router.excluded_routes();
    let mut i: usize = 0;
    assert(steps@ =~= exclusion_steps(exclusions@, 0));
    while i < exclusions.len()
        invariant
            i <= exclusions.len(),
            steps@ == exclusion_steps(exclusions@, i as int),
        decreases exclusions.len() - i,
    {
        let step = RouteStep::Exclude(exclusions[i].prefix);
        if !has_step(&steps, step) {
            steps.push(step);
        }
        i = i + 1;
    }
    let ghost excluded = steps@;
    let peers = router.endpoint_exception_peers();
    let ghost listed = router.exceptions(router.route_list().len() as int);
    let ghost exceptions = exception_steps(router.route_list(), listed);
    let mut k: usize = 0;
    assert(excluded + exceptions.take(0) =~= excluded);
    while k < peers.len()
        invariant
            k <= peers.len(),
            exceptions == exception_steps(router.route_list(), listed),
            peers@.len() == listed.len(),
            forall|j: int|
                #![trigger peers@[j]]
                0 <= j < listed.len() ==> *peers@[j] == *router.route_list()[listed[j]].peer,
            steps@ == excluded + exceptions.take(k as int),
        decreases peers.len() - k,
    {
        let peer: &Peer = peers[k];
        steps.push(RouteStep::Except(peer.endpoint.ip()));
        k = k + 1;
        assert(exceptions.take(k as int) =~= exceptions.take(k - 1).push(exceptions[k - 1]));
        assert(steps@ =~= excluded + exceptions.take(k as int));
    }
    assert(exceptions.take(k as int) =~= exceptions);
    let ghost outside = steps@;
    let routes = router.routes();
    let mut r: usize = 0;
    assert(outside + tunnel_steps(routes@, 0) =~= outside);
    while r < routes.len()
        invariant
            r <= routes.len(),
            steps@ == outside + tunnel_steps(routes@, r as int),
        decreases routes.len() - r,
    {
        let prefix = routes[r].prefix;
        if prefix.prefix_len == 0 {
            steps.push(
                RouteStep::Tunnel(Ipv4Net { addr: Ipv4Addr { bits: 0 }, prefix_len: 1 }),
            );
            steps.push(
                RouteStep::Tunnel(Ipv4Net { addr: Ipv4Addr { bits: 0x8000_0000 }, prefix_len: 1 }),
            );
        } else {
            steps.push(RouteStep::Tunnel(prefix));
        }
        r = r + 1;
        assert(steps@ =~= outside + tunnel_steps(routes@, r as int));
    }
    steps
}

impl RouteStep {
    /// The destination of the route as text.
    pub open spec fn target(self) -> Seq<char> {
        match self {
            RouteStep::Exclude(prefix) => prefix.text(),
            RouteStep::Except(ip) => ip.text(),
            RouteStep::Tunnel(prefix) => prefix.text(),
        }
    }

    pub fn to_target(&self) -> (target: String)
        ensures
            target@ == self.target(),
    {
        match self {
            RouteStep::Exclude(prefix) => prefix.to_text(),
            RouteStep::Except(ip) => ip.to_text(),
            RouteStep::Tunnel(prefix) => prefix.to_text(),
        }
    }

    /// The address whose physical route the system is asked for: the endpoint
    /// itself, a single excluded address, or the first host of an excluded
    /// prefix.
    pub open spec fn probe(self) -> Option<Seq<char>> {
        match self {
            RouteStep::Tunnel(_) => None,
            RouteStep::Except(ip) => Some(ip.text()),
            RouteStep::Exclude(prefix) => {
                let network = prefix.network_bits();
                Some(
                    (Ipv4Addr {
                        bits: if prefix.prefix_len == 32 || network == u32::MAX {
                            network as u32
                        } else {
                            (network + 1) as u32
                        },
                    }).text(),
                )
            },
        }
    }

    pub fn to_probe(&self) -> (probe: Option<String>)
        ensures
            match probe {
                Some(text) => self.probe() == Some(text@),
                None => self.probe() is None,
            },
    {
        match self {
            RouteStep::Tunnel(_) => None,
            RouteStep::Except(ip) => Some(ip.to_text()),
            RouteStep::Exclude(prefix) => {
                let network = prefix.network();
                if prefix.prefix_len == 32 {
                    Some(network.to_text())
                } else {
                    let host = Ipv4Addr { bits: network.bits.saturating_add(1) };
                    Some(host.to_text())
                }
            },
        }
    }

    /// The arguments of the system's routing command that install the route:
    /// `ip` on Linux and `route` on macOS. What stays outside goes through the
    /// gateway and device that the system uses for it now.
    pub open spec fn add_command(
        self,
        platform: Platform,
        gateway: Option<Seq<char>>,
        device: Seq<char>,
    ) -> Seq<Seq<char>> {
        let target = self.target();
        match platform {
            Platform::Linux => match gateway {
                Some(via) => seq!["route"@, "add"@, target, "via"@, via, "dev"@, device],
                None => seq!["route"@, "add"@, target, "dev"@, device],
            },
            Platform::MacOs => {
                let kind = if self is Except {
                    "-host"@
                } else {
                    "-net"@
                };
                match gateway {
                    Some(via) => seq!["add"@, kind, target, via],
                    None => seq!["add"@, kind, target, "-interface"@, device],
                }
            },
        }
    }

    pub fn add_args(&self, platform: Platform, gateway: Option<&str>, device: &str) -> (args: Vec<
        String,
    >)
        ensures
            texts(args@) == self.add_command(
                platform,
                match gateway {
                    Some(via) => Some(via@),
                    None => None,
                },
                device@,
            ),
    {
        let target = self.to_target();
        let mut args: Vec<String> = Vec::new();
        match platform {
            Platform::Linux => {
                push_text(&mut args, "route");
                push_text(&mut args, "add");
                push_text(&mut args, target.as_str());
                if let Some(via) = gateway {
                    push_text(&mut args, "via");
                    push_text(&mut args, via);
                }
                push_text(&mut args, "dev");
                push_text(&mut args, device);
            },
            Platform::MacOs => {
                push_text(&mut args, "add");
                match self {
                    RouteStep::Except(_) => {
                        push_text(&mut args, "-host");
                    },
                    _ => {
                        push_text(&mut args, "-net");
                    },
                }
                push_text(&mut args, target.as_str());
                match gateway {
                    Some(via) => {
                        push_text(&mut args, via);
                    },
                    None => {
                        push_text(&mut args, "-interface");
                        push_text(&mut args, device);
                    },
                }
            },
        }
        assert(texts(args@) =~= self.add_command(
            platform,
            match gateway {
                Some(via) => Some(via@),
                None => None,
            },
            device@,
        ));
        args
    }

    /// The route as installed, given the tunnel's name and the device through
    /// which it goes.
    pub open spec fn as_installed(self, tun_name: Seq<char>, device: Seq<char>) -> InstalledModel {
        match self {
            RouteStep::Exclude(prefix) => InstalledModel {
                kind: RouteKind::ExcludedPrefix,
                target: prefix.text(),
                device,
            },
            RouteStep::Except(ip) => InstalledModel {
                kind: RouteKind::EndpointException,
                target: ip.text(),
                device: tun_name,
            },
            RouteStep::Tunnel(prefix) => InstalledModel {
                kind: RouteKind::Tun,
                target: prefix.text(),
                device: tun_name,
            },
        }
    }
}

// ---------------------------------------------------------------------------
// Installing.
// ---------------------------------------------------------------------------

/// The next thing to do while routes are installed.
pub enum SetupAction {
    /// Ask the system for the physical route to this address.
    LookUp(String),
    /// Run the system's routing command with these arguments.
    Add(Vec<String>),
    /// Everything is installed.
    Finished,
}

/// Manages OS-level routes for the tunnel.
pub struct RouteManager {
    tun_name: String,
    installed: Vec<InstalledRoute>,
    steps: Vec<RouteStep>,
    device: String,
}

/// A route manager as plain values: what is installed, what is left to
/// install, and the device for the first of these.
pub struct RouteManagerModel {
    pub tun_name: Seq<char>,
    pub installed: Seq<InstalledModel>,
    pub steps: Seq<RouteStep>,
    pub device: Seq<char>,
}

impl View for RouteManager {
    type V = RouteManagerModel;

    closed spec fn view(&self) -> RouteManagerModel {
        RouteManagerModel {
            tun_name: self.tun_name@,
            installed: installed_models(self.installed@),
            steps: self.steps@,
            device: self.device@,
        }
    }
}

impl RouteManagerModel {
    /// What is to do first for the first step that is left.
    pub open spec fn next_action(self, platform: Platform, action: SetupAction) -> bool {
        if self.steps.len() == 0 {
            action is Finished
        } else {
            match self.steps[0].probe() {
                Some(probe) => action matches SetupAction::LookUp(text) && text@ == probe,
                None => action matches SetupAction::Add(args) && texts(args@)
                    == self.steps[0].add_command(platform, None, self.tun_name),
            }
        }
    }
}

impl RouteManager {
    pub fn new(tun_name: String) -> (manager: RouteManager)
        ensures
            manager@ == (RouteManagerModel {
                tun_name: tun_name@,
                installed: seq![],
                steps: seq![],
                device: tun_name@,
            }),
    {
        let device = tun_name.clone();
        let manager = RouteManager {
            tun_name,
            installed: Vec::new(),
            steps: Vec::new(),
            device,
        };
        assert(manager@.installed =~= seq![]);
        assert(manager@.steps =~= seq![]);
        manager
    }

    pub fn installed(&self) -> (routes: &[InstalledRoute])
        ensures
            installed_models(routes@) == self@.installed,
    {
        self.installed.as_slice()
    }

    /// Starts installing routes based on the router configuration.
    pub fn setup(&mut self, router: &Router, platform: Platform) -> (action: SetupAction)
        ensures
            final(self)@ == (RouteManagerModel {
                steps: setup_steps(*router),
                device: old(self)@.tun_name,
                ..old(self)@
            }),
            final(self)@.next_action(platform, action),
    {
        self.steps = plan_setup(router);
        self.device = self.tun_name.clone();
        self.next(platform)
    }

    fn next(&self, platform: Platform) -> (action: SetupAction)
        ensures
            self@.next_action(platform, action),
    {
        if self.steps.len() == 0 {
            return SetupAction::Finished;
        }
        let step = self.steps[0];
        match step.to_probe() {
            Some(probe) => SetupAction::LookUp(probe),
            None => SetupAction::Add(step.add_args(platform, None, self.tun_name.as_str())),
        }
    }

    /// The system has named the physical route for the first step that is
    /// left: that route is added.
    pub fn route_found(
        &mut self,
        platform: Platform,
        gateway: Option<&str>,
        device: String,
    ) -> (args: Vec<String>)
        requires
            old(self)@.steps.len() > 0,
        ensures
            final(self)@ == (RouteManagerModel { device: device@, ..old(self)@ }),
            texts(args@) == old(self)@.steps[0].add_command(
                platform,
                match gateway {
                    Some(via) => Some(via@),
                    None => None,
                },
                device@,
            ),
    {
        let args = self.steps[0].add_args(platform, gateway, device.as_str());
        self.device = device;
        args
    }

    /// The first step that is left has been added: it counts as installed, and
    /// the next one follows.
    pub fn route_added(&mut self, platform: Platform) -> (action: SetupAction)
        requires
            old(self)@.steps.len() > 0,
        ensures
            final(self)@ == (RouteManagerModel {
                installed: old(self)@.installed.push(
                    old(self)@.steps[0].as_installed(old(self)@.tun_name, old(self)@.device),
                ),
                steps: old(self)@.steps.skip(1),
                device: old(self)@.tun_name,
                ..old(self)@
            }),
            final(self)@.next_action(platform, action),
    {
        let ghost before = self@;
        let step = self.steps.remove(0);
        let target = step.to_target();
        let (kind, device) = match step {
            RouteStep::Exclude(_) => (RouteKind::ExcludedPrefix, self.device.clone()),
            RouteStep::Except(_) => (RouteKind::EndpointException, self.tun_name.clone()),
            RouteStep::Tunnel(_) => (RouteKind::Tun, self.tun_name.clone()),
        };
        self.installed.push(InstalledRoute { kind, spec: target, tun_name: device });
        self.device = self.tun_name.clone();
        proof {
            assert(self@.steps =~= before.steps.skip(1));
            assert(self@.installed =~= before.installed.push(
                before.steps[0].as_installed(before.tun_name, before.device),
            ));
        }
        self.next(platform)
    }

    /// A step has failed: everything that was installed is to be deleted, newest
    /// first, and nothing counts as installed any more.
    pub fn setup_failed(&mut self, platform: Platform) -> (deletions: Vec<RouteDeletion>)
        ensures
            final(self)@ == (RouteManagerModel {
                installed: seq![],
                steps: seq![],
                ..old(self)@
            }),
            deletion_models(deletions@) == deletions_of(
                platform,
                old(self)@.installed,
                old(self)@.installed.len() as int,
            ),
    {
        let deletions = cleanup_routes(platform, self.installed.as_slice());
        self.installed = Vec::new();
        self.steps = Vec::new();
        assert(self@.installed =~= seq![]);
        assert(self@.steps =~= seq![]);
        deletions
    }

    /// How to remove all routes that were previously installed.
    pub fn cleanup(&self, platform: Platform) -> (deletions: Vec<RouteDeletion>)
        ensures
            deletion_models(deletions@) == deletions_of(
                platform,
                self@.installed,
                self@.installed.len() as int,
            ),
    {
        cleanup_routes(platform, self.installed.as_slice())
    }
}

// ---------------------------------------------------------------------------
// Deleting.
// ---------------------------------------------------------------------------

/// A route to delete: the arguments of the routing command, and what must be
/// gone afterwards.
pub struct RouteDeletion {
    pub args: Vec<String>,
    pub target: String,
    pub device: Option<String>,
}

/// A route deletion as texts.
pub struct DeletionModel {
    pub args: Seq<Seq<char>>,
    pub target: Seq<char>,
    pub device: Option<Seq<char>>,
}

impl View for RouteDeletion {
    type V = DeletionModel;

    open spec fn view(&self) -> DeletionModel {
        DeletionModel {
            args: texts(self.args@),
            target: self.target@,
            device: match self.device {
                Some(device) => Some(device@),
                None => None,
            },
        }
    }
}

pub open spec fn deletion_models(deletions: Seq<RouteDeletion>) -> Seq<DeletionModel> {
    deletions.map_values(|deletion: RouteDeletion| deletion@)
}

/// How a tunnel route is deleted.
pub open spec fn tun_deletion(
    platform: Platform,
    prefix: Seq<char>,
    device: Seq<char>,
) -> DeletionModel {
    DeletionModel {
        args: match platform {
            Platform::Linux => seq!["route"@, "del"@, prefix, "dev"@, device],
            Platform::MacOs => seq!["delete"@, "-net"@, prefix, "-interface"@, device],
        },
        target: prefix,
        device: Some(device),
    }
}

/// How a route to a single host is deleted.
pub open spec fn host_deletion(platform: Platform, host: Seq<char>) -> DeletionModel {
    DeletionModel {
        args: match platform {
            Platform::Linux => seq!["route"@, "del"@, host],
            Platform::MacOs => seq!["delete"@, "-host"@, host],
        },
        target: host,
        device: None,
    }
}

/// How an exclusion is deleted.
pub open spec fn exclusion_deletion(
    platform: Platform,
    prefix: Seq<char>,
    device: Seq<char>,
) -> DeletionModel {
    DeletionModel {
        args: match platform {
            Platform::Linux => seq!["route"@, "del"@, prefix, "dev"@, device],
            Platform::MacOs => seq!["delete"@, "-net"@, prefix],
        },
        target: prefix,
        device: Some(device),
    }
}

impl InstalledModel {
    /// How the route is deleted.
    pub open spec fn deletion(self, platform: Platform) -> DeletionModel {
        match self.kind {
            RouteKind::Tun => tun_deletion(platform, self.target, self.device),
            RouteKind::EndpointException => host_deletion(platform, self.target),
            RouteKind::ExcludedPrefix => exclusion_deletion(platform, self.target, self.device),
        }
    }
}

/// How the first `n` routes are deleted: in the reverse of their order.
pub open spec fn deletions_of(platform: Platform, routes: Seq<InstalledModel>, n: int) -> Seq<
    DeletionModel,
>
    decreases n,
{
    if n <= 0 {
        seq![]
    } else {
        seq![routes[n - 1].deletion(platform)] + deletions_of(platform, routes, n - 1)
    }
}

pub fn del_tun_route(platform: Platform, prefix: &str, dev: &str) -> (deletion: RouteDeletion)
    ensures
        deletion@ == tun_deletion(platform, prefix@, dev@),
{
    let mut args: Vec<String> = Vec::new();
    match platform {
        Platform::Linux => {
            push_text(&mut args, "route");
            push_text(&mut args, "del");
            push_text(&mut args, prefix);
            push_text(&mut args, "dev");
            push_text(&mut args, dev);
        },
        Platform::MacOs => {
            push_text(&mut args, "delete");
            push_text(&mut args, "-net");
            push_text(&mut args, prefix);
            push_text(&mut args, "-interface");
            push_text(&mut args, dev);
        },
    }
    assert(texts(args@) =~= tun_deletion(platform, prefix@, dev@).args);
    RouteDeletion { args, target: prefix.to_owned(), device: Some(dev.to_owned()) }
}

pub fn del_host_route(platform: Platform, host: &str) -> (deletion: RouteDeletion)
    ensures
        deletion@ == host_deletion(platform, host@),
{
    let mut args: Vec<String> = Vec::new();
    match platform {
        Platform::Linux => {
            push_text(&mut args, "route");
            push_text(&mut args, "del");
            push_text(&mut args, host);
        },
        Platform::MacOs => {
            push_text(&mut args, "delete");
            push_text(&mut args, "-host");
            push_text(&mut args, host);
        },
    }
    assert(texts(args@) =~= host_deletion(platform, host@).args);
    RouteDeletion { args, target: host.to_owned(), device: None }
}

fn del_prefix_exception(platform: Platform, prefix: &str, dev: &str) -> (deletion: RouteDeletion)
    ensures
        deletion@ == exclusion_deletion(platform, prefix@, dev@),
{
    let mut args: Vec<String> = Vec::new();
    match platform {
        Platform::Linux => {
            push_text(&mut args, "route");
            push_text(&mut args, "del");
            push_text(&mut args, prefix);
            push_text(&mut args, "dev");
            push_text(&mut args, dev);
        },
        Platform::MacOs => {
            push_text(&mut args, "delete");
            push_text(&mut args, "-net");
            push_text(&mut args, prefix);
        },
    }
    assert(texts(args@) =~= exclusion_deletion(platform, prefix@, dev@).args);
    RouteDeletion { args, target: prefix.to_owned(), device: Some(dev.to_owned()) }
}

/// How a list of installed routes is deleted, newest first.
pub fn cleanup_routes(platform: Platform, routes: &[InstalledRoute]) -> (deletions: Vec<
    RouteDeletion,
>)
    ensures
        deletion_models(deletions@) == deletions_of(
            platform,
            installed_models(routes@),
            routes@.len() as int,
        ),
{
    let ghost models = installed_models(routes@);
    let ghost n = routes@.len() as int;
    let mut deletions: Vec<RouteDeletion> = Vec::new();
    let mut left: usize = routes.len();
    assert(deletion_models(deletions@) + deletions_of(platform, models, n) =~= deletions_of(
        platform,
        models,
        n,
    ));
    while left > 0
        invariant
            left <= routes.len(),
            models == installed_models(routes@),
            n == routes@.len(),
            deletion_models(deletions@) + deletions_of(platform, models, left as int)
                == deletions_of(platform, models, n),
        decreases left,
    {
        let route = &routes[left - 1];
        assert(models[left - 1] == route@);
        let deletion = match route.kind {
            RouteKind::Tun => del_tun_route(
                platform,
                route.spec.as_str(),
                route.tun_name.as_str(),
            ),
            RouteKind::EndpointException => del_host_route(platform, route.spec.as_str()),
            RouteKind::ExcludedPrefix => del_prefix_exception(
                platform,
                route.spec.as_str(),
                route.tun_name.as_str(),
            ),
        };
        let ghost before = deletions@;
        deletions.push(deletion);
        proof {
            assert(deletion_models(deletions@) =~= deletion_models(before).push(deletion@));
            assert(deletion_models(before) + deletions_of(platform, models, left as int)
                =~= deletion_models(deletions@) + deletions_of(platform, models, left - 1));
        }
        left = left - 1;
    }
    assert(deletion_models(deletions@) + deletions_of(platform, models, 0) =~= deletion_models(
        deletions@,
    ));
    deletions
}

/// How often a deletion is tried.
pub const DELETE_ATTEMPTS: usize = 3;
/// How long to wait between two tries, in milliseconds.
pub const DELETE_RETRY_DELAY_MS: u64 = 10;

/// What happened while a route was deleted.
#[derive(Clone, Copy, Debug, Eq, PartialEq, Structural)]
pub enum DeleteEvent {
    /// The command succeeded.
    Deleted,
    /// The command failed.
    CommandFailed,
    /// The listing shows that the route is, or is not, still there.
    StillThere(bool),
    /// The route could not be looked up.
    CheckFailed,
}

/// The next thing to do while a route is deleted.
#[derive(Clone, Copy, Debug, Eq, PartialEq, Structural)]
pub enum DeleteAction {
    /// Run the deletion command.
    Run,
    /// Look whether the route is still there.
    Check,
    /// Wait a little, and run the command again.
    WaitAndRun,
    /// The route is gone.
    Succeed,
    /// The route is still there, or that could not be found out.
    Fail { check_failed: bool },
}

/// Deleting a route.
///
/// A command that is spawned while the service manager enumerates the process
/// group may inherit the unit's termination signal. A short bounded retry runs
/// after that enumeration while still requiring the exact route to vanish.
#[derive(Clone, Copy, Debug, Eq, PartialEq, Structural)]
pub struct RouteDelete {
    pub attempts: usize,
}

impl RouteDelete {
    pub fn start() -> (started: (RouteDelete, DeleteAction))
        ensures
            started == (RouteDelete { attempts: 0 }, DeleteAction::Run),
    {
        (RouteDelete { attempts: 0 }, DeleteAction::Run)
    }

    /// What follows an event: success as soon as the command succeeds or the
    /// route is gone, and otherwise another try until there have been enough.
    pub open spec fn after(self, event: DeleteEvent) -> (RouteDelete, DeleteAction) {
        match event {
            DeleteEvent::Deleted => (self, DeleteAction::Succeed),
            DeleteEvent::CommandFailed => (self, DeleteAction::Check),
            DeleteEvent::StillThere(false) => (self, DeleteAction::Succeed),
            _ => {
                let counted = RouteDelete { attempts: (self.attempts + 1) as usize };
                if counted.attempts < DELETE_ATTEMPTS {
                    (counted, DeleteAction::WaitAndRun)
                } else {
                    (counted, DeleteAction::Fail { check_failed: event is CheckFailed })
                }
            },
        }
    }

    pub fn next(&mut self, event: DeleteEvent) -> (action: DeleteAction)
        requires
            old(self).attempts < DELETE_ATTEMPTS,
        ensures
            (*final(self), action) == old(self).after(event),
    {
        match event {
            DeleteEvent::Deleted => DeleteAction::Succeed,
            DeleteEvent::CommandFailed => DeleteAction::Check,
            DeleteEvent::StillThere(false) => DeleteAction::Succeed,
            DeleteEvent::StillThere(true) => {
                self.attempts = self.attempts + 1;
                if self.attempts < DELETE_ATTEMPTS {
                    DeleteAction::WaitAndRun
                } else {
                    DeleteAction::Fail { check_failed: false }
                }
            },
            DeleteEvent::CheckFailed => {
                self.attempts = self.attempts + 1;
                if self.attempts < DELETE_ATTEMPTS {
                    DeleteAction::WaitAndRun
                } else {
                    DeleteAction::Fail { check_failed: true }
                }
            },
        }
    }
}

// ---------------------------------------------------------------------------
// Reading the system's routes.
// ---------------------------------------------------------------------------

/// Whether a listed route names a device, from its word `i` on: the word after
/// the first `dev` decides.
pub open spec fn names_device(words: Seq<Seq<char>>, expected: Seq<char>, i: int) -> bool
    decreases words.len() - i,
{
    if i >= words.len() {
        false
    } else if words[i] == "dev"@ {
        i + 1 < words.len() && words[i + 1] == expected
    } else {
        names_device(words, expected, i + 1)
    }
}

/// Whether a listed line is the route in question.
pub open spec fn line_matches(line: Seq<char>, device: Option<Seq<char>>) -> bool {
    match device {
        None => !crate::text::blank(line),
        Some(expected) => names_device(
            crate::text::words_of(line, CharClass::WhiteSpace),
            expected,
            0,
        ),
    }
}

/// Whether a listing of routes holds one through a device, or any at all.
pub fn route_listing_contains(listing: &str, dev: Option<&str>) -> (found: bool)
    ensures
        found == exists|i: int|
            #![trigger crate::text::lines_of(listing@)[i]]
            0 <= i < crate::text::lines_of(listing@).len() && line_matches(
                crate::text::lines_of(listing@)[i],
                match dev {
                    Some(d) => Some(d@),
                    None => None,
                },
            ),
{
    let chars = to_chars(listing);
    let list = lines(&chars);
    let ghost all = crate::text::lines_of(listing@);
    let ghost device = match dev {
        Some(d) => Some(d@),
        None => None,
    };
    let mut i: usize = 0;
    assert(all.len() == list@.len());
    while i < list.len()
        invariant
            i <= list.len(),
            all == crate::text::word_texts(list@),
            all.len() == list@.len(),
            device == (match dev {
                Some(d) => Some(d@),
                None => None,
            }),
            all == crate::text::lines_of(listing@),
            forall|j: int|
                #![trigger all[j]]
                0 <= j < i ==> !line_matches(all[j], device),
        decreases list.len() - i,
    {
        assert(all[i as int] == list@[i as int]@);
        let matched = match dev {
            None => !crate::text::is_blank(from_chars(list[i].as_slice()).as_str()),
            Some(expected) => route_line_uses_dev(&list[i], expected),
        };
        if matched {
            return true;
        }
        i = i + 1;
    }
    false
}

fn route_line_uses_dev(line: &Vec<char>, expected: &str) -> (uses: bool)
    ensures
        uses == names_device(
            crate::text::words_of(line@, CharClass::WhiteSpace),
            expected@,
            0,
        ),
{
    let tokens = words(line, CharClass::WhiteSpace);
    let ghost all = crate::text::words_of(line@, CharClass::WhiteSpace);
    assert(all.len() == tokens@.len());
    let mut i: usize = 0;
    while i < tokens.len()
        invariant
            i <= tokens.len(),
            all == crate::text::word_texts(tokens@),
            all.len() == tokens@.len(),
            names_device(all, expected@, 0) == names_device(all, expected@, i as int),
            all == crate::text::words_of(line@, CharClass::WhiteSpace),
        decreases tokens.len() - i,
    {
        assert(all[i as int] == tokens@[i as int]@);
        if is_text(&tokens[i], "dev") {
            if i + 1 < tokens.len() {
                assert(all[i + 1] == tokens@[i + 1]@);
                return is_text(&tokens[i + 1], expected);
            }
            return false;
        }
        i = i + 1;
    }
    false
}

/// Why the system's answer names no route.
#[derive(Clone, Copy, Debug, Eq, PartialEq, Structural)]
pub enum RouteInfoError {
    /// There is no answer.
    Empty,
    /// The answer names no device.
    NoDevice,
}

/// The word after the last of the first `n` words that is `key`, if a word
/// follows it.
pub open spec fn last_after(words: Seq<Seq<char>>, key: Seq<char>, n: int) -> Option<Seq<char>>
    decreases n,
{
    if n <= 0 {
        None
    } else if words[n - 1] == key && n < words.len() {
        Some(words[n])
    } else {
        last_after(words, key, n - 1)
    }
}

/// Whether an answer is reported as this gateway and device, or this error.
pub open spec fn reports_route(
    info: Result<(Option<String>, String), RouteInfoError>,
    gateway: Option<Seq<char>>,
    device: Option<Seq<char>>,
) -> bool {
    match device {
        None => info == Err::<(Option<String>, String), _>(RouteInfoError::NoDevice),
        Some(dev) => info matches Ok((via, d)) && d@ == dev && match via {
            Some(v) => gateway == Some(v@),
            None => gateway is None,
        },
    }
}

/// The gateway and device that `ip route get` names in its first line.
pub fn parse_ip_route_get(text: &str) -> (info: Result<(Option<String>, String), RouteInfoError>)
    ensures
        ({
            let all = crate::text::lines_of(text@);
            if all.len() == 0 {
                info == Err::<(Option<String>, String), _>(RouteInfoError::Empty)
            } else {
                let words = crate::text::words_of(all[0], CharClass::WhiteSpace);
                reports_route(
                    info,
                    last_after(words, "via"@, words.len() as int),
                    last_after(words, "dev"@, words.len() as int),
                )
            }
        }),
{
    let chars = to_chars(text);
    let list = lines(&chars);
    let ghost all = crate::text::lines_of(text@);
    assert(all.len() == list@.len());
    if list.len() == 0 {
        return Err(RouteInfoError::Empty);
    }
    assert(all[0] == list@[0]@);
    let parts = words(&list[0], CharClass::WhiteSpace);
    let ghost expected = crate::text::words_of(all[0], CharClass::WhiteSpace);
    assert(expected.len() == parts@.len());
    let mut gateway: Option<String> = None;
    let mut dev: Option<String> = None;
    let mut i: usize = 0;
    while i < parts.len()
        invariant
            i <= parts.len(),
            expected == crate::text::word_texts(parts@),
            expected.len() == parts@.len(),
            match gateway {
                Some(v) => last_after(expected, "via"@, i as int) == Some(v@),
                None => last_after(expected, "via"@, i as int) is None,
            },
            match dev {
                Some(d) => last_after(expected, "dev"@, i as int) == Some(d@),
                None => last_after(expected, "dev"@, i as int) is None,
            },
        decreases parts.len() - i,
    {
        assert(expected[i as int] == parts@[i as int]@);
        if i + 1 < parts.len() {
            assert(expected[i + 1] == parts@[i + 1]@);
            if is_text(&parts[i], "via") {
                gateway = Some(from_chars(parts[i + 1].as_slice()));
            }
            if is_text(&parts[i], "dev") {
                dev = Some(from_chars(parts[i + 1].as_slice()));
            }
        }
        i = i + 1;
    }
    match dev {
        Some(dev) => Ok((gateway, dev)),
        None => Err(RouteInfoError::NoDevice),
    }
}

/// The second word of the last of the first `n` lines that begins, but for
/// white space, with a label; none if that line has no second word.
pub open spec fn labelled_word(lines: Seq<Seq<char>>, label: Seq<char>, n: int) -> Option<Seq<char>>
    decreases n,
{
    if n <= 0 {
        None
    } else {
        let line = crate::text::trimmed(lines[n - 1], CharClass::WhiteSpace);
        if crate::text::begins_with(line, label) {
            let words = crate::text::words_of(line, CharClass::WhiteSpace);
            if words.len() > 1 {
                Some(words[1])
            } else {
                None
            }
        } else {
            labelled_word(lines, label, n - 1)
        }
    }
}

fn second_word(line: &Vec<char>) -> (word: Option<String>)
    ensures
        ({
            let words = crate::text::words_of(line@, CharClass::WhiteSpace);
            match word {
                Some(w) => words.len() > 1 && words[1] == w@,
                None => words.len() <= 1,
            }
        }),
{
    let list = words(line, CharClass::WhiteSpace);
    let ghost all = crate::text::words_of(line@, CharClass::WhiteSpace);
    assert(all.len() == list@.len());
    if list.len() > 1 {
        assert(all[1] == list@[1]@);
        Some(from_chars(list[1].as_slice()))
    } else {
        None
    }
}

/// The gateway and interface that `route -n get` names.
pub fn parse_route_get(text: &str) -> (info: Result<(Option<String>, String), RouteInfoError>)
    ensures
        ({
            let all = crate::text::lines_of(text@);
            reports_route(
                info,
                labelled_word(all, "gateway:"@, all.len() as int),
                labelled_word(all, "interface:"@, all.len() as int),
            )
        }),
{
    let chars = to_chars(text);
    let list = lines(&chars);
    let ghost all = crate::text::lines_of(text@);
    assert(all.len() == list@.len());
    let mut gateway: Option<String> = None;
    let mut interface: Option<String> = None;
    let mut i: usize = 0;
    while i < list.len()
        invariant
            i <= list.len(),
            all == crate::text::word_texts(list@),
            all.len() == list@.len(),
            match gateway {
                Some(v) => labelled_word(all, "gateway:"@, i as int) == Some(v@),
                None => labelled_word(all, "gateway:"@, i as int) is None,
            },
            match interface {
                Some(d) => labelled_word(all, "interface:"@, i as int) == Some(d@),
                None => labelled_word(all, "interface:"@, i as int) is None,
            },
        decreases list.len() - i,
    {
        assert(all[i as int] == list@[i as int]@);
        let line = trim(&list[i], CharClass::WhiteSpace);
        if has_prefix(&line, "gateway:") {
            gateway = second_word(&line);
        }
        if has_prefix(&line, "interface:") {
            interface = second_word(&line);
        }
        i = i + 1;
    }
    match interface {
        Some(interface) => Ok((gateway, interface)),
        None => Err(RouteInfoError::NoDevice),
    }
}

// ---------------------------------------------------------------------------
// Laws.
// ---------------------------------------------------------------------------

/// Everything that stays outside the tunnel is installed before the first
/// tunnel route.
pub proof fn exceptions_come_before_tunnel_routes(router: Router, i: int, j: int)
    requires
        0 <= i < j < setup_steps(router).len(),
        setup_steps(router)[i] is Tunnel,
    ensures
        setup_steps(router)[j] is Tunnel,
{
    let routes = router.route_list();
    let n = router.exclusion_list().len() as int;
    let excluded = exclusion_steps(router.exclusion_list(), n);
    let exceptions = exception_steps(routes, router.exceptions(routes.len() as int));
    let tunnels = tunnel_steps(routes, routes.len() as int);
    lemma_exclusion_steps(router.exclusion_list(), n);
    lemma_tunnel_steps(routes, routes.len() as int);
    assert(setup_steps(router) == excluded + exceptions + tunnels);
    if i < excluded.len() {
        assert(setup_steps(router)[i] == excluded[i]);
    } else if i < excluded.len() + exceptions.len() {
        assert(setup_steps(router)[i] == exceptions[i - excluded.len()]);
    } else {
        assert(setup_steps(router)[j] == tunnels[j - excluded.len() - exceptions.len()]);
    }
}

proof fn lemma_exclusion_steps(routes: Seq<ExcludedRoute>, n: int)
    ensures
        forall|i: int|
            0 <= i < exclusion_steps(routes, n).len() ==> #[trigger] exclusion_steps(
                routes,
                n,
            )[i] is Exclude,
    decreases n,
{
    if n > 0 {
        lemma_exclusion_steps(routes, n - 1);
        let before = exclusion_steps(routes, n - 1);
        assert forall|i: int| 0 <= i < exclusion_steps(routes, n).len() implies
            #[trigger] exclusion_steps(routes, n)[i] is Exclude by {
            if i < before.len() {
                assert(exclusion_steps(routes, n)[i] == before[i]);
            }
        }
    }
}

proof fn lemma_tunnel_steps(routes: Seq<Route>, n: int)
    ensures
        forall|i: int|
            0 <= i < tunnel_steps(routes, n).len() ==> #[trigger] tunnel_steps(
                routes,
                n,
            )[i] is Tunnel,
    decreases n,
{
    if n > 0 {
        lemma_tunnel_steps(routes, n - 1);
        let before = tunnel_steps(routes, n - 1);
        assert forall|i: int| 0 <= i < tunnel_steps(routes, n).len() implies
            #[trigger] tunnel_steps(routes, n)[i] is Tunnel by {
            if i < before.len() {
                assert(tunnel_steps(routes, n)[i] == before[i]);
            }
        }
    }
}

/// Cleaning up deletes every installed route exactly once, the newest first.
pub proof fn cleanup_reverses_installation(
    platform: Platform,
    routes: Seq<InstalledModel>,
    n: int,
    i: int,
)
    requires
        0 <= i < n <= routes.len(),
    ensures
        deletions_of(platform, routes, n).len() == n,
        deletions_of(platform, routes, n)[i] == routes[n - 1 - i].deletion(platform),
    decreases n,
{
    assert(deletions_of(platform, routes, 0).len() == 0);
    if n > 1 {
        cleanup_reverses_installation(platform, routes, n - 1, if i > 0 { i - 1 } else { 0 });
    }
}

/// The two halves of a split default route cover every address between them.
pub proof fn split_default_covers_everything(prefix: Ipv4Net, address: Ipv4Addr)
    requires
        prefix.prefix_len == 0,
    ensures
        exists|i: int|
            #![trigger tunnel_steps_of(prefix)[i]]
            0 <= i < 2 && (tunnel_steps_of(prefix)[i] matches RouteStep::Tunnel(half)
                && half.covers(address)),
{
    let steps = tunnel_steps_of(prefix);
    vstd::arithmetic::power2::lemma2_to64();
    assert(crate::net::host_bits(1) == 31);
    assert(vstd::arithmetic::power2::pow2(31) == 0x8000_0000);
    if address.bits < 0x8000_0000 {
        assert(address.bits as int / 0x8000_0000 == 0);
        assert(0int / 0x8000_0000 == 0);
        assert(steps[0] is Tunnel);
    } else {
        assert(address.bits as int / 0x8000_0000 == 1);
        assert(0x8000_0000int / 0x8000_0000 == 1);
        assert(steps[1] is Tunnel);
    }
}

proof fn lemma_exclusions_planned(routes: Seq<ExcludedRoute>, n: int)
    requires
        0 <= n <= routes.len(),
    ensures
        forall|i: int|
            #![trigger routes[i]]
            0 <= i < n ==> exclusion_steps(routes, n).contains(RouteStep::Exclude(routes[i].prefix)),
        forall|k: int|
            #![trigger exclusion_steps(routes, n)[k]]
            0 <= k < exclusion_steps(routes, n).len() ==> exists|i: int|
                #![trigger routes[i]]
                0 <= i < n && exclusion_steps(routes, n)[k] == RouteStep::Exclude(routes[i].prefix),
        exclusion_steps(routes, n).no_duplicates(),
    decreases n,
{
    if n > 0 {
        lemma_exclusions_planned(routes, n - 1);
        let before = exclusion_steps(routes, n - 1);
        let after = exclusion_steps(routes, n);
        let step = RouteStep::Exclude(routes[n - 1].prefix);
        assert forall|i: int|
            #![trigger routes[i]]
            0 <= i < n implies after.contains(RouteStep::Exclude(routes[i].prefix)) by {
            if i < n - 1 || before.contains(step) {
                let at = before.index_of(RouteStep::Exclude(routes[i].prefix));
                assert(after[at] == before[at]);
            } else {
                assert(after[after.len() - 1] == step);
            }
        }
        assert forall|k: int|
            #![trigger exclusion_steps(routes, n)[k]]
            0 <= k < after.len() implies exists|i: int|
            #![trigger routes[i]]
            0 <= i < n && after[k] == RouteStep::Exclude(routes[i].prefix) by {
            if k < before.len() {
                assert(after[k] == before[k]);
                let i = choose|i: int|
                    #![trigger routes[i]]
                    0 <= i < n - 1 && before[k] == RouteStep::Exclude(routes[i].prefix);
                assert(0 <= i < n && after[k] == RouteStep::Exclude(routes[i].prefix));
            } else {
                assert(after[k] == RouteStep::Exclude(routes[n - 1].prefix));
            }
        }
    }
}

proof fn lemma_tunnels_planned(routes: Seq<Route>, n: int, i: int, k: int)
    requires
        0 <= i < n <= routes.len(),
        0 <= k < tunnel_steps_of(routes[i].prefix).len(),
    ensures
        tunnel_steps(routes, n).contains(tunnel_steps_of(routes[i].prefix)[k]),
    decreases n,
{
    let before = tunnel_steps(routes, n - 1);
    let last = tunnel_steps_of(routes[n - 1].prefix);
    if i < n - 1 {
        lemma_tunnels_planned(routes, n - 1, i, k);
        let at = before.index_of(tunnel_steps_of(routes[i].prefix)[k]);
        assert(tunnel_steps(routes, n)[at] == before[at]);
    } else {
        assert(tunnel_steps(routes, n)[before.len() + k] == last[k]);
    }
}

proof fn lemma_tunnel_origin(routes: Seq<Route>, n: int, at: int)
    requires
        0 <= n <= routes.len(),
        0 <= at < tunnel_steps(routes, n).len(),
    ensures
        exists|i: int|
            #![trigger routes[i]]
            0 <= i < n && tunnel_steps_of(routes[i].prefix).contains(tunnel_steps(routes, n)[at]),
    decreases n,
{
    let before = tunnel_steps(routes, n - 1);
    let last = tunnel_steps_of(routes[n - 1].prefix);
    if at < before.len() {
        lemma_tunnel_origin(routes, n - 1, at);
        assert(tunnel_steps(routes, n)[at] == before[at]);
        let i = choose|i: int|
            #![trigger routes[i]]
            0 <= i < n - 1 && tunnel_steps_of(routes[i].prefix).contains(before[at]);
        assert(0 <= i < n && tunnel_steps_of(routes[i].prefix).contains(
            tunnel_steps(routes, n)[at],
        ));
    } else {
        assert(tunnel_steps(routes, n)[at] == last[at - before.len()]);
        assert(tunnel_steps_of(routes[n - 1].prefix).contains(tunnel_steps(routes, n)[at]));
    }
}

/// Where a step of the plan stands: among the exclusions, the exceptions or the
/// tunnel routes.
proof fn lemma_plan_parts(router: Router, step: RouteStep)
    ensures
        ({
            let routes = router.route_list();
            let n = routes.len() as int;
            let x = router.exclusion_list().len() as int;
            setup_steps(router).contains(step) <==> exclusion_steps(
                router.exclusion_list(),
                x,
            ).contains(step) || exception_steps(routes, router.exceptions(n)).contains(step)
                || tunnel_steps(routes, n).contains(step)
        }),
{
    let routes = router.route_list();
    let n = routes.len() as int;
    let first = exclusion_steps(router.exclusion_list(), router.exclusion_list().len() as int);
    let second = exception_steps(routes, router.exceptions(n));
    let third = tunnel_steps(routes, n);
    let plan = setup_steps(router);
    assert(plan == first + second + third);
    if first.contains(step) {
        let at = first.index_of(step);
        assert(plan[at] == step);
    }
    if second.contains(step) {
        let at = second.index_of(step);
        assert(plan[first.len() + at] == step);
    }
    if third.contains(step) {
        let at = third.index_of(step);
        assert(plan[first.len() + second.len() + at] == step);
    }
    if plan.contains(step) {
        let at = plan.index_of(step);
        if at < first.len() {
            assert(first[at] == step);
        } else if at < first.len() + second.len() {
            assert(second[at - first.len()] == step);
        } else {
            assert(third[at - first.len() - second.len()] == step);
        }
    }
}

/// Every address that some route's prefix covers is brought into the tunnel: the
/// plan has a tunnel route that covers it. One of these is the prefix itself,
/// unless that is the default one, which is never installed as such.
pub proof fn every_routed_address_enters_the_tunnel(router: Router, i: int, address: Ipv4Addr)
    requires
        0 <= i < router.route_list().len(),
        router.route_list()[i].prefix.covers(address),
    ensures
        exists|step: RouteStep| #[trigger]
            setup_steps(router).contains(step) && (step matches RouteStep::Tunnel(prefix)
                && prefix.covers(address)),
        router.route_list()[i].prefix.prefix_len > 0 ==> setup_steps(router).contains(
            RouteStep::Tunnel(router.route_list()[i].prefix),
        ),
{
    let routes = router.route_list();
    let prefix = routes[i].prefix;
    let n = routes.len() as int;
    if prefix.prefix_len == 0 {
        split_default_covers_everything(prefix, address);
        let k = choose|k: int|
            #![trigger tunnel_steps_of(prefix)[k]]
            0 <= k < 2 && (tunnel_steps_of(prefix)[k] matches RouteStep::Tunnel(half)
                && half.covers(address));
        lemma_tunnels_planned(routes, n, i, k);
        lemma_plan_parts(router, tunnel_steps_of(prefix)[k]);
    } else {
        lemma_tunnels_planned(routes, n, i, 0);
        lemma_plan_parts(router, tunnel_steps_of(prefix)[0]);
        assert(tunnel_steps_of(prefix)[0] == RouteStep::Tunnel(prefix));
    }
}

/// Nothing enters the tunnel but what a route's prefix covers, and no tunnel
/// route replaces the system's default one.
pub proof fn only_routed_addresses_enter_the_tunnel(
    router: Router,
    prefix: Ipv4Net,
    address: Ipv4Addr,
)
    requires
        setup_steps(router).contains(RouteStep::Tunnel(prefix)),
        prefix.covers(address),
    ensures
        prefix.prefix_len > 0,
        exists|i: int|
            #![trigger router.route_list()[i]]
            0 <= i < router.route_list().len() && router.route_list()[i].prefix.covers(address),
{
    let routes = router.route_list();
    let n = routes.len() as int;
    let step = RouteStep::Tunnel(prefix);
    lemma_plan_parts(router, step);
    lemma_exclusion_steps(router.exclusion_list(), router.exclusion_list().len() as int);
    let third = tunnel_steps(routes, n);
    assert(third.contains(step)) by {
        let first = exclusion_steps(router.exclusion_list(), router.exclusion_list().len() as int);
        let second = exception_steps(routes, router.exceptions(n));
        if first.contains(step) {
            assert(first[first.index_of(step)] is Exclude);
        }
        if second.contains(step) {
            assert(second[second.index_of(step)] is Except);
        }
    }
    lemma_tunnel_origin(routes, n, third.index_of(step));
    let i = choose|i: int|
        #![trigger routes[i]]
        0 <= i < n && tunnel_steps_of(routes[i].prefix).contains(step);
    let own = routes[i].prefix;
    let k = tunnel_steps_of(own).index_of(step);
    assert(tunnel_steps_of(own)[k] == step);
    if own.prefix_len == 0 {
        crate::net::default_prefix_covers_everything(own.addr, address);
    }
    assert(router.route_list()[i].prefix.covers(address));
}

/// Every configured exclusion stays on the physical network, each by one route.
pub proof fn every_exclusion_stays_outside(router: Router, i: int)
    requires
        0 <= i < router.exclusion_list().len(),
    ensures
        setup_steps(router).contains(RouteStep::Exclude(router.exclusion_list()[i].prefix)),
        forall|a: int, b: int|
            #![trigger setup_steps(router)[a], setup_steps(router)[b]]
            0 <= a < b < setup_steps(router).len() && setup_steps(router)[a] is Exclude
                ==> setup_steps(router)[a] != setup_steps(router)[b],
{
    let routes = router.route_list();
    let n = routes.len() as int;
    let x = router.exclusion_list().len() as int;
    let first = exclusion_steps(router.exclusion_list(), x);
    let second = exception_steps(routes, router.exceptions(n));
    let third = tunnel_steps(routes, n);
    let plan = setup_steps(router);
    lemma_exclusions_planned(router.exclusion_list(), x);
    lemma_tunnel_steps(routes, n);
    lemma_plan_parts(router, RouteStep::Exclude(router.exclusion_list()[i].prefix));
    assert(plan == first + second + third);
    assert forall|a: int, b: int|
        #![trigger plan[a], plan[b]]
        0 <= a < b < plan.len() && plan[a] is Exclude implies plan[a] != plan[b] by {
        if b < first.len() {
            assert(plan[a] == first[a] && plan[b] == first[b]);
        } else if b < first.len() + second.len() {
            assert(plan[b] == second[b - first.len()]);
            assert(plan[b] is Except);
        } else {
            assert(plan[b] == third[b - first.len() - second.len()]);
            assert(plan[b] is Tunnel);
        }
    }
}

/// A peer's endpoint that the tunnel would capture stays on the physical
/// network, so that the encrypted flow never enters the tunnel itself.
pub proof fn every_captured_endpoint_stays_outside(
    router: Router,
    i: int,
    ip: Ipv4Addr,
    port: u16,
)
    requires
        0 <= i < router.route_list().len(),
        router.route_list()[i].peer.endpoint == (crate::net::SocketAddr::V4 { ip, port }),
        ip.bits != 0,
        port != 0,
        exists|r: int|
            #![trigger router.route_list()[r]]
            0 <= r < router.route_list().len() && router.route_list()[r].takes(ip),
    ensures
        setup_steps(router).contains(RouteStep::Except(IpAddr::V4(ip))),
{
    let routes = router.route_list();
    let n = routes.len() as int;
    crate::router::every_captured_endpoint_is_excepted(router, i, ip, port);
    let listed = router.exceptions(n);
    let k = choose|k: int|
        #![trigger listed[k]]
        0 <= k < listed.len() && routes[listed[k]].peer.endpoint.ip_of() == IpAddr::V4(ip);
    let second = exception_steps(routes, listed);
    assert(second[k] == RouteStep::Except(IpAddr::V4(ip)));
    lemma_plan_parts(router, RouteStep::Except(IpAddr::V4(ip)));
}

/// The route that a deletion command takes back is the one that was added: it
/// names the same destination, and what was added through a device of the
/// tunnel is deleted from that device.
pub proof fn deletion_names_what_was_added(
    step: RouteStep,
    platform: Platform,
    gateway: Option<Seq<char>>,
    tun_name: Seq<char>,
    device: Seq<char>,
)
    ensures
        ({
            let added = step.add_command(platform, gateway, device);
            let deletion = step.as_installed(tun_name, device).deletion(platform);
            &&& platform == Platform::Linux ==> added.len() >= 5 && added[0] == "route"@ && added[1]
                == "add"@ && deletion.args.len() >= 3 && deletion.args[0] == "route"@
                && deletion.args[1] == "del"@ && deletion.args[2] == added[2]
            &&& platform == Platform::MacOs ==> added.len() >= 4 && added[0] == "add"@
                && deletion.args.len() >= 3 && deletion.args[0] == "delete"@ && deletion.args[1]
                == added[1] && deletion.args[2] == added[2]
            &&& deletion.target == added[2]
            &&& !(step is Except) ==> deletion.device == Some(
                if step is Tunnel {
                    tun_name
                } else {
                    device
                },
            )
            &&& platform == Platform::Linux && !(step is Except) ==> deletion.args.len() == 5
                && deletion.args[3] == "dev"@ && deletion.args[4] == deletion.device->0
        }),
{
}

/// A deletion succeeds exactly where the command does or the route is gone. It
/// is given up only after the last of three tries, and until then tried again.
pub proof fn deletions_are_retried_until_gone(state: RouteDelete, event: DeleteEvent)
    requires
        state.attempts < 3,
    ensures
        state.after(event).1 is Succeed <==> event is Deleted || event == DeleteEvent::StillThere(
            false,
        ),
        event is CommandFailed ==> state.after(event) == (state, DeleteAction::Check),
        event is CheckFailed || event == DeleteEvent::StillThere(true) ==> state.after(
            event,
        ).0.attempts == state.attempts + 1 && (state.after(event).1 is WaitAndRun
            <==> state.attempts + 1 < 3) && (state.after(event).1 is Fail <==> state.attempts + 1
            >= 3),
{
}

/// A listed route goes through a device exactly if the first word `dev` is
/// followed by the device's name.
pub proof fn device_follows_the_first_dev(words: Seq<Seq<char>>, expected: Seq<char>, i: int)
    requires
        0 <= i < words.len(),
        words[i] == "dev"@,
        forall|j: int| #![trigger words[j]] 0 <= j < i ==> words[j] != "dev"@,
    ensures
        names_device(words, expected, 0) <==> i + 1 < words.len() && words[i + 1] == expected,
{
    lemma_names_device(words, expected, 0, i);
}

proof fn lemma_names_device(words: Seq<Seq<char>>, expected: Seq<char>, from: int, i: int)
    requires
        0 <= from <= i < words.len(),
        words[i] == "dev"@,
        forall|j: int| #![trigger words[j]] from <= j < i ==> words[j] != "dev"@,
    ensures
        names_device(words, expected, from) == names_device(words, expected, i),
    decreases i - from,
{
    if from < i {
        assert(words[from] != "dev"@);
        lemma_names_device(words, expected, from + 1, i);
    }
}

/// What the system's answer names after a key is the word after the last
/// occurrence of the key that has a word after it.
pub proof fn the_last_named_value_counts(words: Seq<Seq<char>>, key: Seq<char>, i: int)
    requires
        0 <= i,
        i + 1 < words.len(),
        words[i] == key,
        forall|j: int| #![trigger words[j]] i < j && j + 1 < words.len() ==> words[j] != key,
    ensures
        last_after(words, key, words.len() as int) == Some(words[i + 1]),
{
    lemma_last_after(words, key, words.len() as int, i);
}

proof fn lemma_last_after(words: Seq<Seq<char>>, key: Seq<char>, n: int, i: int)
    requires
        0 <= i < n <= words.len(),
        i + 1 < words.len(),
        words[i] == key,
        forall|j: int| #![trigger words[j]] i < j && j + 1 < words.len() ==> words[j] != key,
    ensures
        last_after(words, key, n) == Some(words[i + 1]),
    decreases n,
{
    if n - 1 > i {
        if n < words.len() {
            assert(words[n - 1] != key);
        }
        lemma_last_after(words, key, n - 1, i);
    }
}

/// The address whose physical route is asked for lies in what is to stay outside.
pub proof fn probes_ask_for_what_stays_outside(step: RouteStep)
    requires
        step matches RouteStep::Exclude(prefix) ==> prefix.prefix_len <= 32,
    ensures
        step matches RouteStep::Except(ip) ==> step.probe() == Some(ip.text()),
        step matches RouteStep::Exclude(prefix) ==> exists|address: Ipv4Addr| #[trigger]
            prefix.covers(address) && step.probe() == Some(address.text()),
        step is Tunnel ==> step.probe() is None,
{
    if let RouteStep::Exclude(prefix) = step {
        let network = prefix.network_bits();
        let host = Ipv4Addr {
            bits: if prefix.prefix_len == 32 || network == u32::MAX {
                network as u32
            } else {
                (network + 1) as u32
            },
        };
        crate::net::prefix_covers_one_block(prefix, host);
        vstd::arithmetic::power2::lemma_pow2_pos((32 - prefix.prefix_len) as nat);
        vstd::arithmetic::power2::lemma2_to64();
        if prefix.prefix_len < 32 {
            vstd::arithmetic::power2::lemma_pow2_strictly_increases(
                0,
                (32 - prefix.prefix_len) as nat,
            );
        }
        assert(0 <= network) by {
            vstd::arithmetic::div_mod::lemma_div_pos_is_pos(
                prefix.addr.bits as int,
                vstd::arithmetic::power2::pow2(crate::net::host_bits(prefix.prefix_len)) as int,
            );
            vstd::arithmetic::power2::lemma_pow2_pos(crate::net::host_bits(prefix.prefix_len));
            assert(network >= 0) by (nonlinear_arith)
                requires
                    network == crate::net::block_index(prefix.addr.bits, prefix.prefix_len)
                        * vstd::arithmetic::power2::pow2(
                        crate::net::host_bits(prefix.prefix_len),
                    ),
                    crate::net::block_index(prefix.addr.bits, prefix.prefix_len) >= 0,
                    vstd::arithmetic::power2::pow2(crate::net::host_bits(prefix.prefix_len)) > 0,
            ;
        }
        assert(prefix.covers(host));
    }
}

/// What macOS names is the second word of the last line with the label.
pub proof fn the_last_labelled_line_counts(lines: Seq<Seq<char>>, label: Seq<char>, i: int)
    requires
        0 <= i < lines.len(),
        crate::text::begins_with(
            crate::text::trimmed(lines[i], CharClass::WhiteSpace),
            label,
        ),
        forall|j: int|
            #![trigger lines[j]]
            i < j < lines.len() ==> !crate::text::begins_with(
                crate::text::trimmed(lines[j], CharClass::WhiteSpace),
                label,
            ),
    ensures
        ({
            let words = crate::text::words_of(
                crate::text::trimmed(lines[i], CharClass::WhiteSpace),
                CharClass::WhiteSpace,
            );
            labelled_word(lines, label, lines.len() as int) == if words.len() > 1 {
                Some(words[1])
            } else {
                None
            }
        }),
{
    lemma_labelled_word(lines, label, lines.len() as int, i);
}

proof fn lemma_labelled_word(lines: Seq<Seq<char>>, label: Seq<char>, n: int, i: int)
    requires
        0 <= i < n <= lines.len(),
        forall|j: int|
            #![trigger lines[j]]
            i < j < lines.len() ==> !crate::text::begins_with(
                crate::text::trimmed(lines[j], CharClass::WhiteSpace),
                label,
            ),
    ensures
        labelled_word(lines, label, n) == labelled_word(lines, label, i + 1),
    decreases n,
{
    if n - 1 > i {
        let line = lines[n - 1];
        lemma_labelled_word(lines, label, n - 1, i);
    }
}

/// Installing goes on until no step of the plan is left: what stays outside is
/// looked up first, and what enters the tunnel is added at once.
pub proof fn installation_goes_on_until_the_plan_is_done(
    manager: RouteManagerModel,
    platform: Platform,
    action: SetupAction,
)
    requires
        manager.next_action(platform, action),
    ensures
        action is Finished <==> manager.steps.len() == 0,
        manager.steps.len() > 0 && manager.steps[0] is Tunnel ==> (action matches SetupAction::Add(
            args,
        ) && texts(args@) == manager.steps[0].add_command(platform, None, manager.tun_name)),
        manager.steps.len() > 0 && !(manager.steps[0] is Tunnel) ==> (
        action matches SetupAction::LookUp(probe) && manager.steps[0].probe() == Some(probe@)),
{
}

/// The command that installs a route names its destination, and the device or
/// the gateway through which it goes.
pub proof fn added_routes_go_where_they_should(
    step: RouteStep,
    gateway: Option<Seq<char>>,
    device: Seq<char>,
)
    ensures
        ({
            let linux = step.add_command(Platform::Linux, gateway, device);
            let macos = step.add_command(Platform::MacOs, gateway, device);
            let target = match step {
                RouteStep::Exclude(prefix) => prefix.text(),
                RouteStep::Except(ip) => ip.text(),
                RouteStep::Tunnel(prefix) => prefix.text(),
            };
            &&& linux.len() >= 5 && linux[2] == target
            &&& macos.len() >= 4 && macos[2] == target
            &&& gateway matches Some(via) ==> linux == seq![
                "route"@,
                "add"@,
                target,
                "via"@,
                via,
                "dev"@,
                device,
            ] && macos[3] == via
            &&& gateway is None ==> linux == seq!["route"@, "add"@, target, "dev"@, device]
                && macos.len() == 5 && macos[3] == "-interface"@ && macos[4] == device
            &&& macos[1] == if step is Except {
                "-host"@
            } else {
                "-net"@
            }
        }),
{
}

} // verus!
