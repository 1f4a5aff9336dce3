//! NAT and forwarding rules for an exit node.

use vstd::prelude::*;
use vstd::string::*;

use crate::net::Ipv4Net;
use crate::text::{decimal, push_all, push_text, same_text, texts};

verus! {

/// A firewall rule of the exit node.
pub struct FirewallRule {
    pub table: Option<&'static str>,
    pub chain: &'static str,
    pub spec_args: Vec<String>,
}

/// A firewall rule as texts.
pub struct FirewallRuleModel {
    pub table: Option<Seq<char>>,
    pub chain: Seq<char>,
    pub spec_args: Seq<Seq<char>>,
}

impl View for FirewallRule {
    type V = FirewallRuleModel;

    open spec fn view(&self) -> FirewallRuleModel {
        FirewallRuleModel {
            table: match self.table {
                Some(table) => Some(table@),
                None => None,
            },
            chain: self.chain@,
            spec_args: texts(self.spec_args@),
        }
    }
}

impl FirewallRuleModel {
    /// The arguments of `iptables` that apply an action to the rule.
    pub open spec fn command(self, action: Seq<char>) -> Seq<Seq<char>> {
        (match self.table {
            Some(table) => seq!["-t"@, table],
            None => seq![],
        }) + seq![action, self.chain] + self.spec_args
    }
}

impl FirewallRule {
    /// The arguments of `iptables` that apply an action to the rule.
    pub fn command_args(&self, action: &str) -> (args: Vec<String>)
        ensures
            texts(args@) == self@.command(action@),
    {
        let mut args: Vec<String> = Vec::new();
        if let Some(table) = self.table {
            push_text(&mut args, "-t");
            push_text(&mut args, table);
        }
        push_text(&mut args, action);
        push_text(&mut args, self.chain);
        push_all(&mut args, &self.spec_args);
        assert(texts(args@) =~= self@.command(action@));
        args
    }
}

/// The rules of an exit node: traffic from the tunnel's subnet is masqueraded
/// on every interface but the tunnel itself, and forwarding into and out of
/// the tunnel is allowed.
pub open spec fn exit_node_rules(tun_name: Seq<char>, subnet: Seq<char>) -> Seq<FirewallRuleModel> {
    seq![
        FirewallRuleModel {
            table: Some("nat"@),
            chain: "POSTROUTING"@,
            spec_args: seq!["-s"@, subnet, "!"@, "-o"@, tun_name, "-j"@, "MASQUERADE"@],
        },
        FirewallRuleModel {
            table: None,
            chain: "FORWARD"@,
            spec_args: seq!["-i"@, tun_name, "-j"@, "ACCEPT"@],
        },
        FirewallRuleModel {
            table: None,
            chain: "FORWARD"@,
            spec_args: seq!["-o"@, tun_name, "-j"@, "ACCEPT"@],
        },
    ]
}

fn forward_rule(direction: &str, tun_name: &str) -> (rule: FirewallRule)
    ensures
        rule@ == (FirewallRuleModel {
            table: None,
            chain: "FORWARD"@,
            spec_args: seq![direction@, tun_name@, "-j"@, "ACCEPT"@],
        }),
{
    let mut args: Vec<String> = Vec::new();
    push_text(&mut args, direction);
    push_text(&mut args, tun_name);
    push_text(&mut args, "-j");
    push_text(&mut args, "ACCEPT");
    assert(texts(args@) =~= seq![direction@, tun_name@, "-j"@, "ACCEPT"@]);
    FirewallRule { table: None, chain: "FORWARD", spec_args: args }
}

fn masquerade_rule(subnet: &str, tun_name: &str) -> (rule: FirewallRule)
    ensures
        rule@ == exit_node_rules(tun_name@, subnet@)[0],
{
    let mut args: Vec<String> = Vec::new();
    push_text(&mut args, "-s");
    push_text(&mut args, subnet);
    push_text(&mut args, "!");
    push_text(&mut args, "-o");
    push_text(&mut args, tun_name);
    push_text(&mut args, "-j");
    push_text(&mut args, "MASQUERADE");
    assert(texts(args@) =~= seq!["-s"@, subnet@, "!"@, "-o"@, tun_name@, "-j"@, "MASQUERADE"@]);
    FirewallRule { table: Some("nat"), chain: "POSTROUTING", spec_args: args }
}

/// The next thing to do while the firewall is set up.
pub enum SetupAction {
    EnableForwarding,
    /// Run `iptables` with these arguments.
    AddRule(Vec<String>),
    Finished,
}

/// Something to do while the firewall is cleaned up.
pub enum CleanupAction {
    /// Run `iptables` with these arguments.
    DeleteRule(Vec<String>),
    /// Set forwarding to this value.
    RestoreForwarding(String),
}

/// A cleanup action with its texts as sequences.
pub enum CleanupModel {
    DeleteRule(Seq<Seq<char>>),
    RestoreForwarding(Seq<char>),
}

impl View for CleanupAction {
    type V = CleanupModel;

    open spec fn view(&self) -> CleanupModel {
        match *self {
            CleanupAction::DeleteRule(args) => CleanupModel::DeleteRule(texts(args@)),
            CleanupAction::RestoreForwarding(value) => CleanupModel::RestoreForwarding(value@),
        }
    }
}

/// Manages NAT and forwarding rules for an exit node.
pub struct FirewallManager {
    tun_name: String,
    subnet: String,
    original_ip_forward: Option<String>,
    rules: Vec<FirewallRule>,
    step: usize,
}

/// A firewall manager as plain values: the rules that were added, in their
/// order, and how many of them the last setup added.
pub struct FirewallModel {
    pub tun_name: Seq<char>,
    pub subnet: Seq<char>,
    pub original_ip_forward: Option<Seq<char>>,
    pub rules: Seq<FirewallRuleModel>,
    pub step: nat,
}

impl FirewallModel {
    /// All the rules that setting up adds.
    pub open spec fn plan(self) -> Seq<FirewallRuleModel> {
        exit_node_rules(self.tun_name, self.subnet)
    }

    /// What is left of the setup: its next rule, or nothing.
    pub open spec fn continues(self, action: SetupAction) -> bool {
        if self.step < 3 {
            action matches SetupAction::AddRule(args) && texts(args@)
                == self.plan()[self.step as int].command("-A"@)
        } else {
            action is Finished
        }
    }

    /// What the cleanup does: each rule that was added is deleted, and then
    /// the forwarding setting restored, where it was known.
    pub open spec fn whole_cleanup(self) -> Seq<CleanupModel> {
        self.rules.map_values(
            |rule: FirewallRuleModel| CleanupModel::DeleteRule(rule.command("-D"@)),
        ) + match self.original_ip_forward {
            Some(value) => seq![CleanupModel::RestoreForwarding(value)],
            None => seq![],
        }
    }
}

impl View for FirewallManager {
    type V = FirewallModel;

    closed spec fn view(&self) -> FirewallModel {
        FirewallModel {
            tun_name: self.tun_name@,
            subnet: self.subnet@,
            original_ip_forward: match self.original_ip_forward {
                Some(value) => Some(value@),
                None => None,
            },
            rules: self.rules@.map_values(|rule: FirewallRule| rule@),
            step: self.step as nat,
        }
    }
}

impl FirewallManager {
    pub fn new(tun_name: String, subnet: String) -> (manager: FirewallManager)
        ensures
            manager@ == (FirewallModel {
                tun_name: tun_name@,
                subnet: subnet@,
                original_ip_forward: None,
                rules: Seq::empty(),
                step: 0,
            }),
    {
        let manager = FirewallManager {
            tun_name,
            subnet,
            original_ip_forward: None,
            rules: Vec::new(),
            step: 0,
        };
        assert(manager@.rules =~= Seq::empty());
        manager
    }

    /// Starts enabling forwarding and NAT for the tunnel subnet. `ip_forward`
    /// is the current forwarding setting, if it could be read. A second setup
    /// adds every rule once more, and takes the setting that it finds for the
    /// one to restore.
    pub fn setup(&mut self, ip_forward: Option<String>) -> (action: SetupAction)
        ensures
            final(self)@ == (FirewallModel {
                original_ip_forward: match ip_forward {
                    Some(value) => Some(value@),
                    None => None,
                },
                step: 0,
                ..old(self)@
            }),
            if ip_forward matches Some(value) && value@ == "1"@ {
                final(self)@.continues(action)
            } else {
                action is EnableForwarding
            },
    {
        let enabled = match &ip_forward {
            Some(value) => same_text(value.as_str(), "1"),
            None => false,
        };
        self.original_ip_forward = ip_forward;
        self.step = 0;
        if enabled {
            self.add_next()
        } else {
            SetupAction::EnableForwarding
        }
    }

    /// Forwarding has been enabled: the setup's rules follow.
    pub fn forwarding_enabled(&self) -> (action: SetupAction)
        ensures
            self@.continues(action),
    {
        self.add_next()
    }

    /// The rule last asked for has been added: it is noted for the cleanup, and
    /// the next one follows.
    pub fn rule_added(&mut self) -> (action: SetupAction)
        requires
            old(self)@.step < 3,
        ensures
            final(self)@ == (FirewallModel {
                rules: old(self)@.rules.push(old(self)@.plan()[old(self)@.step as int]),
                step: old(self)@.step + 1,
                ..old(self)@
            }),
            final(self)@.continues(action),
    {
        let ghost before = self@.rules;
        let rule = self.rule(self.step);
        self.rules.push(rule);
        self.step = self.step + 1;
        assert(self@.rules =~= before.push(rule@));
        self.add_next()
    }

    fn rule(&self, i: usize) -> (rule: FirewallRule)
        requires
            i < 3,
        ensures
            rule@ == self@.plan()[i as int],
    {
        if i == 0 {
            masquerade_rule(self.subnet.as_str(), self.tun_name.as_str())
        } else if i == 1 {
            forward_rule("-i", self.tun_name.as_str())
        } else {
            forward_rule("-o", self.tun_name.as_str())
        }
    }

    fn add_next(&self) -> (action: SetupAction)
        ensures
            self@.continues(action),
    {
        if self.step < 3 {
            SetupAction::AddRule(self.rule(self.step).command_args("-A"))
        } else {
            SetupAction::Finished
        }
    }

    /// How to remove all rules that were added and restore forwarding.
    pub fn cleanup(&self) -> (actions: Vec<CleanupAction>)
        ensures
            actions@.map_values(|action: CleanupAction| action@) == self@.whole_cleanup(),
    {
        let mut actions: Vec<CleanupAction> = Vec::new();
        let mut i: usize = 0;
        let ghost deletions = self@.rules.map_values(
            |rule: FirewallRuleModel| CleanupModel::DeleteRule(rule.command("-D"@)),
        );
        while i < self.rules.len()
            invariant
                i <= self.rules.len(),
                deletions.len() == self.rules.len(),
                deletions == self@.rules.map_values(
                    |rule: FirewallRuleModel| CleanupModel::DeleteRule(rule.command("-D"@)),
                ),
                actions@.map_values(|action: CleanupAction| action@) =~= deletions.take(i as int),
            decreases self.rules.len() - i,
        {
            let ghost before = actions@;
            assert(self@.rules[i as int] == self.rules@[i as int]@);
            actions.push(CleanupAction::DeleteRule(self.rules[i].command_args("-D")));
            i = i + 1;
            assert(actions@.map_values(|action: CleanupAction| action@) =~= before.map_values(
                |action: CleanupAction| action@,
            ).push(actions@.last()@));
        }
        let ghost before = actions@;
        assert(before.map_values(|action: CleanupAction| action@) =~= deletions);
        if let Some(original) = &self.original_ip_forward {
            actions.push(CleanupAction::RestoreForwarding(original.clone()));
        }
        assert forall|j: int| 0 <= j < before.len() implies before[j]@ == #[trigger] deletions[j] by {
            assert(before.map_values(|action: CleanupAction| action@)[j] == before[j]@);
        }
        assert(actions@.map_values(|action: CleanupAction| action@) =~= self@.whole_cleanup());
        actions
    }
}

/// Compute the subnet CIDR from an interface address (e.g. 10.77.0.1/24 -> 10.77.0.0/24).
pub fn subnet_cidr(addr: &Ipv4Net) -> (subnet: String)
    ensures
        subnet@ == (crate::net::Ipv4Addr { bits: addr.network_bits() as u32 }).text() + "/"@
            + crate::text::decimal_text(addr.prefix_len as nat),
{
    let mut subnet = addr.network().to_text();
    subnet.append("/");
    subnet.append(decimal(addr.prefix_len as u64).as_str());
    subnet
}

/// The cleanup takes back every rule that was added, and then restores the
/// forwarding setting, if it was known.
pub proof fn cleanup_takes_everything_back(manager: FirewallModel, i: int)
    ensures
        0 <= i < manager.rules.len() ==> manager.whole_cleanup()[i] == CleanupModel::DeleteRule(
            manager.rules[i].command("-D"@),
        ),
        manager.original_ip_forward matches Some(value) ==> manager.whole_cleanup().last()
            == CleanupModel::RestoreForwarding(value),
{
}

/// The rules of an exit node, one by one: what comes from the tunnel's subnet is
/// masqueraded on every interface but the tunnel, and the tunnel may forward in
/// both directions.
pub proof fn exit_node_rules_serve_both_directions(tun_name: Seq<char>, subnet: Seq<char>)
    ensures
        ({
            let rules = exit_node_rules(tun_name, subnet);
            &&& rules.len() == 3
            &&& rules[0].command("-A"@) == seq![
                "-t"@,
                "nat"@,
                "-A"@,
                "POSTROUTING"@,
                "-s"@,
                subnet,
                "!"@,
                "-o"@,
                tun_name,
                "-j"@,
                "MASQUERADE"@,
            ]
            &&& rules[1].command("-A"@) == seq![
                "-A"@,
                "FORWARD"@,
                "-i"@,
                tun_name,
                "-j"@,
                "ACCEPT"@,
            ]
            &&& rules[2].command("-A"@) == seq![
                "-A"@,
                "FORWARD"@,
                "-o"@,
                tun_name,
                "-j"@,
                "ACCEPT"@,
            ]
        }),
{
    let rules = exit_node_rules(tun_name, subnet);
    assert(rules[0].command("-A"@) =~= seq![
        "-t"@,
        "nat"@,
        "-A"@,
        "POSTROUTING"@,
        "-s"@,
        subnet,
        "!"@,
        "-o"@,
        tun_name,
        "-j"@,
        "MASQUERADE"@,
    ]);
    assert(rules[1].command("-A"@) =~= seq![
        "-A"@,
        "FORWARD"@,
        "-i"@,
        tun_name,
        "-j"@,
        "ACCEPT"@,
    ]);
    assert(rules[2].command("-A"@) =~= seq![
        "-A"@,
        "FORWARD"@,
        "-o"@,
        tun_name,
        "-j"@,
        "ACCEPT"@,
    ]);
}

/// Deleting a rule takes the same arguments as adding it, but for the action.
pub proof fn rules_are_deleted_as_they_were_added(
    rule: FirewallRuleModel,
    i: int,
)
    requires
        0 <= i < rule.command("-A"@).len(),
    ensures
        rule.command("-D"@).len() == rule.command("-A"@).len(),
        rule.command("-D"@)[i] == rule.command("-A"@)[i] || (rule.command("-A"@)[i] == "-A"@
            && rule.command("-D"@)[i] == "-D"@),
{
}

/// Setting up asks for every rule of the plan in turn, and is finished only after
/// the last of the three.
pub proof fn setup_asks_for_every_rule(manager: FirewallModel, action: SetupAction)
    requires
        manager.continues(action),
    ensures
        manager.step < 3 ==> (action matches SetupAction::AddRule(args) && texts(args@)
            == exit_node_rules(manager.tun_name, manager.subnet)[manager.step as int].command(
            "-A"@,
        )),
        manager.step >= 3 <==> action is Finished,
{
}

} // verus!
