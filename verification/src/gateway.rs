//! Forwarding a LAN into the tunnel: the firewall rules that a gateway owns,
//! and the decisions around installing, removing and checking them.

use vstd::prelude::*;
use vstd::string::*;

use crate::config::Config;
use crate::text::{
    decimal, from_chars, has_prefix, has_suffix, is_text, join, lines, parse_number, push_all,
    push_string, push_text, same_text, texts, to_chars, trim, words, CharClass,
};

verus! {

pub const IPV4_MINIMUM_TCP_MSS: u16 = 536;
pub const IPV4_TCP_HEADER_BYTES: u16 = 40;

/// More owned rules than this are never removed in one go.
pub const MAXIMUM_OWNED_RULES: usize = 128;

/// A chain of a table; the filter table needs no name.
#[derive(Clone, Copy, Debug)]
pub struct IptablesLocation {
    pub table: Option<&'static str>,
    pub chain: &'static str,
}

/// A chain of a table as texts.
pub struct LocationModel {
    pub table: Option<Seq<char>>,
    pub chain: Seq<char>,
}

/// An optional text as an optional sequence.
pub open spec fn optional_text(text: Option<&'static str>) -> Option<Seq<char>> {
    match text {
        Some(t) => Some(t@),
        None => None,
    }
}

impl View for IptablesLocation {
    type V = LocationModel;

    open spec fn view(&self) -> LocationModel {
        LocationModel { table: optional_text(self.table), chain: self.chain@ }
    }
}

pub struct IptablesRule {
    pub location: IptablesLocation,
    pub spec_args: Vec<String>,
    pub description: &'static str,
}

/// A firewall rule as texts.
pub struct RuleModel {
    pub location: LocationModel,
    pub spec_args: Seq<Seq<char>>,
    pub description: Seq<char>,
}

impl View for IptablesRule {
    type V = RuleModel;

    open spec fn view(&self) -> RuleModel {
        RuleModel {
            location: self.location@,
            spec_args: texts(self.spec_args@),
            description: self.description@,
        }
    }
}

pub open spec fn mangle_forward() -> LocationModel {
    LocationModel { table: Some("mangle"@), chain: "FORWARD"@ }
}

pub open spec fn nat_postrouting() -> LocationModel {
    LocationModel { table: Some("nat"@), chain: "POSTROUTING"@ }
}

pub open spec fn filter_forward() -> LocationModel {
    LocationModel { table: None, chain: "FORWARD"@ }
}

/// The arguments that choose a location: the table, where it has a name.
pub open spec fn table_args(location: LocationModel) -> Seq<Seq<char>> {
    match location.table {
        Some(table) => seq!["-t"@, table],
        None => seq![],
    }
}

impl RuleModel {
    /// The arguments of `iptables` that apply an action to the rule. Waiting
    /// for the lock lets other firewall services finish first.
    pub open spec fn command(self, action: Seq<char>) -> Seq<Seq<char>> {
        seq!["--wait"@, "5"@] + table_args(self.location) + seq![action, self.location.chain]
            + self.spec_args
    }
}

fn push_table(args: &mut Vec<String>, location: &IptablesLocation)
    ensures
        texts(final(args)@) == texts(old(args)@) + table_args(location@),
{
    let ghost before = texts(args@);
    if let Some(table) = location.table {
        push_text(args, "-t");
        push_text(args, table);
    }
    assert(texts(args@) =~= before + table_args(location@));
}

impl IptablesRule {
    /// The arguments of `iptables` that apply an action to the rule.
    pub fn command_args(&self, action: &str) -> (args: Vec<String>)
        ensures
            texts(args@) == self@.command(action@),
    {
        let mut args: Vec<String> = Vec::new();
        push_text(&mut args, "--wait");
        push_text(&mut args, "5");
        push_table(&mut args, &self.location);
        push_text(&mut args, action);
        push_text(&mut args, self.location.chain);
        push_all(&mut args, &self.spec_args);
        assert(texts(args@) =~= self@.command(action@));
        args
    }

    /// The command line that applies an action to the rule.
    pub fn render(&self, action: &str) -> (line: String)
        ensures
            line@ == "iptables "@ + crate::text::joined(self@.command(action@), " "@),
    {
        let args = self.command_args(action);
        let mut line = "iptables ".to_owned();
        line.append(join(&args, " ").as_str());
        line
    }
}

/// What an exit code of `iptables -C` says: zero is present, one is absent, and
/// anything else is a failure.
pub fn rule_presence(exit_code: Option<i32>) -> (present: Option<bool>)
    ensures
        present == match exit_code {
            Some(0) => Some(true),
            Some(1) => Some(false),
            _ => None::<bool>,
        },
{
    match exit_code {
        Some(code) => if code == 0 {
            Some(true)
        } else if code == 1 {
            Some(false)
        } else {
            None
        },
        None => None,
    }
}

/// The arguments of `iptables` that list a chain.
pub fn list_args(location: &IptablesLocation) -> (args: Vec<String>)
    ensures
        texts(args@) == seq!["--wait"@, "5"@] + table_args(location@) + seq![
            "-S"@,
            location@.chain,
        ],
{
    let mut args: Vec<String> = Vec::new();
    push_text(&mut args, "--wait");
    push_text(&mut args, "5");
    push_table(&mut args, location);
    push_text(&mut args, "-S");
    push_text(&mut args, location.chain);
    assert(texts(args@) =~= seq!["--wait"@, "5"@] + table_args(location@) + seq![
        "-S"@,
        location@.chain,
    ]);
    args
}

/// The arguments of `iptables` that delete a chain's rule by its number.
pub fn delete_number_args(location: &IptablesLocation, number: usize) -> (args: Vec<String>)
    ensures
        texts(args@) == seq!["--wait"@, "5"@] + table_args(location@) + seq![
            "-D"@,
            location@.chain,
            crate::text::decimal_text(number as nat),
        ],
{
    let mut args: Vec<String> = Vec::new();
    push_text(&mut args, "--wait");
    push_text(&mut args, "5");
    push_table(&mut args, location);
    push_text(&mut args, "-D");
    push_text(&mut args, location.chain);
    push_string(&mut args, decimal(number as u64));
    assert(texts(args@) =~= seq!["--wait"@, "5"@] + table_args(location@) + seq![
        "-D"@,
        location@.chain,
        crate::text::decimal_text(number as nat),
    ]);
    args
}

/// The locations in which a gateway owns rules.
pub fn owned_rule_locations() -> (locations: [IptablesLocation; 3])
    ensures
        locations@[0]@ == mangle_forward(),
        locations@[1]@ == nat_postrouting(),
        locations@[2]@ == filter_forward(),
{
    [
        IptablesLocation { table: Some("mangle"), chain: "FORWARD" },
        IptablesLocation { table: Some("nat"), chain: "POSTROUTING" },
        IptablesLocation { table: None, chain: "FORWARD" },
    ]
}

// ---------------------------------------------------------------------------
// The plan.
// ---------------------------------------------------------------------------

/// The arguments that mark a rule as owned.
pub open spec fn comment_args(owner: Seq<char>) -> Seq<Seq<char>> {
    seq!["-m"@, "comment"@, "--comment"@, owner]
}

/// The rule that clamps the MSS of connections from one interface to another.
pub open spec fn mss_args(
    from: Seq<char>,
    to: Seq<char>,
    owner: Seq<char>,
    mss: u16,
) -> Seq<Seq<char>> {
    seq!["-i"@, from, "-o"@, to, "-p"@, "tcp"@, "--tcp-flags"@, "SYN,RST"@, "SYN"@] + comment_args(
        owner,
    ) + seq!["-j"@, "TCPMSS"@, "--set-mss"@, crate::text::decimal_text(mss as nat)]
}

pub open spec fn masquerade_args(tunnel: Seq<char>, owner: Seq<char>) -> Seq<Seq<char>> {
    seq!["-o"@, tunnel] + comment_args(owner) + seq!["-j"@, "MASQUERADE"@]
}

pub open spec fn outbound_args(lan: Seq<char>, tunnel: Seq<char>, owner: Seq<char>) -> Seq<
    Seq<char>,
> {
    seq!["-i"@, lan, "-o"@, tunnel] + comment_args(owner) + seq!["-j"@, "ACCEPT"@]
}

pub open spec fn return_args(lan: Seq<char>, tunnel: Seq<char>, owner: Seq<char>) -> Seq<
    Seq<char>,
> {
    seq![
        "-i"@,
        tunnel,
        "-o"@,
        lan,
        "-m"@,
        "conntrack"@,
        "--ctstate"@,
        "RELATED,ESTABLISHED"@,
    ] + comment_args(owner) + seq!["-j"@, "ACCEPT"@]
}

/// The rules of a gateway between a LAN and a tunnel.
pub open spec fn gateway_rules(
    lan: Seq<char>,
    tunnel: Seq<char>,
    owner: Seq<char>,
    mss: u16,
) -> Seq<RuleModel> {
    seq![
        RuleModel {
            location: mangle_forward(),
            spec_args: mss_args(lan, tunnel, owner, mss),
            description: "LAN to tunnel TCP MSS"@,
        },
        RuleModel {
            location: mangle_forward(),
            spec_args: mss_args(tunnel, lan, owner, mss),
            description: "tunnel to LAN TCP MSS"@,
        },
        RuleModel {
            location: nat_postrouting(),
            spec_args: masquerade_args(tunnel, owner),
            description: "tunnel masquerade"@,
        },
        RuleModel {
            location: filter_forward(),
            spec_args: outbound_args(lan, tunnel, owner),
            description: "LAN to tunnel forwarding"@,
        },
        RuleModel {
            location: filter_forward(),
            spec_args: return_args(lan, tunnel, owner),
            description: "established return forwarding"@,
        },
    ]
}

fn push_comment(args: &mut Vec<String>, owner: &str)
    ensures
        texts(final(args)@) == texts(old(args)@) + comment_args(owner@),
{
    let ghost before = texts(args@);
    push_text(args, "-m");
    push_text(args, "comment");
    push_text(args, "--comment");
    push_text(args, owner);
    assert(texts(args@) =~= before + comment_args(owner@));
}

fn mss_rule_args(from: &str, to: &str, owner: &str, mss: u16) -> (args: Vec<String>)
    ensures
        texts(args@) == mss_args(from@, to@, owner@, mss),
{
    let mut args: Vec<String> = Vec::new();
    push_text(&mut args, "-i");
    push_text(&mut args, from);
    push_text(&mut args, "-o");
    push_text(&mut args, to);
    push_text(&mut args, "-p");
    push_text(&mut args, "tcp");
    push_text(&mut args, "--tcp-flags");
    push_text(&mut args, "SYN,RST");
    push_text(&mut args, "SYN");
    push_comment(&mut args, owner);
    push_text(&mut args, "-j");
    push_text(&mut args, "TCPMSS");
    push_text(&mut args, "--set-mss");
    push_string(&mut args, decimal(mss as u64));
    assert(texts(args@) =~= mss_args(from@, to@, owner@, mss));
    args
}

fn masquerade_rule_args(tunnel: &str, owner: &str) -> (args: Vec<String>)
    ensures
        texts(args@) == masquerade_args(tunnel@, owner@),
{
    let mut args: Vec<String> = Vec::new();
    push_text(&mut args, "-o");
    push_text(&mut args, tunnel);
    push_comment(&mut args, owner);
    push_text(&mut args, "-j");
    push_text(&mut args, "MASQUERADE");
    assert(texts(args@) =~= masquerade_args(tunnel@, owner@));
    args
}

fn outbound_rule_args(lan: &str, tunnel: &str, owner: &str) -> (args: Vec<String>)
    ensures
        texts(args@) == outbound_args(lan@, tunnel@, owner@),
{
    let mut args: Vec<String> = Vec::new();
    push_text(&mut args, "-i");
    push_text(&mut args, lan);
    push_text(&mut args, "-o");
    push_text(&mut args, tunnel);
    push_comment(&mut args, owner);
    push_text(&mut args, "-j");
    push_text(&mut args, "ACCEPT");
    assert(texts(args@) =~= outbound_args(lan@, tunnel@, owner@));
    args
}

fn return_rule_args(lan: &str, tunnel: &str, owner: &str) -> (args: Vec<String>)
    ensures
        texts(args@) == return_args(lan@, tunnel@, owner@),
{
    let mut args: Vec<String> = Vec::new();
    push_text(&mut args, "-i");
    push_text(&mut args, tunnel);
    push_text(&mut args, "-o");
    push_text(&mut args, lan);
    push_text(&mut args, "-m");
    push_text(&mut args, "conntrack");
    push_text(&mut args, "--ctstate");
    push_text(&mut args, "RELATED,ESTABLISHED");
    push_comment(&mut args, owner);
    push_text(&mut args, "-j");
    push_text(&mut args, "ACCEPT");
    assert(texts(args@) =~= return_args(lan@, tunnel@, owner@));
    args
}

/// Why a configuration has no gateway plan.
#[derive(Clone, Copy, Debug, Eq, PartialEq, Structural)]
pub enum GatewayError {
    /// There is no gateway section; ordinary clients must not manage
    /// forwarding.
    NoGatewaySection,
    /// The tunnel MTU is too small to derive an IPv4 TCP MSS.
    MtuTooSmall,
    /// The TCP MSS is outside the safe range for the tunnel MTU.
    MssOutOfRange { tcp_mss: u16, maximum_mss: u16, tunnel_mtu: u16 },
}

pub struct GatewayPlan {
    pub lan_interface: String,
    pub tunnel_interface: String,
    pub tunnel_mtu: u16,
    pub tcp_mss: u16,
    pub tcp_mss_is_explicit: bool,
    pub owner_tag: String,
    pub rules: Vec<IptablesRule>,
}

/// A list of rules as texts.
pub open spec fn rule_models(rules: Seq<IptablesRule>) -> Seq<RuleModel> {
    rules.map_values(|rule: IptablesRule| rule@)
}

impl GatewayPlan {
    /// Whether this plans a gateway between these interfaces.
    pub open spec fn plans(
        self,
        lan: Seq<char>,
        tunnel: Seq<char>,
        mtu: u16,
        mss: u16,
        explicit: bool,
    ) -> bool {
        &&& self.lan_interface@ == lan
        &&& self.tunnel_interface@ == tunnel
        &&& self.tunnel_mtu == mtu
        &&& self.tcp_mss == mss
        &&& self.tcp_mss_is_explicit == explicit
        &&& self.owner_tag@ == "hushwire-gateway:"@ + tunnel
        &&& rule_models(self.rules@) == gateway_rules(
            lan,
            tunnel,
            "hushwire-gateway:"@ + tunnel,
            mss,
        )
    }

    /// The plan of a configuration. The MSS is the configured one, or what the
    /// tunnel's MTU leaves beside the headers; either way it must lie between
    /// the IPv4 minimum and that.
    pub fn from_config(config: &Config) -> (plan: Result<GatewayPlan, GatewayError>)
        ensures
            match config.gateway {
                None => plan == Err::<GatewayPlan, _>(GatewayError::NoGatewaySection),
                Some(gateway) => {
                    let mtu = config.interface.mtu;
                    let maximum = (mtu - IPV4_TCP_HEADER_BYTES) as u16;
                    let mss = match gateway.tcp_mss {
                        Some(mss) => mss,
                        None => maximum,
                    };
                    if mtu < IPV4_TCP_HEADER_BYTES {
                        plan == Err::<GatewayPlan, _>(GatewayError::MtuTooSmall)
                    } else if !(IPV4_MINIMUM_TCP_MSS <= mss <= maximum) {
                        plan == Err::<GatewayPlan, _>(
                            GatewayError::MssOutOfRange {
                                tcp_mss: mss,
                                maximum_mss: maximum,
                                tunnel_mtu: mtu,
                            },
                        )
                    } else {
                        plan matches Ok(p) && p.plans(
                            crate::text::trimmed(gateway.lan_interface@, CharClass::WhiteSpace),
                            config.interface.name@,
                            mtu,
                            mss,
                            gateway.tcp_mss is Some,
                        )
                    }
                },
            },
    {
        let gateway = match &config.gateway {
            Some(gateway) => gateway,
            None => {
                return Err(GatewayError::NoGatewaySection);
            },
        };
        let tunnel_mtu: u16 = config.interface.mtu;
        let maximum_mss: u16 = match tunnel_mtu.checked_sub(IPV4_TCP_HEADER_BYTES) {
            Some(maximum) => maximum,
            None => {
                return Err(GatewayError::MtuTooSmall);
            },
        };
        let tcp_mss: u16 = match gateway.tcp_mss {
            Some(mss) => mss,
            None => maximum_mss,
        };
        if tcp_mss < IPV4_MINIMUM_TCP_MSS || tcp_mss > maximum_mss {
            return Err(GatewayError::MssOutOfRange { tcp_mss, maximum_mss, tunnel_mtu });
        }
        let lan_chars = to_chars(gateway.lan_interface.as_str());
        let lan_interface = from_chars(trim(&lan_chars, CharClass::WhiteSpace).as_slice());
        let tunnel_interface = config.interface.name.clone();
        // The tunnel interface is the stable policy identity. This lets an
        // operator change the LAN interface or MSS and have apply reconcile
        // old rules instead of leaving stale rules ahead of the new policy.
        let mut owner_tag = "hushwire-gateway:".to_owned();
        owner_tag.append(tunnel_interface.as_str());
        let lan = lan_interface.as_str();
        let tunnel = tunnel_interface.as_str();
        let owner = owner_tag.as_str();
        let locations = owned_rule_locations();
        let mut rules: Vec<IptablesRule> = Vec::new();
        rules.push(
            IptablesRule {
                location: locations[0],
                spec_args: mss_rule_args(lan, tunnel, owner, tcp_mss),
                description: "LAN to tunnel TCP MSS",
            },
        );
        rules.push(
            IptablesRule {
                location: locations[0],
                spec_args: mss_rule_args(tunnel, lan, owner, tcp_mss),
                description: "tunnel to LAN TCP MSS",
            },
        );
        rules.push(
            IptablesRule {
                location: locations[1],
                spec_args: masquerade_rule_args(tunnel, owner),
                description: "tunnel masquerade",
            },
        );
        rules.push(
            IptablesRule {
                location: locations[2],
                spec_args: outbound_rule_args(lan, tunnel, owner),
                description: "LAN to tunnel forwarding",
            },
        );
        rules.push(
            IptablesRule {
                location: locations[2],
                spec_args: return_rule_args(lan, tunnel, owner),
                description: "established return forwarding",
            },
        );
        assert(rule_models(rules@) =~= gateway_rules(lan@, tunnel@, owner@, tcp_mss));
        Ok(
            GatewayPlan {
                lan_interface,
                tunnel_interface,
                tunnel_mtu,
                tcp_mss,
                tcp_mss_is_explicit: gateway.tcp_mss.is_some(),
                owner_tag,
                rules,
            },
        )
    }
}

// ---------------------------------------------------------------------------
// Owned rules in listings.
// ---------------------------------------------------------------------------

/// The words of a listed rule, without the quotation marks around them.
pub open spec fn line_tokens(line: Seq<char>) -> Seq<Seq<char>> {
    crate::text::words_of(line, CharClass::AsciiSpace).map_values(
        |word: Seq<char>| crate::text::trimmed(word, CharClass::Quote),
    )
}

/// Whether a listed rule's comment is exactly the owner's tag.
pub open spec fn has_owner(line: Seq<char>, owner: Seq<char>) -> bool {
    exists|i: int|
        #![trigger line_tokens(line)[i]]
        0 <= i < line_tokens(line).len() - 1 && line_tokens(line)[i] == "--comment"@ && line_tokens(
            line,
        )[i + 1] == owner
}

/// Whether a listed rule's comment is exactly the owner's tag.
pub fn iptables_line_has_owner(line: &str, owner_tag: &str) -> (owned: bool)
    ensures
        owned == has_owner(line@, owner_tag@),
{
    let chars = to_chars(line);
    line_has_owner(&chars, owner_tag)
}

fn line_has_owner(line: &Vec<char>, owner_tag: &str) -> (owned: bool)
    ensures
        owned == has_owner(line@, owner_tag@),
{
    let tokens = words(line, CharClass::AsciiSpace);
    let ghost expected = line_tokens(line@);
    assert(expected.len() == tokens@.len());
    let mut after_comment = false;
    let mut i: usize = 0;
    while i < tokens.len()
        invariant
            i <= tokens.len(),
            expected == line_tokens(line@),
            expected.len() == tokens@.len(),
            crate::text::word_texts(tokens@) == crate::text::words_of(
                line@,
                CharClass::AsciiSpace,
            ),
            after_comment == (i > 0 && expected[i - 1] == "--comment"@),
            forall|j: int|
                #![trigger expected[j]]
                0 <= j < i - 1 ==> !(expected[j] == "--comment"@ && expected[j + 1] == owner_tag@),
        decreases tokens.len() - i,
    {
        let token = trim(&tokens[i], CharClass::Quote);
        assert(crate::text::word_texts(tokens@)[i as int] == tokens@[i as int]@);
        assert(expected[i as int] == token@);
        if after_comment && is_text(&token, owner_tag) {
            assert(expected[i - 1] == "--comment"@);
            return true;
        }
        after_comment = is_text(&token, "--comment");
        i = i + 1;
    }
    false
}

/// How many of the first `n` lines are owned.
pub open spec fn owned_count(lines: Seq<Seq<char>>, owner: Seq<char>, n: int) -> nat
    decreases n,
{
    if n <= 0 {
        0
    } else if has_owner(lines[n - 1], owner) {
        owned_count(lines, owner, n - 1) + 1
    } else {
        owned_count(lines, owner, n - 1)
    }
}

/// How many rules of a listing are owned.
pub fn count_owned_rules(listing: &str, owner_tag: &str) -> (count: usize)
    ensures
        count == owned_count(
            crate::text::lines_of(listing@),
            owner_tag@,
            crate::text::lines_of(listing@).len() as int,
        ),
{
    let chars = to_chars(listing);
    let list = lines(&chars);
    let ghost all = crate::text::lines_of(listing@);
    let mut count: usize = 0;
    let mut i: usize = 0;
    while i < list.len()
        invariant
            i <= list.len(),
            all == crate::text::word_texts(list@),
            count <= i,
            count == owned_count(all, owner_tag@, i as int),
        decreases list.len() - i,
    {
        assert(all[i as int] == list@[i as int]@);
        if line_has_owner(&list[i], owner_tag) {
            count = count + 1;
        }
        i = i + 1;
    }
    count
}

/// The number of the first owned rule from line `i` on, where `count` rules
/// stand before it.
pub open spec fn first_owned(lines: Seq<Seq<char>>, owner: Seq<char>, i: int, count: int) -> Option<
    int,
>
    decreases lines.len() - i,
{
    if i >= lines.len() {
        None
    } else if !crate::text::begins_with(lines[i], "-A "@) {
        first_owned(lines, owner, i + 1, count)
    } else if has_owner(lines[i], owner) {
        Some(count + 1)
    } else {
        first_owned(lines, owner, i + 1, count + 1)
    }
}

/// The number, counted from one, of the first owned rule of a listed chain.
pub fn first_owned_rule(listing: &str, owner_tag: &str) -> (number: Option<usize>)
    ensures
        match number {
            Some(n) => first_owned(crate::text::lines_of(listing@), owner_tag@, 0, 0) == Some(
                n as int,
            ),
            None => first_owned(crate::text::lines_of(listing@), owner_tag@, 0, 0) is None,
        },
{
    let chars = to_chars(listing);
    let list = lines(&chars);
    let ghost all = crate::text::lines_of(listing@);
    let mut count: usize = 0;
    let mut i: usize = 0;
    while i < list.len()
        invariant
            i <= list.len(),
            all == crate::text::word_texts(list@),
            count <= i,
            first_owned(all, owner_tag@, 0, 0) == first_owned(
                all,
                owner_tag@,
                i as int,
                count as int,
            ),
            all == crate::text::lines_of(listing@),
        decreases list.len() - i,
    {
        assert(all[i as int] == list@[i as int]@);
        if has_prefix(&list[i], "-A ") {
            if line_has_owner(&list[i], owner_tag) {
                return Some(count + 1);
            }
            count = count + 1;
        }
        i = i + 1;
    }
    None
}

/// What to do next while owned rules are removed.
#[derive(Clone, Copy, Debug, Eq, PartialEq, Structural)]
pub enum SweepAction {
    /// List the rules of this location.
    List(usize),
    /// Delete this rule of this location.
    Delete { location: usize, number: usize },
    /// So many rules were removed, and none is left.
    Finished(usize),
    /// There are more owned rules than are ever removed.
    Refuse,
}

/// Removing every owned rule, one at a time, location by location.
#[derive(Clone, Copy, Debug, Eq, PartialEq, Structural)]
pub struct OwnedSweep {
    pub location: usize,
    pub removed: usize,
}

impl OwnedSweep {
    pub fn new() -> (sweep: OwnedSweep)
        ensures
            sweep == (OwnedSweep { location: 0, removed: 0 }),
    {
        OwnedSweep { location: 0, removed: 0 }
    }

    /// The current location's rules have been listed: the first owned one is
    /// deleted, and where there is none the next location follows.
    pub fn on_listing(&mut self, listing: &str, owner_tag: &str) -> (action: SweepAction)
        requires
            old(self).location < 3,
        ensures
            match first_owned(crate::text::lines_of(listing@), owner_tag@, 0, 0) {
                Some(number) => *final(self) == *old(self) && action == (SweepAction::Delete {
                    location: old(self).location,
                    number: number as usize,
                }),
                None => {
                    &&& *final(self) == (OwnedSweep {
                        location: (old(self).location + 1) as usize,
                        ..*old(self)
                    })
                    &&& action == if old(self).location + 1 < 3 {
                        SweepAction::List((old(self).location + 1) as usize)
                    } else {
                        SweepAction::Finished(old(self).removed)
                    }
                },
            },
    {
        match first_owned_rule(listing, owner_tag) {
            Some(number) => SweepAction::Delete { location: self.location, number },
            None => {
                self.location = self.location + 1;
                if self.location < 3 {
                    SweepAction::List(self.location)
                } else {
                    SweepAction::Finished(self.removed)
                }
            },
        }
    }

    /// A rule has been deleted: the location is listed again, unless too many
    /// rules have been removed.
    pub fn on_deleted(&mut self) -> (action: SweepAction)
        requires
            old(self).removed <= MAXIMUM_OWNED_RULES,
        ensures
            *final(self) == (OwnedSweep { removed: (old(self).removed + 1) as usize, ..*old(self) }),
            action == if old(self).removed + 1 > MAXIMUM_OWNED_RULES {
                SweepAction::Refuse
            } else {
                SweepAction::List(old(self).location)
            },
    {
        self.removed = self.removed + 1;
        if self.removed > MAXIMUM_OWNED_RULES {
            SweepAction::Refuse
        } else {
            SweepAction::List(self.location)
        }
    }
}

// ---------------------------------------------------------------------------
// Applying the plan.
// ---------------------------------------------------------------------------

/// How far the application of a plan has come.
#[derive(Clone, Copy, Debug, Eq, PartialEq, Structural)]
pub enum ApplyPhase {
    /// Asking whether rule `0..` are present.
    Checking(usize),
    /// Counting the owned rules.
    Counting,
    /// Removing all owned rules, to start from nothing.
    Sweeping,
    /// Asking again whether a rule is present.
    Ensuring(usize),
    /// Adding a rule.
    Adding(usize),
    /// Enabling forwarding.
    Forwarding,
    /// Taking back the rules that were added.
    Undoing,
    /// Taking back the state marker.
    Unmarking,
    /// Asking whether another gateway still has a marker.
    Looking,
    /// Restoring the forwarding setting.
    Restoring,
    /// Forgetting the recorded forwarding setting.
    Forgetting,
    /// Nothing is left to do.
    Over,
}

/// What the adapter has to report.
#[derive(Clone, Copy, Debug, Eq, PartialEq, Structural)]
pub enum ApplyEvent {
    /// Whether the rule is present.
    Presence(bool),
    /// How many owned rules there are.
    Owned(usize),
    /// The operation succeeded.
    Done,
    /// The operation failed.
    Failed,
    /// Whether another gateway has a marker.
    Markers(bool),
}

/// What the adapter has to do.
#[derive(Clone, Copy, Debug, Eq, PartialEq, Structural)]
pub enum ApplyAction {
    CheckRule(usize),
    CountOwned,
    RemoveOwned,
    AddRule(usize),
    EnableForwarding,
    /// The plan is in force.
    Succeed,
    DeleteRule(usize),
    RemoveMarker,
    LookForMarkers,
    RestoreForwarding,
    RemoveOriginal,
    /// Everything that could be taken back has been; report the failure.
    GiveUp,
}

/// The application of a plan, with what it has changed so far.
pub struct GatewayApply {
    pub rule_count: usize,
    pub forwarding_enabled: bool,
    pub original_created: bool,
    pub marker_created: bool,
    pub all_present: bool,
    pub added: Vec<usize>,
    pub phase: ApplyPhase,
}

/// The application of a plan as plain values.
pub struct ApplyModel {
    pub rule_count: usize,
    pub forwarding_enabled: bool,
    pub original_created: bool,
    pub marker_created: bool,
    pub all_present: bool,
    pub added: Seq<usize>,
    pub phase: ApplyPhase,
}

impl View for GatewayApply {
    type V = ApplyModel;

    open spec fn view(&self) -> ApplyModel {
        ApplyModel {
            rule_count: self.rule_count,
            forwarding_enabled: self.forwarding_enabled,
            original_created: self.original_created,
            marker_created: self.marker_created,
            all_present: self.all_present,
            added: self.added@,
            phase: self.phase,
        }
    }
}

impl ApplyModel {
    /// How an application starts, and with what.
    pub open spec fn started(
        rule_count: usize,
        forwarding_enabled: bool,
        original_created: bool,
        marker_created: bool,
    ) -> (ApplyModel, ApplyAction) {
        let fresh = ApplyModel {
            rule_count,
            forwarding_enabled,
            original_created,
            marker_created,
            all_present: true,
            added: Seq::empty(),
            phase: ApplyPhase::Counting,
        };
        if rule_count > 0 {
            (fresh.at(ApplyPhase::Checking(0)), ApplyAction::CheckRule(0))
        } else {
            (fresh, ApplyAction::CountOwned)
        }
    }

    pub open spec fn at(self, phase: ApplyPhase) -> ApplyModel {
        ApplyModel { phase, ..self }
    }

    /// Makes sure of rule `i`, or, after the last, of forwarding.
    pub open spec fn ensure(self, i: int) -> (ApplyModel, ApplyAction) {
        if i < self.rule_count {
            (self.at(ApplyPhase::Ensuring(i as usize)), ApplyAction::CheckRule(i as usize))
        } else if self.forwarding_enabled {
            (self.at(ApplyPhase::Over), ApplyAction::Succeed)
        } else {
            (self.at(ApplyPhase::Forwarding), ApplyAction::EnableForwarding)
        }
    }

    /// Takes back what was changed: the added rules, newest first, then the
    /// marker, and, if no other gateway needs it, the forwarding setting.
    pub open spec fn undo(self) -> (ApplyModel, ApplyAction) {
        if self.added.len() > 0 {
            (
                ApplyModel { added: self.added.drop_last(), ..self.at(ApplyPhase::Undoing) },
                ApplyAction::DeleteRule(self.added.last()),
            )
        } else if self.marker_created {
            (self.at(ApplyPhase::Unmarking), ApplyAction::RemoveMarker)
        } else {
            self.look()
        }
    }

    pub open spec fn look(self) -> (ApplyModel, ApplyAction) {
        if self.original_created {
            (self.at(ApplyPhase::Looking), ApplyAction::LookForMarkers)
        } else {
            (self.at(ApplyPhase::Over), ApplyAction::GiveUp)
        }
    }

    /// Whether an event can follow the last action.
    pub open spec fn expects(self, event: ApplyEvent) -> bool {
        match self.phase {
            ApplyPhase::Checking(i) => i < self.rule_count && (event is Presence
                || event is Failed),
            ApplyPhase::Counting => event is Owned || event is Failed,
            ApplyPhase::Sweeping => event is Done || event is Failed,
            ApplyPhase::Ensuring(i) => i < self.rule_count && (event is Presence
                || event is Failed),
            ApplyPhase::Adding(i) => i < self.rule_count && (event is Done || event is Failed),
            ApplyPhase::Forwarding => event is Done || event is Failed,
            ApplyPhase::Undoing => event is Done || event is Failed,
            ApplyPhase::Unmarking => event is Done || event is Failed,
            ApplyPhase::Looking => event is Markers || event is Failed,
            ApplyPhase::Restoring => event is Done || event is Failed,
            ApplyPhase::Forgetting => event is Done || event is Failed,
            ApplyPhase::Over => false,
        }
    }

    /// What follows an event. A failed change starts taking back; a failure
    /// while taking back is passed over.
    pub open spec fn next(self, event: ApplyEvent) -> (ApplyModel, ApplyAction) {
        match (self.phase, event) {
            (ApplyPhase::Checking(i), ApplyEvent::Presence(present)) => {
                let known = ApplyModel { all_present: self.all_present && present, ..self };
                if i + 1 < self.rule_count {
                    (
                        known.at(ApplyPhase::Checking((i + 1) as usize)),
                        ApplyAction::CheckRule((i + 1) as usize),
                    )
                } else {
                    (known.at(ApplyPhase::Counting), ApplyAction::CountOwned)
                }
            },
            (ApplyPhase::Counting, ApplyEvent::Owned(owned)) => if self.all_present && owned
                == self.rule_count {
                self.ensure(0)
            } else {
                (self.at(ApplyPhase::Sweeping), ApplyAction::RemoveOwned)
            },
            (ApplyPhase::Sweeping, ApplyEvent::Done) => self.ensure(0),
            (ApplyPhase::Ensuring(i), ApplyEvent::Presence(true)) => self.ensure(i + 1),
            (ApplyPhase::Ensuring(i), ApplyEvent::Presence(false)) => (
                self.at(ApplyPhase::Adding(i)),
                ApplyAction::AddRule(i),
            ),
            (ApplyPhase::Adding(i), ApplyEvent::Done) => (ApplyModel {
                added: self.added.push(i),
                ..self
            }).ensure(i + 1),
            (ApplyPhase::Forwarding, ApplyEvent::Done) => (
                self.at(ApplyPhase::Over),
                ApplyAction::Succeed,
            ),
            (ApplyPhase::Undoing, _) => self.undo(),
            (ApplyPhase::Unmarking, _) => self.look(),
            (ApplyPhase::Looking, ApplyEvent::Markers(false)) => (
                self.at(ApplyPhase::Restoring),
                ApplyAction::RestoreForwarding,
            ),
            (ApplyPhase::Looking, _) => (self.at(ApplyPhase::Over), ApplyAction::GiveUp),
            (ApplyPhase::Restoring, _) => (
                self.at(ApplyPhase::Forgetting),
                ApplyAction::RemoveOriginal,
            ),
            (ApplyPhase::Forgetting, _) => (self.at(ApplyPhase::Over), ApplyAction::GiveUp),
            _ => self.undo(),
        }
    }
}

impl GatewayApply {
    /// Starts applying a plan of so many rules. `forwarding_before` is the
    /// setting as it was, and the flags say which state files are new.
    pub fn start(
        rule_count: usize,
        forwarding_before: &str,
        original_created: bool,
        marker_created: bool,
    ) -> (started: (GatewayApply, ApplyAction))
        ensures
            (started.0@, started.1) == ApplyModel::started(
                rule_count,
                forwarding_before@ == "1"@,
                original_created,
                marker_created,
            ),
    {
        let phase = if rule_count > 0 {
            ApplyPhase::Checking(0)
        } else {
            ApplyPhase::Counting
        };
        let apply = GatewayApply {
            rule_count,
            forwarding_enabled: same_text(forwarding_before, "1"),
            original_created,
            marker_created,
            all_present: true,
            added: Vec::new(),
            phase,
        };
        assert(apply.added@ =~= Seq::empty());
        if rule_count > 0 {
            (apply, ApplyAction::CheckRule(0))
        } else {
            (apply, ApplyAction::CountOwned)
        }
    }

    fn ensure(&mut self, i: usize) -> (action: ApplyAction)
        ensures
            (final(self)@, action) == old(self)@.ensure(i as int),
    {
        if i < self.rule_count {
            self.phase = ApplyPhase::Ensuring(i);
            ApplyAction::CheckRule(i)
        } else if self.forwarding_enabled {
            self.phase = ApplyPhase::Over;
            ApplyAction::Succeed
        } else {
            self.phase = ApplyPhase::Forwarding;
            ApplyAction::EnableForwarding
        }
    }

    fn undo(&mut self) -> (action: ApplyAction)
        ensures
            (final(self)@, action) == old(self)@.undo(),
    {
        match self.added.pop() {
            Some(rule) => {
                self.phase = ApplyPhase::Undoing;
                ApplyAction::DeleteRule(rule)
            },
            None => {
                if self.marker_created {
                    self.phase = ApplyPhase::Unmarking;
                    ApplyAction::RemoveMarker
                } else {
                    self.look()
                }
            },
        }
    }

    fn look(&mut self) -> (action: ApplyAction)
        ensures
            (final(self)@, action) == old(self)@.look(),
    {
        if self.original_created {
            self.phase = ApplyPhase::Looking;
            ApplyAction::LookForMarkers
        } else {
            self.phase = ApplyPhase::Over;
            ApplyAction::GiveUp
        }
    }

    /// What to do after an event.
    pub fn next(&mut self, event: ApplyEvent) -> (action: ApplyAction)
        requires
            old(self)@.expects(event),
        ensures
            (final(self)@, action) == old(self)@.next(event),
    {
        match self.phase {
            ApplyPhase::Checking(i) => match event {
                ApplyEvent::Presence(present) => {
                    self.all_present = self.all_present && present;
                    if i + 1 < self.rule_count {
                        self.phase = ApplyPhase::Checking(i + 1);
                        ApplyAction::CheckRule(i + 1)
                    } else {
                        self.phase = ApplyPhase::Counting;
                        ApplyAction::CountOwned
                    }
                },
                _ => self.undo(),
            },
            ApplyPhase::Counting => match event {
                ApplyEvent::Owned(owned) => {
                    if self.all_present && owned == self.rule_count {
                        self.ensure(0)
                    } else {
                        self.phase = ApplyPhase::Sweeping;
                        ApplyAction::RemoveOwned
                    }
                },
                _ => self.undo(),
            },
            ApplyPhase::Sweeping => match event {
                ApplyEvent::Done => self.ensure(0),
                _ => self.undo(),
            },
            ApplyPhase::Ensuring(i) => match event {
                ApplyEvent::Presence(present) => {
                    if present {
                        self.ensure(i + 1)
                    } else {
                        self.phase = ApplyPhase::Adding(i);
                        ApplyAction::AddRule(i)
                    }
                },
                _ => self.undo(),
            },
            ApplyPhase::Adding(i) => match event {
                ApplyEvent::Done => {
                    self.added.push(i);
                    self.ensure(i + 1)
                },
                _ => self.undo(),
            },
            ApplyPhase::Forwarding => match event {
                ApplyEvent::Done => {
                    self.phase = ApplyPhase::Over;
                    ApplyAction::Succeed
                },
                _ => self.undo(),
            },
            ApplyPhase::Undoing => self.undo(),
            ApplyPhase::Unmarking => self.look(),
            ApplyPhase::Looking => match event {
                ApplyEvent::Markers(false) => {
                    self.phase = ApplyPhase::Restoring;
                    ApplyAction::RestoreForwarding
                },
                _ => {
                    self.phase = ApplyPhase::Over;
                    ApplyAction::GiveUp
                },
            },
            ApplyPhase::Restoring => {
                self.phase = ApplyPhase::Forgetting;
                ApplyAction::RemoveOriginal
            },
            ApplyPhase::Forgetting => {
                self.phase = ApplyPhase::Over;
                ApplyAction::GiveUp
            },
            ApplyPhase::Over => {
                assert(false);
                ApplyAction::GiveUp
            },
        }
    }
}

/// Nothing is taken back that this application did not change: a rule is
/// deleted only if it was added, the marker removed only if it is new, and the
/// recorded setting only if it is new.
pub proof fn only_own_changes_are_taken_back(before: ApplyModel, event: ApplyEvent)
    requires
        before.expects(event),
    ensures
        before.next(event).1 matches ApplyAction::DeleteRule(rule) ==> before.added.len() > 0
            && rule == before.added.last(),
        before.next(event).1 is RemoveMarker ==> before.marker_created,
        before.next(event).1 is LookForMarkers ==> before.original_created,
{
}

/// A failure after some rules were added takes them back one by one, newest
/// first, before anything else.
pub proof fn added_rules_are_taken_back_newest_first(before: ApplyModel, event: ApplyEvent)
    requires
        before.expects(event),
        before.phase == ApplyPhase::Undoing || (event is Failed && (before.phase is Adding
            || before.phase is Ensuring || before.phase is Forwarding)),
        before.added.len() > 0,
    ensures
        before.next(event).1 == ApplyAction::DeleteRule(before.added.last()),
        before.next(event).0.added == before.added.drop_last(),
        before.next(event).0.phase == ApplyPhase::Undoing,
{
}

/// Where an application stands after these events, and what it asks for.
pub open spec fn run_of(started: (ApplyModel, ApplyAction), events: Seq<ApplyEvent>) -> (
    ApplyModel,
    ApplyAction,
)
    decreases events.len(),
{
    if events.len() == 0 {
        started
    } else {
        run_of(started, events.drop_last()).0.next(events.last())
    }
}

/// Whether each event can follow the action before it.
pub open spec fn is_run(started: (ApplyModel, ApplyAction), events: Seq<ApplyEvent>) -> bool
    decreases events.len(),
{
    events.len() == 0 || (is_run(started, events.drop_last()) && run_of(
        started,
        events.drop_last(),
    ).0.expects(events.last()))
}

/// Whether event `j` says that a rule is in force: it was found present, after
/// all owned rules that did not fit were removed, or was added.
pub open spec fn settles(
    started: (ApplyModel, ApplyAction),
    events: Seq<ApplyEvent>,
    j: int,
    rule: int,
) -> bool {
    let phase = run_of(started, events.take(j)).0.phase;
    0 <= j < events.len() && {
        ||| phase == ApplyPhase::Ensuring(rule as usize) && events[j] == ApplyEvent::Presence(true)
        ||| phase == ApplyPhase::Adding(rule as usize) && events[j] == ApplyEvent::Done
    }
}

/// Whether some event says that a rule is in force.
pub open spec fn settled(
    started: (ApplyModel, ApplyAction),
    events: Seq<ApplyEvent>,
    rule: int,
) -> bool {
    exists|j: int| #[trigger] settles(started, events, j, rule)
}

/// Whether each of the first `n` rules is in force.
pub open spec fn all_settled(
    started: (ApplyModel, ApplyAction),
    events: Seq<ApplyEvent>,
    n: int,
) -> bool {
    forall|rule: int| 0 <= rule < n ==> #[trigger] settled(started, events, rule)
}

/// Whether forwarding is on: it was before, or the last event says that it was
/// enabled.
pub open spec fn forwards(started: (ApplyModel, ApplyAction), events: Seq<ApplyEvent>) -> bool {
    started.0.forwarding_enabled || (events.len() > 0 && events.last() == ApplyEvent::Done
        && run_of(started, events.drop_last()).1 == ApplyAction::EnableForwarding)
}

/// An application succeeds only after each rule of the plan was found present
/// or was added, and after forwarding was found on or was enabled.
pub proof fn success_puts_the_whole_plan_in_force(
    rule_count: usize,
    forwarding_enabled: bool,
    original_created: bool,
    marker_created: bool,
    events: Seq<ApplyEvent>,
)
    requires
        is_run(
            ApplyModel::started(rule_count, forwarding_enabled, original_created, marker_created),
            events,
        ),
    ensures
        ({
            let started = ApplyModel::started(
                rule_count,
                forwarding_enabled,
                original_created,
                marker_created,
            );
            run_of(started, events).1 == ApplyAction::Succeed ==> all_settled(
                started,
                events,
                rule_count as int,
            ) && forwards(started, events)
        }),
{
    let started = ApplyModel::started(
        rule_count,
        forwarding_enabled,
        original_created,
        marker_created,
    );
    lemma_progress(started, rule_count, events);
}

/// What each phase of an application tells of the rules.
spec fn progressed(started: (ApplyModel, ApplyAction), events: Seq<ApplyEvent>) -> bool {
    let (model, action) = run_of(started, events);
    let n = model.rule_count as int;
    &&& model.rule_count == started.0.rule_count
    &&& model.forwarding_enabled == started.0.forwarding_enabled
    &&& action == ApplyAction::EnableForwarding <==> model.phase == ApplyPhase::Forwarding
    &&& match model.phase {
        ApplyPhase::Ensuring(i) => i < n && all_settled(started, events, i as int),
        ApplyPhase::Adding(i) => i < n && all_settled(started, events, i as int),
        ApplyPhase::Forwarding => all_settled(started, events, n),
        _ => true,
    }
    &&& action == ApplyAction::Succeed ==> all_settled(started, events, n) && forwards(
        started,
        events,
    )
}

proof fn lemma_progress(
    started: (ApplyModel, ApplyAction),
    rule_count: usize,
    events: Seq<ApplyEvent>,
)
    requires
        is_run(started, events),
        started.0.rule_count == rule_count,
        started.0.phase is Checking || started.0.phase is Counting,
        started.1 is CheckRule || started.1 is CountOwned,
    ensures
        progressed(started, events),
    decreases events.len(),
{
    if events.len() > 0 {
        let before = events.drop_last();
        let last = events.len() - 1;
        lemma_progress(started, rule_count, before);
        assert(events.take(last) =~= before);
        assert forall|j: int, rule: int| #[trigger] settles(started, before, j, rule) implies settles(
            started,
            events,
            j,
            rule,
        ) by {
            assert(events.take(j) =~= before.take(j));
        }
        assert forall|rule: int| #[trigger] settled(started, before, rule) implies settled(
            started,
            events,
            rule,
        ) by {
            let j = choose|j: int| #[trigger] settles(started, before, j, rule);
            assert(settles(started, events, j, rule));
        }
        assert forall|n: int| #[trigger] all_settled(started, before, n) implies all_settled(
            started,
            events,
            n,
        ) by {
            assert forall|rule: int| 0 <= rule < n implies #[trigger] settled(
                started,
                events,
                rule,
            ) by {
                assert(settled(started, before, rule));
            }
        }
        let model = run_of(started, before).0;
        match model.phase {
            ApplyPhase::Ensuring(i) => {
                assert(events.last() == ApplyEvent::Presence(true) ==> settles(
                    started,
                    events,
                    last,
                    i as int,
                ));
            },
            ApplyPhase::Adding(i) => {
                assert(events.last() == ApplyEvent::Done ==> settles(
                    started,
                    events,
                    last,
                    i as int,
                ));
            },
            _ => {},
        }
    }
}

// ---------------------------------------------------------------------------
// Removing the gateway.
// ---------------------------------------------------------------------------

/// How far the removal of a gateway has come.
#[derive(Clone, Copy, Debug, Eq, PartialEq, Structural)]
pub enum RemovePhase {
    /// Removing all owned rules.
    Sweeping,
    /// Asking whether the gateway's marker exists.
    FindingMarker,
    /// Removing the marker.
    Unmarking,
    /// Asking whether the original forwarding setting is recorded.
    FindingOriginal,
    /// Asking whether another gateway still has a marker.
    Looking,
    /// Reading the recorded setting.
    Reading,
    /// Restoring the setting.
    Restoring,
    /// Forgetting the recorded setting.
    Forgetting,
    /// Nothing is left to do.
    Over,
}

/// What the adapter has to report. A failure has no event: it ends the removal.
#[derive(Debug)]
pub enum RemoveEvent {
    /// How many owned rules were removed.
    Removed(usize),
    /// Whether the file, or a marker, exists.
    Exists(bool),
    /// What the file holds.
    Contents(String),
    Done,
}

/// An event with its text as a sequence.
pub enum RemoveEventModel {
    Removed(usize),
    Exists(bool),
    Contents(Seq<char>),
    Done,
}

impl View for RemoveEvent {
    type V = RemoveEventModel;

    open spec fn view(&self) -> RemoveEventModel {
        match *self {
            RemoveEvent::Removed(removed) => RemoveEventModel::Removed(removed),
            RemoveEvent::Exists(found) => RemoveEventModel::Exists(found),
            RemoveEvent::Contents(text) => RemoveEventModel::Contents(text@),
            RemoveEvent::Done => RemoveEventModel::Done,
        }
    }
}

/// What the adapter has to do.
#[derive(Debug)]
pub enum RemoveAction {
    RemoveOwned,
    FindMarker,
    RemoveMarker,
    FindOriginal,
    LookForMarkers,
    ReadOriginal,
    /// Set forwarding to this value.
    RestoreForwarding(String),
    RemoveOriginal,
    /// The gateway is removed; print these lines.
    Report(Vec<String>),
}

/// An action with its texts as sequences.
pub enum RemoveActionModel {
    RemoveOwned,
    FindMarker,
    RemoveMarker,
    FindOriginal,
    LookForMarkers,
    ReadOriginal,
    RestoreForwarding(Seq<char>),
    RemoveOriginal,
    Report(Seq<Seq<char>>),
}

impl View for RemoveAction {
    type V = RemoveActionModel;

    open spec fn view(&self) -> RemoveActionModel {
        match *self {
            RemoveAction::RemoveOwned => RemoveActionModel::RemoveOwned,
            RemoveAction::FindMarker => RemoveActionModel::FindMarker,
            RemoveAction::RemoveMarker => RemoveActionModel::RemoveMarker,
            RemoveAction::FindOriginal => RemoveActionModel::FindOriginal,
            RemoveAction::LookForMarkers => RemoveActionModel::LookForMarkers,
            RemoveAction::ReadOriginal => RemoveActionModel::ReadOriginal,
            RemoveAction::RestoreForwarding(value) => RemoveActionModel::RestoreForwarding(value@),
            RemoveAction::RemoveOriginal => RemoveActionModel::RemoveOriginal,
            RemoveAction::Report(lines) => RemoveActionModel::Report(texts(lines@)),
        }
    }
}

/// The removal of a gateway, with what it has done so far.
pub struct GatewayRemoval {
    removed: usize,
    restored: Option<String>,
    phase: RemovePhase,
}

/// The removal of a gateway as plain values.
pub struct RemovalModel {
    pub removed: usize,
    pub restored: Option<Seq<char>>,
    pub phase: RemovePhase,
}

impl View for GatewayRemoval {
    type V = RemovalModel;

    closed spec fn view(&self) -> RemovalModel {
        RemovalModel {
            removed: self.removed,
            restored: match self.restored {
                Some(value) => Some(value@),
                None => None,
            },
            phase: self.phase,
        }
    }
}

impl RemovalModel {
    pub open spec fn at(self, phase: RemovePhase) -> RemovalModel {
        RemovalModel { phase, ..self }
    }

    /// Ends the removal with its report.
    pub open spec fn end(self) -> (RemovalModel, RemoveActionModel) {
        (
            self.at(RemovePhase::Over),
            RemoveActionModel::Report(removed_text(self.removed, self.restored)),
        )
    }

    /// Whether an event can follow the last action.
    pub open spec fn expects(self, event: RemoveEventModel) -> bool {
        match self.phase {
            RemovePhase::Sweeping => event is Removed,
            RemovePhase::FindingMarker => event is Exists,
            RemovePhase::Unmarking => event is Done,
            RemovePhase::FindingOriginal => event is Exists,
            RemovePhase::Looking => event is Exists,
            RemovePhase::Reading => event is Contents,
            RemovePhase::Restoring => event is Done,
            RemovePhase::Forgetting => event is Done,
            RemovePhase::Over => false,
        }
    }

    /// What follows an event. The recorded forwarding setting is restored, if
    /// it is one at all, and forgotten, as soon as no gateway needs it.
    pub open spec fn next(self, event: RemoveEventModel) -> (RemovalModel, RemoveActionModel) {
        match (self.phase, event) {
            (RemovePhase::Sweeping, RemoveEventModel::Removed(removed)) => (
                (RemovalModel { removed, ..self }).at(RemovePhase::FindingMarker),
                RemoveActionModel::FindMarker,
            ),
            (RemovePhase::FindingMarker, RemoveEventModel::Exists(true)) => (
                self.at(RemovePhase::Unmarking),
                RemoveActionModel::RemoveMarker,
            ),
            (RemovePhase::FindingMarker, _) => (
                self.at(RemovePhase::FindingOriginal),
                RemoveActionModel::FindOriginal,
            ),
            (RemovePhase::Unmarking, _) => (
                self.at(RemovePhase::FindingOriginal),
                RemoveActionModel::FindOriginal,
            ),
            (RemovePhase::FindingOriginal, RemoveEventModel::Exists(true)) => (
                self.at(RemovePhase::Looking),
                RemoveActionModel::LookForMarkers,
            ),
            (RemovePhase::Looking, RemoveEventModel::Exists(false)) => (
                self.at(RemovePhase::Reading),
                RemoveActionModel::ReadOriginal,
            ),
            (RemovePhase::Reading, RemoveEventModel::Contents(text)) => {
                let setting = crate::text::trimmed(text, CharClass::WhiteSpace);
                if setting == "0"@ || setting == "1"@ {
                    (
                        (RemovalModel { restored: Some(setting), ..self }).at(
                            RemovePhase::Restoring,
                        ),
                        RemoveActionModel::RestoreForwarding(setting),
                    )
                } else {
                    (self.at(RemovePhase::Forgetting), RemoveActionModel::RemoveOriginal)
                }
            },
            (RemovePhase::Restoring, _) => (
                self.at(RemovePhase::Forgetting),
                RemoveActionModel::RemoveOriginal,
            ),
            _ => self.end(),
        }
    }
}

impl GatewayRemoval {
    /// Starts removing a gateway.
    pub fn start() -> (started: (GatewayRemoval, RemoveAction))
        ensures
            started.0@ == (RemovalModel { removed: 0, restored: None, phase: RemovePhase::Sweeping }),
            started.1 is RemoveOwned,
    {
        (
            GatewayRemoval { removed: 0, restored: None, phase: RemovePhase::Sweeping },
            RemoveAction::RemoveOwned,
        )
    }

    fn end(&mut self) -> (action: RemoveAction)
        ensures
            (final(self)@, action@) == old(self)@.end(),
    {
        self.phase = RemovePhase::Over;
        let restored = match &self.restored {
            Some(value) => Some(value.as_str()),
            None => None,
        };
        RemoveAction::Report(removed_lines(self.removed, restored))
    }

    /// What to do after an event.
    pub fn next(&mut self, event: RemoveEvent) -> (action: RemoveAction)
        requires
            old(self)@.expects(event@),
        ensures
            (final(self)@, action@) == old(self)@.next(event@),
    {
        match (self.phase, event) {
            (RemovePhase::Sweeping, RemoveEvent::Removed(removed)) => {
                self.removed = removed;
                self.phase = RemovePhase::FindingMarker;
                RemoveAction::FindMarker
            },
            (RemovePhase::FindingMarker, RemoveEvent::Exists(true)) => {
                self.phase = RemovePhase::Unmarking;
                RemoveAction::RemoveMarker
            },
            (RemovePhase::FindingMarker, _) => {
                self.phase = RemovePhase::FindingOriginal;
                RemoveAction::FindOriginal
            },
            (RemovePhase::Unmarking, _) => {
                self.phase = RemovePhase::FindingOriginal;
                RemoveAction::FindOriginal
            },
            (RemovePhase::FindingOriginal, RemoveEvent::Exists(true)) => {
                self.phase = RemovePhase::Looking;
                RemoveAction::LookForMarkers
            },
            (RemovePhase::Looking, RemoveEvent::Exists(false)) => {
                self.phase = RemovePhase::Reading;
                RemoveAction::ReadOriginal
            },
            (RemovePhase::Reading, RemoveEvent::Contents(text)) => match forwarding_to_restore(
                text.as_str(),
            ) {
                Some(setting) => {
                    self.restored = Some(setting.clone());
                    self.phase = RemovePhase::Restoring;
                    RemoveAction::RestoreForwarding(setting)
                },
                None => {
                    self.phase = RemovePhase::Forgetting;
                    RemoveAction::RemoveOriginal
                },
            },
            (RemovePhase::Restoring, _) => {
                self.phase = RemovePhase::Forgetting;
                RemoveAction::RemoveOriginal
            },
            _ => self.end(),
        }
    }
}

/// A removal restores forwarding only where the original setting is recorded
/// and no gateway has a marker left.
pub proof fn shared_forwarding_is_left_alone(before: RemovalModel, event: RemoveEventModel)
    requires
        before.expects(event),
    ensures
        before.next(event).1 is RestoreForwarding ==> before.phase is Reading,
        before.next(event).0.phase is Reading ==> before.phase is Looking && event
            == RemoveEventModel::Exists(false),
        before.next(event).0.phase is Looking ==> before.phase is FindingOriginal && event
            == RemoveEventModel::Exists(true),
        before.next(event).0.restored != before.restored ==> before.next(event).1
            is RestoreForwarding,
{
}

// ---------------------------------------------------------------------------
// Checking the gateway.
// ---------------------------------------------------------------------------

/// Why a plan cannot be applied to the interfaces as they are.
#[derive(Debug)]
pub enum PreflightError {
    /// The network interface does not exist.
    NoInterface(String),
    /// The tunnel interface's MTU is not the configured one; the MSS would be
    /// unsafe.
    WrongMtu { actual: u16, expected: u16 },
}

#[derive(Debug)]
pub struct GatewayStatus {
    pub forwarding_enabled: bool,
    pub lan_interface_exists: bool,
    pub tunnel_interface_exists: bool,
    pub tunnel_mtu: Option<u16>,
    pub expected_tunnel_mtu: u16,
    pub state_recorded: bool,
    pub owned_rule_count: usize,
    pub expected_rule_count: usize,
    pub rules: Vec<(&'static str, bool)>,
}

impl GatewayStatus {
    /// Whether everything is as it should be.
    pub fn healthy(&self) -> (r: bool)
        ensures
            r == {
                &&& self.forwarding_enabled
                &&& self.lan_interface_exists
                &&& self.tunnel_interface_exists
                &&& self.tunnel_mtu == Some(self.expected_tunnel_mtu)
                &&& self.state_recorded
                &&& self.owned_rule_count == self.expected_rule_count
                &&& forall|i: int|
                    #![trigger self.rules@[i]]
                    0 <= i < self.rules@.len() ==> self.rules@[i].1
            },
    {
        let mut i: usize = 0;
        while i < self.rules.len()
            invariant
                i <= self.rules.len(),
                forall|j: int|
                    #![trigger self.rules@[j]]
                    0 <= j < i ==> self.rules@[j].1,
            decreases self.rules.len() - i,
        {
            if !self.rules[i].1 {
                return false;
            }
            i = i + 1;
        }
        let mtu_matches = match self.tunnel_mtu {
            Some(actual) => actual == self.expected_tunnel_mtu,
            None => false,
        };
        self.forwarding_enabled && self.lan_interface_exists && self.tunnel_interface_exists
            && mtu_matches && self.state_recorded && self.owned_rule_count
            == self.expected_rule_count
    }
}

/// What was found out about a gateway's system state.
pub struct GatewayFindings {
    /// The forwarding setting as read, without white space around it.
    pub forwarding: String,
    pub lan_interface_exists: bool,
    /// The tunnel interface's MTU, if the interface exists.
    pub tunnel_mtu: Option<u16>,
    pub state_recorded: bool,
    pub owned_rule_count: usize,
    /// For each rule of the plan, whether it is present.
    pub rules_present: Vec<bool>,
}

impl GatewayPlan {
    /// The status of a gateway, from what was found out.
    pub fn status(&self, findings: &GatewayFindings) -> (status: GatewayStatus)
        requires
            findings.rules_present@.len() == self.rules@.len(),
        ensures
            status.forwarding_enabled == (findings.forwarding@ == "1"@),
            status.lan_interface_exists == findings.lan_interface_exists,
            status.tunnel_interface_exists == (findings.tunnel_mtu is Some),
            status.tunnel_mtu == findings.tunnel_mtu,
            status.expected_tunnel_mtu == self.tunnel_mtu,
            status.state_recorded == findings.state_recorded,
            status.owned_rule_count == findings.owned_rule_count,
            status.expected_rule_count == self.rules@.len(),
            status.rules@.len() == self.rules@.len(),
            forall|i: int|
                #![trigger status.rules@[i]]
                0 <= i < self.rules@.len() ==> status.rules@[i].0@ == self.rules@[i].description@
                    && status.rules@[i].1 == findings.rules_present@[i],
    {
        let mut rules: Vec<(&'static str, bool)> = Vec::new();
        let mut i: usize = 0;
        while i < self.rules.len()
            invariant
                i <= self.rules.len(),
                findings.rules_present@.len() == self.rules@.len(),
                rules@.len() == i,
                forall|j: int|
                    #![trigger rules@[j]]
                    0 <= j < i ==> rules@[j].0@ == self.rules@[j].description@ && rules@[j].1
                        == findings.rules_present@[j],
            decreases self.rules.len() - i,
        {
            rules.push((self.rules[i].description, findings.rules_present[i]));
            i = i + 1;
        }
        GatewayStatus {
            forwarding_enabled: same_text(findings.forwarding.as_str(), "1"),
            lan_interface_exists: findings.lan_interface_exists,
            tunnel_interface_exists: findings.tunnel_mtu.is_some(),
            tunnel_mtu: findings.tunnel_mtu,
            expected_tunnel_mtu: self.tunnel_mtu,
            state_recorded: findings.state_recorded,
            owned_rule_count: findings.owned_rule_count,
            expected_rule_count: self.rules.len(),
            rules,
        }
    }

    /// Checks the interfaces before anything is changed: both must exist, and
    /// the tunnel's MTU must be the configured one.
    pub fn preflight_interfaces(
        &self,
        lan_interface_exists: bool,
        tunnel_mtu: Option<u16>,
    ) -> (checked: Result<(), PreflightError>)
        ensures
            match checked {
                Ok(_) => lan_interface_exists && tunnel_mtu == Some(self.tunnel_mtu),
                Err(PreflightError::NoInterface(name)) => if !lan_interface_exists {
                    name@ == self.lan_interface@
                } else {
                    tunnel_mtu is None && name@ == self.tunnel_interface@
                },
                Err(PreflightError::WrongMtu { actual, expected }) => lan_interface_exists
                    && tunnel_mtu == Some(actual) && actual != self.tunnel_mtu && expected
                    == self.tunnel_mtu,
            },
    {
        if !lan_interface_exists {
            return Err(PreflightError::NoInterface(self.lan_interface.clone()));
        }
        match tunnel_mtu {
            None => Err(PreflightError::NoInterface(self.tunnel_interface.clone())),
            Some(actual) => if actual != self.tunnel_mtu {
                Err(PreflightError::WrongMtu { actual, expected: self.tunnel_mtu })
            } else {
                Ok(())
            },
        }
    }
}

// ---------------------------------------------------------------------------
// Reports.
// ---------------------------------------------------------------------------

/// `OK` for success and `FAIL` for failure.
pub open spec fn result_text(success: bool) -> Seq<char> {
    if success {
        "OK"@
    } else {
        "FAIL"@
    }
}

fn result_word(success: bool) -> (word: &'static str)
    ensures
        word@ == result_text(success),
{
    if success {
        "OK"
    } else {
        "FAIL"
    }
}

/// A label followed by a text.
fn labelled(label: &str, text: &str) -> (line: String)
    ensures
        line@ == label@ + text@,
{
    let mut line = label.to_owned();
    line.append(text);
    line
}

/// The command lines that add the first `n` rules, each indented.
pub open spec fn addition_lines(rules: Seq<RuleModel>, n: int) -> Seq<Seq<char>>
    decreases n,
{
    if n <= 0 {
        seq![]
    } else {
        addition_lines(rules, n - 1).push(
            "  "@ + ("iptables "@ + crate::text::joined(rules[n - 1].command("-A"@), " "@)),
        )
    }
}

/// The lines that report on the first `n` rules of a status.
pub open spec fn presence_lines(rules: Seq<(&'static str, bool)>, n: int) -> Seq<Seq<char>>
    decreases n,
{
    if n <= 0 {
        seq![]
    } else {
        presence_lines(rules, n - 1).push(
            result_text(rules[n - 1].1) + " "@ + rules[n - 1].0@,
        )
    }
}

impl GatewayStatus {
    /// The line that compares the tunnel's MTU with the configured one.
    pub open spec fn mtu_line(self) -> Seq<char> {
        let expected = crate::text::decimal_text(self.expected_tunnel_mtu as nat);
        match self.tunnel_mtu {
            Some(actual) => if actual == self.expected_tunnel_mtu {
                "OK tunnel MTU "@ + crate::text::decimal_text(actual as nat)
            } else {
                "FAIL tunnel MTU "@ + crate::text::decimal_text(actual as nat)
                    + "; configuration expects "@ + expected
            },
            None => "FAIL tunnel MTU unavailable; configuration expects "@ + expected,
        }
    }

    /// The line that compares the number of owned rules with the planned one.
    pub open spec fn owned_line(self) -> Seq<char> {
        let owned = crate::text::decimal_text(self.owned_rule_count as nat);
        if self.owned_rule_count == self.expected_rule_count {
            "OK "@ + owned + " owned firewall rules"@
        } else {
            "FAIL found "@ + owned + " owned firewall rules; expected exactly "@
                + crate::text::decimal_text(self.expected_rule_count as nat)
        }
    }
}

impl GatewayPlan {
    /// The lines that describe the plan.
    pub open spec fn plan_text(self) -> Seq<Seq<char>> {
        seq![
            "HushWire gateway plan"@,
            "LAN interface: "@ + self.lan_interface@,
            "Tunnel interface: "@ + self.tunnel_interface@,
            "Tunnel MTU: "@ + crate::text::decimal_text(self.tunnel_mtu as nat),
            "TCP MSS: "@ + crate::text::decimal_text(self.tcp_mss as nat) + " ("@ + (
            if self.tcp_mss_is_explicit {
                "explicit"@
            } else {
                "automatic: tunnel MTU - 40"@
            }) + ")"@,
            "Rule owner: "@ + self.owner_tag@,
            ""@,
            "Changes when applied:"@,
            "  enable net.ipv4.ip_forward"@,
        ] + addition_lines(rule_models(self.rules@), self.rules@.len() as int) + seq![
            ""@,
            "No changes made by plan."@,
        ]
    }

    /// The lines that describe the plan.
    pub fn plan_lines(&self) -> (list: Vec<String>)
        ensures
            texts(list@) == self.plan_text(),
    {
        let mut list: Vec<String> = Vec::new();
        push_text(&mut list, "HushWire gateway plan");
        push_string(&mut list, labelled("LAN interface: ", self.lan_interface.as_str()));
        push_string(&mut list, labelled("Tunnel interface: ", self.tunnel_interface.as_str()));
        push_string(&mut list, labelled("Tunnel MTU: ", decimal(self.tunnel_mtu as u64).as_str()));
        let mut mss = labelled("TCP MSS: ", decimal(self.tcp_mss as u64).as_str());
        mss.append(" (");
        if self.tcp_mss_is_explicit {
            mss.append("explicit");
        } else {
            mss.append("automatic: tunnel MTU - 40");
        }
        mss.append(")");
        push_string(&mut list, mss);
        push_string(&mut list, labelled("Rule owner: ", self.owner_tag.as_str()));
        push_text(&mut list, "");
        push_text(&mut list, "Changes when applied:");
        push_text(&mut list, "  enable net.ipv4.ip_forward");
        let ghost head = texts(list@);
        let ghost rules = rule_models(self.rules@);
        let mut i: usize = 0;
        assert(head + addition_lines(rules, 0) =~= head);
        while i < self.rules.len()
            invariant
                i <= self.rules.len(),
                rules == rule_models(self.rules@),
                texts(list@) == head + addition_lines(rules, i as int),
            decreases self.rules.len() - i,
        {
            assert(rules[i as int] == self.rules@[i as int]@);
            push_string(&mut list, labelled("  ", self.rules[i].render("-A").as_str()));
            i = i + 1;
            assert(texts(list@) =~= head + addition_lines(rules, i as int));
        }
        push_text(&mut list, "");
        push_text(&mut list, "No changes made by plan.");
        assert(texts(list@) =~= self.plan_text());
        list
    }

    /// The lines that report a status. `fragmentation_failures` is the
    /// system's counter, where it could be read.
    pub open spec fn status_text(
        self,
        status: GatewayStatus,
        fragmentation_failures: Option<u64>,
    ) -> Seq<Seq<char>> {
        seq![
            "HushWire gateway status"@,
            result_text(status.forwarding_enabled) + " IPv4 forwarding"@,
            result_text(status.lan_interface_exists) + " LAN interface "@ + self.lan_interface@,
            result_text(status.tunnel_interface_exists) + " tunnel interface "@
                + self.tunnel_interface@,
            status.mtu_line(),
        ] + presence_lines(status.rules@, status.rules@.len() as int) + seq![
            status.owned_line(),
            (if status.state_recorded {
                "OK"@
            } else {
                "WARN"@
            }) + " gateway state record"@,
        ] + (match fragmentation_failures {
            Some(count) => seq![
                "INFO cumulative IPv4 fragmentation failures: "@ + crate::text::decimal_text(
                    count as nat,
                ),
            ],
            None => seq![],
        })
    }

    /// The lines that report a status.
    pub fn status_lines(
        &self,
        status: &GatewayStatus,
        fragmentation_failures: Option<u64>,
    ) -> (list: Vec<String>)
        ensures
            texts(list@) == self.status_text(*status, fragmentation_failures),
    {
        let mut list: Vec<String> = Vec::new();
        push_text(&mut list, "HushWire gateway status");
        push_string(
            &mut list,
            labelled(result_word(status.forwarding_enabled), " IPv4 forwarding"),
        );
        let mut lan = labelled(result_word(status.lan_interface_exists), " LAN interface ");
        lan.append(self.lan_interface.as_str());
        push_string(&mut list, lan);
        let mut tunnel = labelled(
            result_word(status.tunnel_interface_exists),
            " tunnel interface ",
        );
        tunnel.append(self.tunnel_interface.as_str());
        push_string(&mut list, tunnel);
        let expected = decimal(status.expected_tunnel_mtu as u64);
        let mtu = match status.tunnel_mtu {
            Some(actual) => if actual == status.expected_tunnel_mtu {
                labelled("OK tunnel MTU ", decimal(actual as u64).as_str())
            } else {
                let mut line = labelled("FAIL tunnel MTU ", decimal(actual as u64).as_str());
                line.append("; configuration expects ");
                line.append(expected.as_str());
                line
            },
            None => labelled(
                "FAIL tunnel MTU unavailable; configuration expects ",
                expected.as_str(),
            ),
        };
        push_string(&mut list, mtu);
        let ghost head = texts(list@);
        let mut i: usize = 0;
        assert(head + presence_lines(status.rules@, 0) =~= head);
        while i < status.rules.len()
            invariant
                i <= status.rules.len(),
                texts(list@) == head + presence_lines(status.rules@, i as int),
            decreases status.rules.len() - i,
        {
            let (description, present) = status.rules[i];
            let mut line = labelled(result_word(present), " ");
            line.append(description);
            push_string(&mut list, line);
            i = i + 1;
            assert(texts(list@) =~= head + presence_lines(status.rules@, i as int));
        }
        let owned = decimal(status.owned_rule_count as u64);
        let owned_line = if status.owned_rule_count == status.expected_rule_count {
            let mut line = labelled("OK ", owned.as_str());
            line.append(" owned firewall rules");
            line
        } else {
            let mut line = labelled("FAIL found ", owned.as_str());
            line.append(" owned firewall rules; expected exactly ");
            line.append(decimal(status.expected_rule_count as u64).as_str());
            line
        };
        push_string(&mut list, owned_line);
        push_string(
            &mut list,
            labelled(
                if status.state_recorded {
                    "OK"
                } else {
                    "WARN"
                },
                " gateway state record",
            ),
        );
        if let Some(count) = fragmentation_failures {
            push_string(
                &mut list,
                labelled(
                    "INFO cumulative IPv4 fragmentation failures: ",
                    decimal(count).as_str(),
                ),
            );
        }
        assert(texts(list@) =~= self.status_text(*status, fragmentation_failures));
        list
    }

    /// The lines that report that the plan is in force.
    pub fn applied_lines(&self) -> (list: Vec<String>)
        ensures
            texts(list@) == seq![
                "gateway applied"@,
                "  "@ + self.lan_interface@ + " -> "@ + self.tunnel_interface@,
                "  TCP MSS "@ + crate::text::decimal_text(self.tcp_mss as nat)
                    + " in both directions"@,
                "  "@ + crate::text::decimal_text(self.rules@.len())
                    + " owned firewall rules active"@,
            ],
    {
        let mut list: Vec<String> = Vec::new();
        push_text(&mut list, "gateway applied");
        let mut interfaces = labelled("  ", self.lan_interface.as_str());
        interfaces.append(" -> ");
        interfaces.append(self.tunnel_interface.as_str());
        push_string(&mut list, interfaces);
        let mut mss = labelled("  TCP MSS ", decimal(self.tcp_mss as u64).as_str());
        mss.append(" in both directions");
        push_string(&mut list, mss);
        let mut rules = labelled("  ", decimal(self.rules.len() as u64).as_str());
        rules.append(" owned firewall rules active");
        push_string(&mut list, rules);
        assert(texts(list@) =~= seq![
            "gateway applied"@,
            "  "@ + self.lan_interface@ + " -> "@ + self.tunnel_interface@,
            "  TCP MSS "@ + crate::text::decimal_text(self.tcp_mss as nat)
                + " in both directions"@,
            "  "@ + crate::text::decimal_text(self.rules@.len())
                + " owned firewall rules active"@,
        ]);
        list
    }
}

/// The lines that report a removal.
pub open spec fn removed_text(removed: usize, restored_forwarding: Option<Seq<char>>) -> Seq<
    Seq<char>,
> {
    seq![
        "gateway removed"@,
        "  removed "@ + crate::text::decimal_text(removed as nat) + " owned firewall rules"@,
        match restored_forwarding {
            Some(value) => "  restored net.ipv4.ip_forward="@ + value,
            None => "  left shared net.ipv4.ip_forward unchanged"@,
        },
    ]
}

pub fn removed_lines(removed: usize, restored_forwarding: Option<&str>) -> (list: Vec<String>)
    ensures
        texts(list@) == removed_text(
            removed,
            match restored_forwarding {
                Some(value) => Some(value@),
                None => None,
            },
        ),
{
    let mut list: Vec<String> = Vec::new();
    push_text(&mut list, "gateway removed");
    let mut count = labelled("  removed ", decimal(removed as u64).as_str());
    count.append(" owned firewall rules");
    push_string(&mut list, count);
    match restored_forwarding {
        Some(value) => {
            push_string(&mut list, labelled("  restored net.ipv4.ip_forward=", value));
        },
        None => {
            push_text(&mut list, "  left shared net.ipv4.ip_forward unchanged");
        },
    }
    assert(texts(list@) =~= removed_text(
        removed,
        match restored_forwarding {
            Some(value) => Some(value@),
            None => None,
        },
    ));
    list
}

/// The forwarding setting to restore: the recorded one, if it is one at all.
pub fn forwarding_to_restore(recorded: &str) -> (value: Option<String>)
    ensures
        ({
            let setting = crate::text::trimmed(recorded@, CharClass::WhiteSpace);
            match value {
                Some(v) => v@ == setting && (setting == "0"@ || setting == "1"@),
                None => setting != "0"@ && setting != "1"@,
            }
        }),
{
    let chars = to_chars(recorded);
    let setting = trim(&chars, CharClass::WhiteSpace);
    if is_text(&setting, "0") || is_text(&setting, "1") {
        Some(from_chars(setting.as_slice()))
    } else {
        None
    }
}

/// A text without the white space around it.
pub fn trimmed_text(text: &str) -> (inner: String)
    ensures
        inner@ == crate::text::trimmed(text@, CharClass::WhiteSpace),
{
    let chars = to_chars(text);
    from_chars(trim(&chars, CharClass::WhiteSpace).as_slice())
}

/// The argument of `sysctl -w` that sets forwarding.
pub fn forwarding_assignment(value: &str) -> (argument: String)
    ensures
        argument@ == "net.ipv4.ip_forward="@ + value@,
{
    labelled("net.ipv4.ip_forward=", value)
}

/// The MTU that an interface's file in `/sys` states.
pub fn parse_interface_mtu(contents: &str) -> (mtu: Option<u16>)
    ensures
        ({
            let number = crate::text::number_of(
                crate::text::trimmed(contents@, CharClass::WhiteSpace),
                u16::MAX as nat,
            );
            match mtu {
                Some(value) => number == Some(value as nat),
                None => number is None,
            }
        }),
{
    let chars = to_chars(contents);
    match parse_number(&trim(&chars, CharClass::WhiteSpace), u16::MAX as u64) {
        Some(value) => Some(value as u16),
        None => None,
    }
}

// ---------------------------------------------------------------------------
// State files.
// ---------------------------------------------------------------------------

/// The ASCII digits among the first `n` characters.
pub open spec fn digits_in(text: Seq<char>, n: int) -> Seq<char>
    decreases n,
{
    if n <= 0 {
        seq![]
    } else if crate::text::is_digit(text[n - 1]) {
        digits_in(text, n - 1).push(text[n - 1])
    } else {
        digits_in(text, n - 1)
    }
}

/// The identifier of a network namespace, from the target of its link: the
/// digits in it, if there are any.
pub fn namespace_digits(target: &str) -> (digits: Option<String>)
    ensures
        match digits {
            Some(d) => d@ == digits_in(target@, target@.len() as int) && d@.len() > 0,
            None => digits_in(target@, target@.len() as int).len() == 0,
        },
{
    let chars = to_chars(target);
    let mut digits: Vec<char> = Vec::new();
    let mut i: usize = 0;
    while i < chars.len()
        invariant
            i <= chars.len(),
            chars@ == target@,
            digits@ == digits_in(target@, i as int),
        decreases chars.len() - i,
    {
        let c = chars[i];
        if c as u32 >= '0' as u32 && c as u32 <= '9' as u32 {
            digits.push(c);
        }
        i = i + 1;
    }
    if digits.len() == 0 {
        None
    } else {
        Some(from_chars(digits.as_slice()))
    }
}

/// The name of a gateway's state marker.
pub fn marker_file_name(namespace_id: &str, tunnel_interface: &str) -> (name: String)
    ensures
        name@ == "gateway-"@ + namespace_id@ + "-"@ + tunnel_interface@ + ".state"@,
{
    let mut name = labelled("gateway-", namespace_id);
    name.append("-");
    name.append(tunnel_interface);
    name.append(".state");
    name
}

/// The name of the file that records the forwarding setting as it was.
pub fn original_file_name(namespace_id: &str) -> (name: String)
    ensures
        name@ == "ip-forward-"@ + namespace_id@ + ".original"@,
{
    let mut name = labelled("ip-forward-", namespace_id);
    name.append(".original");
    name
}

/// The name of the lock file.
pub fn lock_file_name(namespace_id: &str) -> (name: String)
    ensures
        name@ == "gateway-"@ + namespace_id@ + ".lock"@,
{
    let mut name = labelled("gateway-", namespace_id);
    name.append(".lock");
    name
}

/// Whether a file name is that of some gateway's marker in a namespace.
pub open spec fn is_marker(name: Seq<char>, namespace_id: Seq<char>) -> bool {
    crate::text::begins_with(name, "gateway-"@ + namespace_id + "-"@) && crate::text::ends_with(
        name,
        ".state"@,
    )
}

/// Whether a file name is that of some gateway's marker in a namespace.
pub fn is_marker_file(name: &str, namespace_id: &str) -> (r: bool)
    ensures
        r == is_marker(name@, namespace_id@),
{
    let mut prefix = labelled("gateway-", namespace_id);
    prefix.append("-");
    let chars = to_chars(name);
    has_prefix(&chars, prefix.as_str()) && has_suffix(&chars, ".state")
}

/// What a gateway's marker says.
pub fn marker_contents(plan: &GatewayPlan, namespace_id: &str) -> (contents: String)
    ensures
        contents@ == "version=1\nnamespace="@ + namespace_id@ + "\nlan_interface="@
            + plan.lan_interface@ + "\ntunnel_interface="@ + plan.tunnel_interface@
            + "\ntunnel_mtu="@ + crate::text::decimal_text(plan.tunnel_mtu as nat) + "\ntcp_mss="@
            + crate::text::decimal_text(plan.tcp_mss as nat) + "\n"@,
{
    let mut contents = labelled("version=1\nnamespace=", namespace_id);
    contents.append("\nlan_interface=");
    contents.append(plan.lan_interface.as_str());
    contents.append("\ntunnel_interface=");
    contents.append(plan.tunnel_interface.as_str());
    contents.append("\ntunnel_mtu=");
    contents.append(decimal(plan.tunnel_mtu as u64).as_str());
    contents.append("\ntcp_mss=");
    contents.append(decimal(plan.tcp_mss as u64).as_str());
    contents.append("\n");
    contents
}

/// A gateway's own marker is recognised as a marker of its namespace.
pub proof fn own_marker_is_recognised(namespace_id: Seq<char>, tunnel_interface: Seq<char>)
    ensures
        is_marker(
            "gateway-"@ + namespace_id + "-"@ + tunnel_interface + ".state"@,
            namespace_id,
        ),
{
    let prefix = "gateway-"@ + namespace_id + "-"@;
    let name = prefix + tunnel_interface + ".state"@;
    assert(name.take(prefix.len() as int) =~= prefix);
    assert(name.skip(name.len() - ".state"@.len()) =~= ".state"@);
}

// ---------------------------------------------------------------------------
// Fragmentation failures.
// ---------------------------------------------------------------------------

/// Why the fragmentation counter could not be read out.
#[derive(Clone, Copy, Debug, Eq, PartialEq, Structural)]
pub enum SnmpError {
    /// The values are fewer than the names.
    FieldCountMismatch,
    /// The value is no number.
    NotANumber,
}

/// The first position of a word in a list, from `i` on.
pub open spec fn position_of(list: Seq<Seq<char>>, word: Seq<char>, i: int) -> Option<int>
    decreases list.len() - i,
{
    if i >= list.len() {
        None
    } else if list[i] == word {
        Some(i)
    } else {
        position_of(list, word, i + 1)
    }
}

/// The fragmentation counter that a line of names and a line of values state;
/// the first word of each is a label.
pub open spec fn counter_in(header: Seq<char>, values: Seq<char>) -> Result<
    Option<u64>,
    SnmpError,
> {
    let names = crate::text::words_of(header, CharClass::WhiteSpace);
    let fields = crate::text::words_of(values, CharClass::WhiteSpace);
    match position_of(names, "FragFails"@, 1) {
        None => Ok(None),
        Some(i) => if i >= fields.len() {
            Err(SnmpError::FieldCountMismatch)
        } else {
            match crate::text::number_of(fields[i], u64::MAX as nat) {
                Some(value) => Ok(Some(value as u64)),
                None => Err(SnmpError::NotANumber),
            }
        },
    }
}

/// The counter of the first pair of lines, from `i` on, that is about IP.
pub open spec fn counter_from(lines: Seq<Seq<char>>, i: int) -> Result<Option<u64>, SnmpError>
    decreases lines.len() - i,
{
    if i + 1 >= lines.len() {
        Ok(None)
    } else if crate::text::begins_with(lines[i], "Ip:"@) && crate::text::begins_with(
        lines[i + 1],
        "Ip:"@,
    ) {
        counter_in(lines[i], lines[i + 1])
    } else {
        counter_from(lines, i + 2)
    }
}

/// The counter of IPv4 fragmentation failures in the contents of
/// `/proc/net/snmp`, which lists names and values in pairs of lines.
pub fn parse_ip_frag_fails(contents: &str) -> (counter: Result<Option<u64>, SnmpError>)
    ensures
        counter == counter_from(crate::text::lines_of(contents@), 0),
{
    let chars = to_chars(contents);
    let list = lines(&chars);
    let ghost all = crate::text::lines_of(contents@);
    assert(all.len() == list@.len());
    let mut i: usize = 0;
    while i < list.len() && list.len() - i > 1
        invariant
            i <= list.len(),
            all == crate::text::word_texts(list@),
            all.len() == list@.len(),
            counter_from(all, 0) == counter_from(all, i as int),
            all == crate::text::lines_of(contents@),
        decreases list.len() - i,
    {
        assert(all[i as int] == list@[i as int]@);
        assert(all[i + 1] == list@[i + 1]@);
        if has_prefix(&list[i], "Ip:") && has_prefix(&list[i + 1], "Ip:") {
            return counter_of_lines(&list[i], &list[i + 1]);
        }
        i = i + 2;
    }
    Ok(None)
}

fn counter_of_lines(header: &Vec<char>, values: &Vec<char>) -> (counter: Result<
    Option<u64>,
    SnmpError,
>)
    ensures
        counter == counter_in(header@, values@),
{
    let names = words(header, CharClass::WhiteSpace);
    let fields = words(values, CharClass::WhiteSpace);
    let ghost all_names = crate::text::words_of(header@, CharClass::WhiteSpace);
    let ghost all_fields = crate::text::words_of(values@, CharClass::WhiteSpace);
    assert(all_names.len() == names@.len());
    assert(all_fields.len() == fields@.len());
    if names.len() == 0 {
        return Ok(None);
    }
    let mut i: usize = 1;
    while i < names.len()
        invariant
            1 <= i <= names.len(),
            all_names == crate::text::word_texts(names@),
            all_names == crate::text::words_of(header@, CharClass::WhiteSpace),
            all_fields == crate::text::word_texts(fields@),
            all_fields == crate::text::words_of(values@, CharClass::WhiteSpace),
            all_names.len() == names@.len(),
            all_fields.len() == fields@.len(),
            position_of(all_names, "FragFails"@, 1) == position_of(
                all_names,
                "FragFails"@,
                i as int,
            ),
        decreases names.len() - i,
    {
        assert(all_names[i as int] == names@[i as int]@);
        if is_text(&names[i], "FragFails") {
            if i >= fields.len() {
                return Err(SnmpError::FieldCountMismatch);
            }
            assert(all_fields[i as int] == fields@[i as int]@);
            return match parse_number(&fields[i], u64::MAX) {
                Some(value) => Ok(Some(value)),
                None => Err(SnmpError::NotANumber),
            };
        }
        i = i + 1;
    }
    Ok(None)
}

// ---------------------------------------------------------------------------
// Laws.
// ---------------------------------------------------------------------------

/// The rules of a gateway, one by one: connections have their MSS clamped in both
/// directions, what leaves by the tunnel is masqueraded, the LAN may reach the
/// tunnel, and replies may come back. Each rule carries the owner's tag.
pub proof fn gateway_rules_serve_both_directions(
    lan: Seq<char>,
    tunnel: Seq<char>,
    owner: Seq<char>,
    mss: u16,
)
    ensures
        ({
            let rules = gateway_rules(lan, tunnel, owner, mss);
            &&& rules.len() == 5
            &&& rules[0].location.table == Some("mangle"@) && rules[0].location.chain == "FORWARD"@
            &&& rules[0].spec_args.len() == 17 && rules[0].spec_args[1] == lan
                && rules[0].spec_args[3] == tunnel && rules[0].spec_args[12] == owner
                && rules[0].spec_args[14] == "TCPMSS"@ && rules[0].spec_args[16]
                == crate::text::decimal_text(mss as nat)
            &&& rules[1].location.table == Some("mangle"@) && rules[1].location.chain == "FORWARD"@
            &&& rules[1].spec_args.len() == 17 && rules[1].spec_args[1] == tunnel
                && rules[1].spec_args[3] == lan && rules[1].spec_args[12] == owner
                && rules[1].spec_args[14] == "TCPMSS"@ && rules[1].spec_args[16]
                == crate::text::decimal_text(mss as nat)
            &&& rules[2].location.table == Some("nat"@) && rules[2].location.chain
                == "POSTROUTING"@
            &&& rules[2].spec_args.len() == 8 && rules[2].spec_args[0] == "-o"@
                && rules[2].spec_args[1] == tunnel && rules[2].spec_args[5] == owner
                && rules[2].spec_args[7] == "MASQUERADE"@
            &&& rules[3].location.table is None && rules[3].location.chain == "FORWARD"@
            &&& rules[3].spec_args.len() == 10 && rules[3].spec_args[1] == lan
                && rules[3].spec_args[3] == tunnel && rules[3].spec_args[7] == owner
                && rules[3].spec_args[9] == "ACCEPT"@
            &&& rules[4].location.table is None && rules[4].location.chain == "FORWARD"@
            &&& rules[4].spec_args.len() == 14 && rules[4].spec_args[1] == tunnel
                && rules[4].spec_args[3] == lan && rules[4].spec_args[7] == "RELATED,ESTABLISHED"@
                && rules[4].spec_args[11] == owner && rules[4].spec_args[13] == "ACCEPT"@
        }),
{
}

proof fn lemma_joined_parts(left: Seq<Seq<char>>, right: Seq<Seq<char>>, separator: Seq<char>)
    requires
        left.len() > 0,
        right.len() > 0,
    ensures
        crate::text::joined(left + right, separator) == crate::text::joined(left, separator) + separator
            + crate::text::joined(right, separator),
    decreases right.len(),
{
    let all = left + right;
    if right.len() == 1 {
        assert(all.drop_last() =~= left);
        assert(all.last() == right[0]);
    } else {
        lemma_joined_parts(left, right.drop_last(), separator);
        assert(all.drop_last() =~= left + right.drop_last());
        assert(all.last() == right.last());
        assert(crate::text::joined(all, separator) =~= crate::text::joined(left, separator) + separator
            + crate::text::joined(right, separator));
    }
}

/// Whether a text can stand in a listing as one word, without quotation marks.
pub open spec fn is_plain_word(word: Seq<char>) -> bool {
    &&& word.len() > 0
    &&& forall|i: int| #![trigger word[i]] 0 <= i < word.len() ==> !CharClass::AsciiSpace.has(
        word[i],
    )
    &&& !CharClass::Quote.has(word[0]) && !CharClass::Quote.has(word.last())
}

/// A listed rule is recognised by its tag, whatever stands before the comment and
/// after it.
pub proof fn tagged_rules_are_recognised(before: Seq<char>, owner: Seq<char>, after: Seq<char>)
    requires
        is_plain_word(owner),
    ensures
        has_owner(before + " --comment "@ + owner + " "@ + after, owner),
{
    let class = CharClass::AsciiSpace;
    reveal_strlit(" --comment ");
    reveal_strlit("--comment");
    reveal_strlit(" ");
    let word = "--comment"@;
    let line = before + " --comment "@ + owner + " "@ + after;
    let tail = owner.push(' ') + after;
    let rest = word.push(' ') + tail;
    assert(line =~= before.push(' ') + rest);
    crate::text::separators_part_the_words(before, ' ', rest, class);
    crate::text::separators_part_the_words(word, ' ', tail, class);
    crate::text::separators_part_the_words(owner, ' ', after, class);
    crate::text::text_without_separators_is_one_word(word, class);
    crate::text::text_without_separators_is_one_word(owner, class);
    let first = crate::text::words_of(before, class);
    let last = crate::text::words_of(after, class);
    let words = crate::text::words_of(line, class);
    assert(words == first + (seq![word] + (seq![owner] + last)));
    let k = first.len() as int;
    assert(words[k] == word);
    assert(words[k + 1] == owner);
    let nothing = Seq::<char>::empty();
    crate::text::trimming_takes_the_ends_away(nothing, word, nothing, CharClass::Quote);
    crate::text::trimming_takes_the_ends_away(nothing, owner, nothing, CharClass::Quote);
    assert(nothing + word + nothing =~= word);
    assert(nothing + owner + nothing =~= owner);
    assert(line_tokens(line)[k] == word);
    assert(line_tokens(line)[k + 1] == owner);
}

/// Every rule that the plan adds is recognised as its own when it is listed with
/// the same arguments.
pub proof fn own_rules_are_recognised(
    lan: Seq<char>,
    tunnel: Seq<char>,
    owner: Seq<char>,
    mss: u16,
    k: int,
    start: Seq<char>,
)
    requires
        is_plain_word(owner),
        0 <= k < 5,
    ensures
        has_owner(
            start + crate::text::joined(gateway_rules(lan, tunnel, owner, mss)[k].spec_args, " "@),
            owner,
        ),
{
    let args = gateway_rules(lan, tunnel, owner, mss)[k].spec_args;
    gateway_rules_serve_both_directions(lan, tunnel, owner, mss);
    let at: int = if k < 2 {
        11
    } else if k == 2 {
        4
    } else if k == 3 {
        6
    } else {
        10
    };
    assert(args[at] == "--comment"@);
    assert(args[at + 1] == owner);
    let left = args.take(at);
    let middle = seq!["--comment"@, owner];
    let right = args.skip(at + 2);
    assert(args =~= left + (middle + right));
    lemma_joined_parts(left, middle + right, " "@);
    lemma_joined_parts(middle, right, " "@);
    assert(middle.drop_last() =~= seq!["--comment"@]);
    reveal_strlit(" --comment ");
    reveal_strlit("--comment");
    reveal_strlit(" ");
    assert(crate::text::joined(middle, " "@) == "--comment"@ + " "@ + owner) by {
        reveal_with_fuel(crate::text::joined, 3);
        assert(middle.last() == owner);
    }
    let text = crate::text::joined(left, " "@);
    let after = crate::text::joined(right, " "@);
    assert(start + crate::text::joined(args, " "@) =~= (start + text) + " --comment "@ + owner
        + " "@ + after);
    tagged_rules_are_recognised(start + text, owner, after);
}

/// Whether a listed line is owned.
pub open spec fn owned_by(owner: Seq<char>) -> spec_fn(Seq<char>) -> bool {
    |line: Seq<char>| has_owner(line, owner)
}

/// Whether a listed line is a rule.
pub open spec fn is_rule_line() -> spec_fn(Seq<char>) -> bool {
    |line: Seq<char>| crate::text::begins_with(line, "-A "@)
}

/// The owned rules are counted: as many as there are owned lines.
pub proof fn owned_lines_are_all_counted(lines: Seq<Seq<char>>, owner: Seq<char>, n: int)
    requires
        0 <= n <= lines.len(),
    ensures
        owned_count(lines, owner, n) == lines.take(n).filter(owned_by(owner)).len(),
    decreases n,
{
    reveal(Seq::filter);
    if n > 0 {
        owned_lines_are_all_counted(lines, owner, n - 1);
        assert(lines.take(n).drop_last() =~= lines.take(n - 1));
        assert(lines.take(n).last() == lines[n - 1]);
    }
}

/// The rule that is deleted is the first owned one, and its number is its place
/// among all rules of the chain; as long as there is one, one is found.
pub proof fn first_owned_rule_is_found(
    lines: Seq<Seq<char>>,
    owner: Seq<char>,
    i: int,
)
    requires
        0 <= i < lines.len(),
        crate::text::begins_with(lines[i], "-A "@) && has_owner(lines[i], owner),
        forall|j: int|
            #![trigger lines[j]]
            0 <= j < i ==> !(crate::text::begins_with(lines[j], "-A "@) && has_owner(
                lines[j],
                owner,
            )),
    ensures
        first_owned(lines, owner, 0, 0) == Some(
            lines.take(i).filter(is_rule_line()).len() as int + 1,
        ),
{
    reveal(Seq::filter);
    assert(lines.take(0).filter(is_rule_line()).len() == 0);
    lemma_first_owned(lines, owner, 0, i);
}

proof fn lemma_first_owned(lines: Seq<Seq<char>>, owner: Seq<char>, from: int, i: int)
    requires
        0 <= from <= i < lines.len(),
        crate::text::begins_with(lines[i], "-A "@) && has_owner(lines[i], owner),
        forall|j: int|
            #![trigger lines[j]]
            0 <= j < i ==> !(crate::text::begins_with(lines[j], "-A "@) && has_owner(
                lines[j],
                owner,
            )),
    ensures
        first_owned(
            lines,
            owner,
            from,
            lines.take(from).filter(is_rule_line()).len() as int,
        ) == Some(lines.take(i).filter(is_rule_line()).len() as int + 1),
    decreases i - from,
{
    reveal(Seq::filter);
    if from < i {
        lemma_first_owned(lines, owner, from + 1, i);
        assert(lines.take(from + 1).drop_last() =~= lines.take(from));
        assert(lines.take(from + 1).last() == lines[from]);
    }
}

/// Nothing is deleted where no rule is owned.
pub proof fn foreign_rules_are_spared(
    lines: Seq<Seq<char>>,
    owner: Seq<char>,
    i: int,
    count: int,
)
    requires
        0 <= i,
        forall|j: int| #![trigger lines[j]] 0 <= j < lines.len() ==> !has_owner(lines[j], owner),
    ensures
        first_owned(lines, owner, i, count) is None,
    decreases lines.len() - i,
{
    if i < lines.len() {
        foreign_rules_are_spared(lines, owner, i + 1, count);
        foreign_rules_are_spared(lines, owner, i + 1, count + 1);
        assert(!has_owner(lines[i], owner));
    }
}

/// Whether the run asked, before event `j` or at its end, for a rule to be
/// deleted.
pub open spec fn asks_to_delete(
    started: (ApplyModel, ApplyAction),
    events: Seq<ApplyEvent>,
    j: int,
    rule: int,
) -> bool {
    0 <= j <= events.len() && run_of(started, events.take(j)).1 == ApplyAction::DeleteRule(
        rule as usize,
    )
}

/// Whether event `j` says that a rule was added.
pub open spec fn adds(
    started: (ApplyModel, ApplyAction),
    events: Seq<ApplyEvent>,
    j: int,
    rule: int,
) -> bool {
    0 <= j < events.len() && run_of(started, events.take(j)).0.phase == ApplyPhase::Adding(
        rule as usize,
    ) && events[j] == ApplyEvent::Done
}

/// An application that is given up has asked for every rule that it added to be
/// deleted again.
pub proof fn failed_application_takes_every_rule_back(
    rule_count: usize,
    forwarding_enabled: bool,
    original_created: bool,
    marker_created: bool,
    events: Seq<ApplyEvent>,
    j: int,
    rule: int,
)
    requires
        ({
            let started = ApplyModel::started(
                rule_count,
                forwarding_enabled,
                original_created,
                marker_created,
            );
            &&& is_run(started, events)
            &&& run_of(started, events).1 == ApplyAction::GiveUp
            &&& adds(started, events, j, rule)
            &&& 0 <= rule < rule_count
        }),
    ensures
        exists|k: int| #[trigger]
            asks_to_delete(
                ApplyModel::started(
                    rule_count,
                    forwarding_enabled,
                    original_created,
                    marker_created,
                ),
                events,
                k,
                rule,
            ),
{
    let started = ApplyModel::started(
        rule_count,
        forwarding_enabled,
        original_created,
        marker_created,
    );
    lemma_added_or_deleted(started, events, j, rule);
    lemma_nothing_left_at_the_end(started, events);
}

proof fn lemma_added_or_deleted(
    started: (ApplyModel, ApplyAction),
    events: Seq<ApplyEvent>,
    j: int,
    rule: int,
)
    requires
        is_run(started, events),
        adds(started, events, j, rule),
        0 <= rule <= usize::MAX,
    ensures
        run_of(started, events).0.added.contains(rule as usize) || exists|k: int| #[trigger]
            asks_to_delete(started, events, k, rule),
    decreases events.len(),
{
    let before = events.drop_last();
    let last = events.len() - 1;
    let model = run_of(started, before).0;
    let after = run_of(started, events);
    assert(events.take(last) =~= before);
    assert(events.take(events.len() as int) =~= events);
    if j == last {
        assert(after.0.added =~= model.added.push(rule as usize));
        assert(after.0.added[after.0.added.len() - 1] == rule as usize);
    } else {
        assert(before.take(j) =~= events.take(j));
        assert(adds(started, before, j, rule));
        lemma_added_or_deleted(started, before, j, rule);
        if exists|k: int| #[trigger] asks_to_delete(started, before, k, rule) {
            let k = choose|k: int| #[trigger] asks_to_delete(started, before, k, rule);
            assert(before.take(k) =~= events.take(k));
            assert(asks_to_delete(started, events, k, rule));
        } else {
            let at = model.added.index_of(rule as usize);
            assert(model.added[at] == rule as usize);
            if at < after.0.added.len() {
                assert(after.0.added[at] == rule as usize);
            } else {
                assert(asks_to_delete(started, events, events.len() as int, rule));
            }
        }
    }
}

proof fn lemma_nothing_left_at_the_end(
    started: (ApplyModel, ApplyAction),
    events: Seq<ApplyEvent>,
)
    requires
        is_run(started, events),
        started.0.added.len() == 0,
        started.0.phase is Checking || started.0.phase is Counting,
        started.1 is CheckRule || started.1 is CountOwned,
    ensures
        run_of(started, events).1 == ApplyAction::GiveUp ==> run_of(started, events).0.added.len()
            == 0,
        ({
            let phase = run_of(started, events).0.phase;
            phase is Unmarking || phase is Looking || phase is Restoring || phase is Forgetting
                ==> run_of(started, events).0.added.len() == 0
        }),
    decreases events.len(),
{
    if events.len() > 0 {
        lemma_nothing_left_at_the_end(started, events.drop_last());
    }
}

/// A removal asks for each thing in turn, and says in the end what it did. The
/// forwarding setting is restored where it was recorded, no other gateway has a
/// marker, and the record is a setting; otherwise it is left as it is.
pub proof fn removal_restores_what_was_recorded(
    removed: usize,
    marker: bool,
    recorded: bool,
    others: bool,
    record: Seq<char>,
)
    ensures
        ({
            let start = RemovalModel { removed: 0, restored: None, phase: RemovePhase::Sweeping };
            let swept = start.next(RemoveEventModel::Removed(removed));
            let marked = swept.0.next(RemoveEventModel::Exists(marker));
            let unmarked = if marker {
                marked.0.next(RemoveEventModel::Done)
            } else {
                marked
            };
            let found = unmarked.0.next(RemoveEventModel::Exists(recorded));
            let looked = found.0.next(RemoveEventModel::Exists(others));
            let read = looked.0.next(RemoveEventModel::Contents(record));
            let setting = crate::text::trimmed(record, CharClass::WhiteSpace);
            &&& swept.1 is FindMarker
            &&& marker ==> marked.1 is RemoveMarker
            &&& unmarked.1 is FindOriginal
            &&& !recorded ==> found.1 == RemoveActionModel::Report(removed_text(removed, None))
            &&& recorded ==> found.1 is LookForMarkers
            &&& recorded && others ==> looked.1 == RemoveActionModel::Report(
                removed_text(removed, None),
            )
            &&& recorded && !others ==> looked.1 is ReadOriginal
            &&& recorded && !others && (setting == "0"@ || setting == "1"@) ==> read.1
                == RemoveActionModel::RestoreForwarding(setting) && {
                let restored = read.0.next(RemoveEventModel::Done);
                restored.1 is RemoveOriginal && restored.0.next(RemoveEventModel::Done).1
                    == RemoveActionModel::Report(removed_text(removed, Some(setting)))
            }
            &&& recorded && !others && setting != "0"@ && setting != "1"@ ==> read.1
                is RemoveOriginal && read.0.next(RemoveEventModel::Done).1
                == RemoveActionModel::Report(removed_text(removed, None))
        }),
{
}

/// Every rule has its line in the plan and in the status.
pub proof fn every_rule_has_its_line(
    rules: Seq<RuleModel>,
    found: Seq<(&'static str, bool)>,
    n: int,
    i: int,
)
    requires
        0 <= i < n,
    ensures
        n <= rules.len() ==> addition_lines(rules, n).len() == n && addition_lines(rules, n)[i]
            == "  "@ + ("iptables "@ + crate::text::joined(rules[i].command("-A"@), " "@)),
        n <= found.len() ==> presence_lines(found, n).len() == n && presence_lines(found, n)[i]
            == (if found[i].1 {
            "OK"@
        } else {
            "FAIL"@
        }) + " "@ + found[i].0@,
    decreases n,
{
    assert(addition_lines(rules, 0).len() == 0);
    assert(presence_lines(found, 0).len() == 0);
    if i < n - 1 {
        every_rule_has_its_line(rules, found, n - 1, i);
    } else if n > 1 {
        every_rule_has_its_line(rules, found, n - 1, 0);
    }
}

/// A namespace is identified by the digits of its link, all of them and in their
/// order.
pub proof fn namespace_keeps_every_digit(text: Seq<char>, n: int)
    requires
        0 <= n <= text.len(),
    ensures
        digits_in(text, n) == text.take(n).filter(|c: char| '0' as u32 <= c as u32 <= '9' as u32),
    decreases n,
{
    reveal(Seq::filter);
    if n > 0 {
        namespace_keeps_every_digit(text, n - 1);
        assert(text.take(n).drop_last() =~= text.take(n - 1));
        assert(text.take(n).last() == text[n - 1]);
    }
}

proof fn lemma_position_of(list: Seq<Seq<char>>, word: Seq<char>, from: int, i: int)
    requires
        0 <= from <= i < list.len(),
        list[i] == word,
        forall|j: int| #![trigger list[j]] from <= j < i ==> list[j] != word,
    ensures
        position_of(list, word, from) == Some(i),
    decreases i - from,
{
    if from < i {
        assert(list[from] != word);
        lemma_position_of(list, word, from + 1, i);
    }
}

/// The counter that is reported is the value that stands where its name stands.
pub proof fn counter_stands_under_its_name(header: Seq<char>, values: Seq<char>, i: int, value: nat)
    requires
        ({
            let names = crate::text::words_of(header, CharClass::WhiteSpace);
            let fields = crate::text::words_of(values, CharClass::WhiteSpace);
            &&& 1 <= i < names.len() && i < fields.len()
            &&& names[i] == "FragFails"@
            &&& forall|j: int| #![trigger names[j]] 1 <= j < i ==> names[j] != "FragFails"@
            &&& fields[i] == crate::text::decimal_text(value)
            &&& value <= u64::MAX
        }),
    ensures
        counter_in(header, values) == Ok::<Option<u64>, SnmpError>(Some(value as u64)),
{
    let names = crate::text::words_of(header, CharClass::WhiteSpace);
    lemma_position_of(names, "FragFails"@, 1, i);
    crate::text::written_numbers_are_read_back(value);
    crate::text::written_numbers_begin_with_a_digit(value);
}

/// The counter comes from the first pair of lines that is about IP.
pub proof fn counter_comes_from_the_ip_lines(lines: Seq<Seq<char>>, pair: int)
    requires
        0 <= pair,
        2 * pair + 1 < lines.len(),
        crate::text::begins_with(lines[2 * pair], "Ip:"@),
        crate::text::begins_with(lines[2 * pair + 1], "Ip:"@),
        forall|k: int|
            #![trigger lines[2 * k]]
            0 <= k < pair ==> !(crate::text::begins_with(lines[2 * k], "Ip:"@)
                && crate::text::begins_with(lines[2 * k + 1], "Ip:"@)),
    ensures
        counter_from(lines, 0) == counter_in(lines[2 * pair], lines[2 * pair + 1]),
{
    lemma_counter_from(lines, 0, pair);
}

proof fn lemma_counter_from(lines: Seq<Seq<char>>, from: int, pair: int)
    requires
        0 <= from <= pair,
        2 * pair + 1 < lines.len(),
        crate::text::begins_with(lines[2 * pair], "Ip:"@),
        crate::text::begins_with(lines[2 * pair + 1], "Ip:"@),
        forall|k: int|
            #![trigger lines[2 * k]]
            from <= k < pair ==> !(crate::text::begins_with(lines[2 * k], "Ip:"@)
                && crate::text::begins_with(lines[2 * k + 1], "Ip:"@)),
    ensures
        counter_from(lines, 2 * from) == counter_in(lines[2 * pair], lines[2 * pair + 1]),
    decreases pair - from,
{
    if from < pair {
        let line = lines[2 * from];
        lemma_counter_from(lines, from + 1, pair);
        assert(2 * (from + 1) == 2 * from + 2);
    }
}

/// How far a phase of an application without failures is, in a plan of `n` rules.
pub open spec fn rank(phase: ApplyPhase, n: int) -> int {
    match phase {
        ApplyPhase::Checking(i) => i as int,
        ApplyPhase::Counting => n,
        ApplyPhase::Sweeping => n + 1,
        ApplyPhase::Ensuring(i) => n + 2 + 2 * i,
        ApplyPhase::Adding(i) => n + 3 + 2 * i,
        ApplyPhase::Forwarding => 3 * n + 2,
        _ => 3 * n + 3,
    }
}

/// Whether a phase belongs to an application that nothing has gone wrong with.
pub open spec fn is_forward(phase: ApplyPhase, n: int) -> bool {
    match phase {
        ApplyPhase::Checking(i) => i < n,
        ApplyPhase::Counting => true,
        ApplyPhase::Sweeping => true,
        ApplyPhase::Ensuring(i) => i < n,
        ApplyPhase::Adding(i) => i < n,
        ApplyPhase::Forwarding => true,
        ApplyPhase::Over => true,
        _ => false,
    }
}

/// As long as nothing fails, every report brings an application further, nothing
/// is taken back, and its end is success: so after at most `3 n + 3` reports a
/// plan of `n` rules is in force.
pub proof fn application_without_failures_succeeds(before: ApplyModel, event: ApplyEvent)
    requires
        before.expects(event),
        !(event is Failed),
        is_forward(before.phase, before.rule_count as int),
    ensures
        ({
            let n = before.rule_count as int;
            let (after, action) = before.next(event);
            &&& is_forward(after.phase, n)
            &&& rank(before.phase, n) < rank(after.phase, n) <= 3 * n + 3
            &&& after.phase is Over <==> action is Succeed
            &&& !(action is GiveUp) && !(action is DeleteRule) && !(action is RemoveMarker)
                && !(action is RestoreForwarding) && !(action is RemoveOriginal)
            &&& after.rule_count == before.rule_count
        }),
{
}

/// Owned rules are removed first wherever the rules of the plan are not all
/// present, or others are owned besides; and otherwise left in place.
pub proof fn stale_rules_are_swept(before: ApplyModel, owned: usize)
    requires
        before.phase == ApplyPhase::Counting,
    ensures
        before.next(ApplyEvent::Owned(owned)).1 is RemoveOwned <==> !(before.all_present && owned
            == before.rule_count),
        forall|present: bool, i: usize|
            #![trigger (ApplyModel { phase: ApplyPhase::Checking(i), ..before }).next(
                ApplyEvent::Presence(present),
            )]
            i < before.rule_count ==> (ApplyModel { phase: ApplyPhase::Checking(i), ..before }).next(
                ApplyEvent::Presence(present),
            ).0.all_present == (before.all_present && present),
{
}

/// A plan is the one of its interfaces: its rules are those of a gateway between
/// them, under a tag that names the tunnel.
pub proof fn plans_hold_the_gateway_rules(
    plan: GatewayPlan,
    lan: Seq<char>,
    tunnel: Seq<char>,
    mtu: u16,
    mss: u16,
    explicit: bool,
    k: int,
)
    requires
        plan.plans(lan, tunnel, mtu, mss, explicit),
        0 <= k < 5,
    ensures
        plan.lan_interface@ == lan && plan.tunnel_interface@ == tunnel,
        plan.tunnel_mtu == mtu && plan.tcp_mss == mss && plan.tcp_mss_is_explicit == explicit,
        plan.owner_tag@ == "hushwire-gateway:"@ + tunnel,
        plan.rules@.len() == 5,
        plan.rules@[k]@ == gateway_rules(lan, tunnel, "hushwire-gateway:"@ + tunnel, mss)[k],
{
    let rules = rule_models(plan.rules@);
    assert(rules.len() == 5);
    assert(rules[k] == plan.rules@[k]@);
}

/// The command for a rule waits for the lock, names the table where it has one,
/// and then the action, the chain and the rule.
pub proof fn rule_commands_have_this_layout(rule: RuleModel, action: Seq<char>, i: int)
    ensures
        ({
            let command = rule.command(action);
            let n: int = if rule.location.table is Some {
                4
            } else {
                2
            };
            &&& command.len() == n + 2 + rule.spec_args.len()
            &&& command[0] == "--wait"@ && command[1] == "5"@
            &&& rule.location.table matches Some(table) ==> command[2] == "-t"@ && command[3]
                == table
            &&& command[n] == action && command[n + 1] == rule.location.chain
            &&& 0 <= i < rule.spec_args.len() ==> command[n + 2 + i] == rule.spec_args[i]
        }),
{
}

} // verus!
