//! Network interfaces: which one outgoing connections use, and who is told when
//! that changes.
//!
//! The interfaces are listed, watched and configured elsewhere; here is what is
//! decided about them.
use crate::outside::{ascii_lowercase, lowercase, to_lowercase};
use crate::text::{
    all_digits, append_decimal, chars_of, contains, contains_word, decimal, is_digit, join, lacks,
    law_decimal_round_trip, law_split_join, lemma_decimal,
};
use crate::tls::optional_text;
use vstd::prelude::*;

verus! {

/// An IP address.
#[derive(Debug, Clone, Copy, PartialEq, Eq, Structural)]
pub enum Address {
    V4(u32),
    V6(u128),
}

/// A network interface.
#[derive(Debug)]
pub struct InterfaceInfo {
    pub index: u32,
    pub name: String,
    pub friendly_name: Option<String>,
    pub up: bool,
    pub loopback: bool,
    pub ipv4: Vec<u32>,
    pub ipv6: Vec<u128>,
    /// The IPv4 addresses of the gateway, where there is one.
    pub gateway: Option<Vec<u32>>,
}

/// A network interface as the contracts see it.
#[verifier::ext_equal]
pub struct InterfaceView {
    pub index: u32,
    pub name: Seq<char>,
    pub friendly_name: Option<Seq<char>>,
    pub up: bool,
    pub loopback: bool,
    pub ipv4: Seq<u32>,
    pub ipv6: Seq<u128>,
    pub gateway: Option<Seq<u32>>,
}

impl View for InterfaceInfo {
    type V = InterfaceView;

    open spec fn view(&self) -> InterfaceView {
        InterfaceView {
            index: self.index,
            name: self.name@,
            friendly_name: optional_text(self.friendly_name),
            up: self.up,
            loopback: self.loopback,
            ipv4: self.ipv4@,
            ipv6: self.ipv6@,
            gateway: match self.gateway {
                Some(addresses) => Some(addresses@),
                None => None,
            },
        }
    }
}

/// The four bytes of an IPv4 address, in decimal.
pub open spec fn ipv4_parts(address: u32) -> Seq<Seq<char>> {
    let n = address as nat;
    seq![
        decimal(n / 16777216),
        decimal(n / 65536 % 256),
        decimal(n / 256 % 256),
        decimal(n % 256),
    ]
}

/// An IPv4 address in dotted decimal.
pub open spec fn ipv4_text(address: u32) -> Seq<char> {
    join(ipv4_parts(address), '.')
}

/// Writes an IPv4 address in dotted decimal behind what `out` holds.
pub fn append_ipv4(out: &mut String, address: u32)
    ensures
        final(out)@ == old(out)@ + ipv4_text(address),
{
    append_decimal(out, address / 16777216);
    out.append(".");
    append_decimal(out, address / 65536 % 256);
    out.append(".");
    append_decimal(out, address / 256 % 256);
    out.append(".");
    append_decimal(out, address % 256);
    proof {
        reveal_strlit(".");
        reveal_with_fuel(join, 5);
        assert("."@ =~= seq!['.']);
        assert(out@ =~= old(out)@ + ipv4_text(address));
    }
}

proof fn lemma_ipv4_parts(address: u32)
    ensures
        crate::text::split(ipv4_text(address), '.') == ipv4_parts(address),
{
    let parts = ipv4_parts(address);
    assert forall|i: int| 0 <= i < parts.len() implies lacks(#[trigger] parts[i], '.') by {
        let n = address as nat;
        lemma_decimal(n / 16777216);
        lemma_decimal(n / 65536 % 256);
        lemma_decimal(n / 256 % 256);
        lemma_decimal(n % 256);
        assert(all_digits(parts[i]));
        assert forall|j: int| 0 <= j < parts[i].len() implies parts[i][j] != '.' by {
            assert(is_digit(parts[i][j]));
        }
    }
    law_split_join(parts, '.');
}

/// No two IPv4 addresses read the same.
pub proof fn law_ipv4_text_differs(a: u32, b: u32)
    ensures
        ipv4_text(a) == ipv4_text(b) ==> a == b,
        ipv4_text(a).len() > 0,
{
    lemma_ipv4_parts(a);
    lemma_ipv4_parts(b);
    let m = a as nat;
    let n = b as nat;
    lemma_decimal(m / 16777216);
    if ipv4_text(a) == ipv4_text(b) {
        let p = ipv4_parts(a);
        let q = ipv4_parts(b);
        assert(p[0] == q[0] && p[1] == q[1] && p[2] == q[2] && p[3] == q[3]);
        law_decimal_round_trip(m / 16777216, 255);
        law_decimal_round_trip(n / 16777216, 255);
        law_decimal_round_trip(m / 65536 % 256, 255);
        law_decimal_round_trip(n / 65536 % 256, 255);
        law_decimal_round_trip(m / 256 % 256, 255);
        law_decimal_round_trip(n / 256 % 256, 255);
        law_decimal_round_trip(m % 256, 255);
        law_decimal_round_trip(n % 256, 255);
    }
    assert(ipv4_text(a).len() > 0) by {
        assert(ipv4_parts(a).len() == 4);
        assert(ipv4_text(a) == ipv4_parts(a)[0] + seq!['.'] + join(
            ipv4_parts(a).drop_first(),
            '.',
        ));
    }
}

/// How `true` and `false` are written.
pub open spec fn bool_text(b: bool) -> Seq<char> {
    if b {
        "true"@
    } else {
        "false"@
    }
}

impl InterfaceView {
    /// Whether connections can go out through the interface. On Windows it has
    /// to have a gateway too.
    pub open spec fn usable(self, windows: bool) -> bool {
        self.up && !self.loopback && (self.ipv4.len() > 0 || self.ipv6.len() > 0) && (windows
            ==> self.gateway is Some)
    }

    /// The first IPv4 address of the gateway, in dotted decimal; empty where there is none.
    pub open spec fn gateway_text(self) -> Seq<char> {
        match self.gateway {
            Some(addresses) => if addresses.len() > 0 {
                ipv4_text(addresses[0])
            } else {
                Seq::empty()
            },
            None => Seq::empty(),
        }
    }

    /// How the interface is shown.
    pub open spec fn shown(self, windows: bool) -> Seq<char> {
        let friendly = match self.friendly_name {
            Some(name) => name,
            None => Seq::empty(),
        };
        friendly + " ("@ + self.name + " "@ + decimal(self.index as nat) + " "@
            + self.gateway_text() + " "@ + bool_text(self.usable(windows)) + ")"@
    }
}

/// What is to be done about the name servers of an interface.
#[derive(Debug)]
pub enum DnsAction {
    /// Go back to those that it had.
    Restore,
    /// Use these.
    Use(Vec<Address>),
}

/// What the system says about an interface, and what is asked of it.
pub trait InterfaceInfoExt {
    /// The interface as the contracts see it.
    spec fn info(&self) -> InterfaceView;

    /// How the interface is shown.
    fn display_name(&self, windows: bool) -> (text: String)
        ensures
            text@ == self.info().shown(windows),
    ;

    /// Whether connections can go out through the interface.
    fn is_usable(&self, windows: bool) -> (b: bool)
        ensures
            b == self.info().usable(windows),
    ;

    /// What is to be done in order to use these name servers: with none, those
    /// that the interface had come back.
    fn set_dns(&self, dns: &[Address]) -> (action: DnsAction)
        ensures
            match action {
                DnsAction::Restore => dns@.len() == 0,
                DnsAction::Use(servers) => dns@.len() > 0 && servers@ == dns@,
            },
    ;

    /// The metric that the interface is to get; there is none but on Windows.
    fn set_metric(&self, metric: u32, windows: bool) -> (r: Option<u32>)
        ensures
            r == (if windows {
                Some(metric)
            } else {
                None
            }),
    ;
}

impl InterfaceInfoExt for InterfaceInfo {
    open spec fn info(&self) -> InterfaceView {
        self@
    }

    fn display_name(&self, windows: bool) -> (text: String) {
        let mut text: String = String::new();
        if let Some(name) = &self.friendly_name {
            text.append(name.as_str());
        }
        text.append(" (");
        text.append(self.name.as_str());
        text.append(" ");
        append_decimal(&mut text, self.index);
        text.append(" ");
        let ghost front = text@;
        if let Some(addresses) = &self.gateway {
            if addresses.len() > 0 {
                append_ipv4(&mut text, addresses[0]);
            }
        }
        assert(text@ =~= front + self@.gateway_text());
        text.append(" ");
        if self.is_usable(windows) {
            text.append("true");
        } else {
            text.append("false");
        }
        text.append(")");
        assert(text@ =~= self@.shown(windows));
        text
    }

    fn is_usable(&self, windows: bool) -> (b: bool) {
        let ok: bool = self.up && !self.loopback && (self.ipv4.len() > 0 || self.ipv6.len() > 0);
        if windows && ok {
            return self.gateway.is_some();
        }
        ok
    }

    fn set_dns(&self, dns: &[Address]) -> (action: DnsAction) {
        if dns.len() == 0 {
            return DnsAction::Restore;
        }
        DnsAction::Use(vstd::slice::slice_to_vec(dns))
    }

    fn set_metric(&self, metric: u32, windows: bool) -> (r: Option<u32>) {
        if windows {
            Some(metric)
        } else {
            None
        }
    }
}

impl InterfaceInfo {
    pub fn copy(&self) -> (info: InterfaceInfo)
        ensures
            info@ == self@,
    {
        let friendly_name: Option<String> = match &self.friendly_name {
            Some(name) => Some(name.clone()),
            None => None,
        };
        let gateway: Option<Vec<u32>> = match &self.gateway {
            Some(addresses) => Some(vstd::slice::slice_to_vec(addresses)),
            None => None,
        };
        InterfaceInfo {
            index: self.index,
            name: self.name.clone(),
            friendly_name,
            up: self.up,
            loopback: self.loopback,
            ipv4: vstd::slice::slice_to_vec(&self.ipv4),
            ipv6: vstd::slice::slice_to_vec(&self.ipv6),
            gateway,
        }
    }
}

/// The interfaces as the contracts see them.
pub open spec fn interface_views(interfaces: Seq<InterfaceInfo>) -> Seq<InterfaceView> {
    interfaces.map_values(|i: InterfaceInfo| i@)
}

/// Whether a lower-case interface name is one that tunnels have.
pub open spec fn tunnel_name(lower: Seq<char>) -> bool {
    contains(lower, "tun"@) || contains(lower, "tap"@) || contains(lower, "ppp"@) || contains(
        lower,
        "wg"@,
    ) || contains(lower, "ipsec"@) || contains(lower, "awdl"@) || contains(lower, "llw"@)
}

/// Whether an interface name is one that tunnels have, in upper or lower case.
pub open spec fn likely_vpn(name: Seq<char>) -> bool {
    tunnel_name(lowercase(name))
}

/// For each of the interfaces, whether its name is one that tunnels have.
pub open spec fn vpn_flags(interfaces: Seq<InterfaceView>) -> Seq<bool> {
    interfaces.map_values(|i: InterfaceView| likely_vpn(i.name))
}

/// Whether the interface at a position can be selected.
pub open spec fn eligible(
    interfaces: Seq<InterfaceView>,
    vpn: Seq<bool>,
    windows: bool,
    i: int,
) -> bool {
    interfaces[i].usable(windows) && !vpn[i]
}

/// The position of the first interface that can be selected, from `start` on.
pub open spec fn first_eligible(
    interfaces: Seq<InterfaceView>,
    vpn: Seq<bool>,
    windows: bool,
    start: nat,
) -> Option<nat>
    decreases interfaces.len() - start,
{
    if start >= interfaces.len() {
        None
    } else if eligible(interfaces, vpn, windows, start as int) {
        Some(start)
    } else {
        first_eligible(interfaces, vpn, windows, start + 1)
    }
}

/// The interface that outgoing connections should use.
pub open spec fn selection(interfaces: Seq<InterfaceView>, vpn: Seq<bool>, windows: bool) -> Option<
    InterfaceView,
> {
    match first_eligible(interfaces, vpn, windows, 0) {
        Some(i) => Some(interfaces[i as int]),
        None => None,
    }
}

/// What has become of the selected interface.
#[derive(Debug, Clone, Copy, PartialEq, Eq, Structural)]
pub enum Change {
    Unchanged,
    /// It is another one. A notice goes to this channel, where there is one.
    Selected(Option<u64>),
    /// There is none any more. A notice goes to this channel, where there is one.
    Lost(Option<u64>),
}

/// The state of the manager, as the contracts see it.
#[verifier::ext_equal]
pub struct ManagerView {
    pub selected: Option<InterfaceView>,
    /// The channel that changes are announced on.
    pub channel: Option<u64>,
    /// The task that watches the network.
    pub monitor: Option<u64>,
}

/// Keeps the interface that outgoing connections use.
pub struct InterfaceManager {
    selected: Option<InterfaceInfo>,
    channel: Option<u64>,
    monitor: Option<u64>,
}

/// What is seen of an interface that may be missing.
pub open spec fn optional_view(info: Option<InterfaceInfo>) -> Option<InterfaceView> {
    match info {
        Some(i) => Some(i@),
        None => None,
    }
}

impl View for InterfaceManager {
    type V = ManagerView;

    closed spec fn view(&self) -> ManagerView {
        ManagerView {
            selected: optional_view(self.selected),
            channel: self.channel,
            monitor: self.monitor,
        }
    }
}

impl ManagerView {
    /// The state after a look at the network found this interface to use, and
    /// what has become of the one before. Interfaces are told apart by their index.
    pub open spec fn adopted(self, found: Option<InterfaceView>) -> (Change, ManagerView) {
        match (self.selected, found) {
            (None, None) => (Change::Unchanged, self),
            (Some(_), None) => (
                Change::Lost(self.channel),
                ManagerView { selected: None, ..self },
            ),
            (None, Some(_)) => (
                Change::Selected(self.channel),
                ManagerView { selected: found, ..self },
            ),
            (Some(current), Some(new)) => if current.index == new.index {
                (Change::Unchanged, self)
            } else {
                (Change::Selected(self.channel), ManagerView { selected: found, ..self })
            },
        }
    }
}

impl InterfaceManager {
    /// A manager that has not looked at the network yet.
    pub fn new() -> (manager: InterfaceManager)
        ensures
            manager@ == (ManagerView { selected: None, channel: None, monitor: None }),
    {
        InterfaceManager { selected: None, channel: None, monitor: None }
    }

    /// The channel that a notice of a change goes to.
    pub fn notify_change(&self) -> (channel: Option<u64>)
        ensures
            channel == self@.channel,
    {
        self.channel
    }

    /// Ends the watch over the network: the task is to be stopped.
    pub fn shutdown(&mut self) -> (monitor: Option<u64>)
        ensures
            monitor == old(self)@.monitor,
            final(self)@ == (ManagerView { monitor: None, ..old(self)@ }),
    {
        let monitor: Option<u64> = self.monitor;
        self.monitor = None;
        monitor
    }

    /// Looks at the network for the first time, without a notice unless the
    /// manager had a channel before; changes from now on are announced on `channel`.
    pub fn init(&mut self, interfaces: &[InterfaceInfo], windows: bool, channel: u64) -> (change:
        Change)
        ensures
            ({
                let views = interface_views(interfaces@);
                let (what, after) = old(self)@.adopted(
                    selection(views, vpn_flags(views), windows),
                );
                change == what && final(self)@ == (ManagerView { channel: Some(channel), ..after })
            }),
    {
        let change: Change = self.update_iface(interfaces, windows);
        self.channel = Some(channel);
        change
    }

    /// Notes the task that watches the network, where one was started.
    pub fn monitor_started(&mut self, monitor: Option<u64>)
        ensures
            final(self)@ == (ManagerView {
                monitor: if monitor is Some {
                    monitor
                } else {
                    old(self)@.monitor
                },
                ..old(self)@
            }),
    {
        if monitor.is_some() {
            self.monitor = monitor;
        }
    }

    /// Looks at the network again.
    pub fn update_iface(&mut self, interfaces: &[InterfaceInfo], windows: bool) -> (change: Change)
        ensures
            ({
                let views = interface_views(interfaces@);
                (change, final(self)@) == old(self)@.adopted(
                    selection(views, vpn_flags(views), windows),
                )
            }),
    {
        match InterfaceManager::select_iface(interfaces, windows) {
            Some(info) => self.adopt(Some(info.copy())),
            None => self.adopt(None),
        }
    }

    /// Takes in which interface a look at the network found.
    pub fn adopt(&mut self, found: Option<InterfaceInfo>) -> (change: Change)
        ensures
            (change, final(self)@) == old(self)@.adopted(optional_view(found)),
    {
        match found {
            Some(info) => {
                let changed: bool = match &self.selected {
                    Some(current) => current.index != info.index,
                    None => true,
                };
                if changed {
                    self.selected = Some(info);
                    Change::Selected(self.notify_change())
                } else {
                    Change::Unchanged
                }
            },
            None => {
                if self.selected.is_some() {
                    self.selected = None;
                    Change::Lost(self.notify_change())
                } else {
                    Change::Unchanged
                }
            },
        }
    }

    /// The interface that outgoing connections use.
    pub fn selected_iface(&self) -> (info: Option<InterfaceInfo>)
        ensures
            optional_view(info) == self@.selected,
    {
        match &self.selected {
            Some(info) => Some(info.copy()),
            None => None,
        }
    }

    /// The channel to listen on for changes.
    pub fn subscribe(&self) -> (channel: Option<u64>)
        ensures
            channel == self@.channel,
    {
        self.channel
    }

    /// The first interface that can be used and does not look like a tunnel.
    pub fn select_iface(interfaces: &[InterfaceInfo], windows: bool) -> (r: Option<&InterfaceInfo>)
        ensures
            ({
                let views = interface_views(interfaces@);
                match r {
                    Some(info) => selection(views, vpn_flags(views), windows) == Some(info@),
                    None => selection(views, vpn_flags(views), windows) is None,
                }
            }),
    {
        let mut vpn: Vec<bool> = Vec::new();
        let mut i: usize = 0;
        while i < interfaces.len()
            invariant
                i <= interfaces@.len(),
                vpn@.len() == i,
                forall|j: int|
                    0 <= j < i ==> #[trigger] vpn@[j] == likely_vpn(interfaces@[j]@.name),
            decreases interfaces@.len() - i,
        {
            vpn.push(InterfaceManager::is_likely_vpn(interfaces[i].name.as_str()));
            i = i + 1;
        }
        assert(vpn@ =~= vpn_flags(interface_views(interfaces@)));
        match InterfaceManager::first_usable(interfaces, &vpn, windows) {
            Some(at) => Some(&interfaces[at]),
            None => None,
        }
    }

    /// The position of the first interface that can be used and is not flagged
    /// as a tunnel.
    pub fn first_usable(interfaces: &[InterfaceInfo], vpn: &[bool], windows: bool) -> (r: Option<
        usize,
    >)
        requires
            vpn@.len() == interfaces@.len(),
        ensures
            match r {
                Some(at) => at < interfaces@.len() && first_eligible(
                    interface_views(interfaces@),
                    vpn@,
                    windows,
                    0,
                ) == Some(at as nat),
                None => first_eligible(interface_views(interfaces@), vpn@, windows, 0) is None,
            },
    {
        let ghost views = interface_views(interfaces@);
        let mut i: usize = 0;
        while i < interfaces.len()
            invariant
                i <= interfaces@.len(),
                vpn@.len() == interfaces@.len(),
                views == interface_views(interfaces@),
                first_eligible(views, vpn@, windows, 0) == first_eligible(
                    views,
                    vpn@,
                    windows,
                    i as nat,
                ),
            decreases interfaces@.len() - i,
        {
            assert(views[i as int] == interfaces@[i as int]@);
            if interfaces[i].is_usable(windows) && !vpn[i] {
                return Some(i);
            }
            i = i + 1;
        }
        None
    }

    /// Whether an interface name is one that tunnels have, in upper or lower case.
    pub fn is_likely_vpn(name: &str) -> (b: bool)
        ensures
            b == likely_vpn(name@),
            vstd::utf8::is_ascii_chars(name@) ==> b == tunnel_name(ascii_lowercase(name@)),
    {
        let lower: String = to_lowercase(name);
        InterfaceManager::is_tunnel_name(lower.as_str())
    }

    /// Whether a lower-case interface name is one that tunnels have.
    pub fn is_tunnel_name(lower: &str) -> (b: bool)
        ensures
            b == tunnel_name(lower@),
    {
        let chars: Vec<char> = chars_of(lower);
        contains_word(&chars, "tun") || contains_word(&chars, "tap") || contains_word(
            &chars,
            "ppp",
        ) || contains_word(&chars, "wg") || contains_word(&chars, "ipsec") || contains_word(
            &chars,
            "awdl",
        ) || contains_word(&chars, "llw")
    }
}

/// Whether an interface goes by this name or has this address.
pub open spec fn answers_to(info: InterfaceView, name: Seq<char>, addr: Option<u32>) -> bool {
    info.name == name || (addr matches Some(a) && info.ipv4.contains(a))
}

/// The position of the first interface that goes by the name or has the address,
/// from `start` on.
pub open spec fn first_answer(
    interfaces: Seq<InterfaceView>,
    name: Seq<char>,
    addr: Option<u32>,
    start: nat,
) -> Option<nat>
    decreases interfaces.len() - start,
{
    if start >= interfaces.len() {
        None
    } else if answers_to(interfaces[start as int], name, addr) {
        Some(start)
    } else {
        first_answer(interfaces, name, addr, start + 1)
    }
}

/// What is said where there is no such interface.
pub open spec fn not_found_text(name: Seq<char>, addr: Option<u32>) -> Seq<char> {
    "TUN interface not found by name="@ + name + " or ipv4="@ + (match addr {
        Some(a) => ipv4_text(a),
        None => Seq::empty(),
    })
}

fn has_address(info: &InterfaceInfo, addr: u32) -> (b: bool)
    ensures
        b == info.ipv4@.contains(addr),
{
    let mut i: usize = 0;
    while i < info.ipv4.len()
        invariant
            i <= info.ipv4@.len(),
            forall|j: int| 0 <= j < i ==> info.ipv4@[j] != addr,
        decreases info.ipv4@.len() - i,
    {
        if info.ipv4[i] == addr {
            return true;
        }
        i = i + 1;
    }
    false
}

/// The first interface that goes by the name or has the address, or what is said
/// where there is none.
pub fn resolve_iface<'a>(
    name: &str,
    addr: Option<u32>,
    interfaces: &'a [InterfaceInfo],
) -> (r: Result<&'a InterfaceInfo, String>)
    ensures
        match (first_answer(interface_views(interfaces@), name@, addr, 0), r) {
            (Some(at), Ok(info)) => at < interfaces@.len() && info@ == interfaces@[at as int]@,
            (None, Err(text)) => text@ == not_found_text(name@, addr),
            _ => false,
        },
{
    let ghost views = interface_views(interfaces@);
    let wanted: String = name.to_owned();
    let mut i: usize = 0;
    while i < interfaces.len()
        invariant
            i <= interfaces@.len(),
            wanted@ == name@,
            views == interface_views(interfaces@),
            first_answer(views, name@, addr, 0) == first_answer(views, name@, addr, i as nat),
        decreases interfaces@.len() - i,
    {
        let info: &InterfaceInfo = &interfaces[i];
        assert(views[i as int] == info@);
        let found: bool = match addr {
            Some(a) => has_address(info, a),
            None => false,
        };
        if info.name == wanted || found {
            return Ok(info);
        }
        i = i + 1;
    }
    let mut text: String = String::new();
    text.append("TUN interface not found by name=");
    text.append(name);
    text.append(" or ipv4=");
    if let Some(a) = addr {
        append_ipv4(&mut text, a);
    }
    assert(text@ =~= not_found_text(name@, addr));
    Err(text)
}

proof fn lemma_first_eligible(
    interfaces: Seq<InterfaceView>,
    vpn: Seq<bool>,
    windows: bool,
    start: nat,
)
    ensures
        match first_eligible(interfaces, vpn, windows, start) {
            Some(at) => start <= at < interfaces.len() && eligible(
                interfaces,
                vpn,
                windows,
                at as int,
            ) && forall|i: int|
                start <= i < at ==> !#[trigger] eligible(interfaces, vpn, windows, i),
            None => forall|i: int|
                start <= i < interfaces.len() ==> !#[trigger] eligible(interfaces, vpn, windows, i),
        },
    decreases interfaces.len() - start,
{
    if start < interfaces.len() && !eligible(interfaces, vpn, windows, start as int) {
        lemma_first_eligible(interfaces, vpn, windows, start + 1);
    }
}

/// The interface that is selected can be used and does not look like a tunnel,
/// and none before it is so; none is selected only where none is so.
pub proof fn law_selection_is_first(interfaces: Seq<InterfaceView>, vpn: Seq<bool>, windows: bool)
    ensures
        match first_eligible(interfaces, vpn, windows, 0) {
            Some(at) => at < interfaces.len() && selection(interfaces, vpn, windows) == Some(
                interfaces[at as int],
            ) && eligible(interfaces, vpn, windows, at as int) && forall|i: int|
                0 <= i < at ==> !#[trigger] eligible(interfaces, vpn, windows, i),
            None => selection(interfaces, vpn, windows) is None && forall|i: int|
                0 <= i < interfaces.len() ==> !#[trigger] eligible(interfaces, vpn, windows, i),
        },
{
    lemma_first_eligible(interfaces, vpn, windows, 0);
}

/// After a look at the network the manager holds what was found, as far as the
/// index goes, and keeps its channel and its task.
pub proof fn law_adopted_is_found(manager: ManagerView, found: Option<InterfaceView>)
    ensures
        ({
            let after = manager.adopted(found).1;
            &&& after.selected is Some <==> found is Some
            &&& found is Some ==> after.selected->Some_0.index == found->Some_0.index
            &&& after.channel == manager.channel
            &&& after.monitor == manager.monitor
        }),
{
}

/// A second look that finds the same changes nothing and announces nothing.
pub proof fn law_second_look_is_silent(manager: ManagerView, found: Option<InterfaceView>)
    ensures
        ({
            let after = manager.adopted(found).1;
            after.adopted(found) == (Change::Unchanged, after)
        }),
{
}

/// A change is announced exactly when the index of the selected interface
/// changes, and then on the channel of the manager.
pub proof fn law_changes_are_announced(manager: ManagerView, found: Option<InterfaceView>)
    ensures
        ({
            let (change, after) = manager.adopted(found);
            let before_index = match manager.selected {
                Some(info) => Some(info.index),
                None => None,
            };
            let after_index = match after.selected {
                Some(info) => Some(info.index),
                None => None,
            };
            &&& change is Unchanged <==> before_index == after_index
            &&& change matches Change::Selected(notice) ==> notice == manager.channel
            &&& change matches Change::Lost(notice) ==> notice == manager.channel
        }),
{
}

proof fn lemma_first_answer(
    interfaces: Seq<InterfaceView>,
    name: Seq<char>,
    addr: Option<u32>,
    start: nat,
)
    ensures
        match first_answer(interfaces, name, addr, start) {
            Some(at) => start <= at < interfaces.len() && answers_to(
                interfaces[at as int],
                name,
                addr,
            ) && forall|i: int|
                start <= i < at ==> !answers_to(#[trigger] interfaces[i], name, addr),
            None => forall|i: int|
                start <= i < interfaces.len() ==> !answers_to(
                    #[trigger] interfaces[i],
                    name,
                    addr,
                ),
        },
    decreases interfaces.len() - start,
{
    if start < interfaces.len() && !answers_to(interfaces[start as int], name, addr) {
        lemma_first_answer(interfaces, name, addr, start + 1);
    }
}

/// The interface that is found goes by the name or has the address, and none
/// before it does; none is found only where none does.
pub proof fn law_resolution_is_first(
    interfaces: Seq<InterfaceView>,
    name: Seq<char>,
    addr: Option<u32>,
)
    ensures
        match first_answer(interfaces, name, addr, 0) {
            Some(at) => at < interfaces.len() && answers_to(interfaces[at as int], name, addr)
                && forall|i: int| 0 <= i < at ==> !answers_to(#[trigger] interfaces[i], name, addr),
            None => forall|i: int|
                0 <= i < interfaces.len() ==> !answers_to(#[trigger] interfaces[i], name, addr),
        },
{
    lemma_first_answer(interfaces, name, addr, 0);
}

/// An address in dotted decimal: its four bytes, the high one first.
pub proof fn law_ipv4_text(a: u8, b: u8, c: u8, d: u8, address: u32)
    requires
        address == a * 16777216 + b * 65536 + c * 256 + d,
    ensures
        ipv4_text(address) == decimal(a as nat) + seq!['.'] + (decimal(b as nat) + seq!['.'] + (
        decimal(c as nat) + seq!['.'] + decimal(d as nat))),
{
    lemma_four_bytes(a as nat, b as nat, c as nat, d as nat, address as nat);
    lemma_join_four(
        decimal(a as nat),
        decimal(b as nat),
        decimal(c as nat),
        decimal(d as nat),
        '.',
    );
}

proof fn lemma_four_bytes(a: nat, b: nat, c: nat, d: nat, n: nat)
    requires
        a < 256,
        b < 256,
        c < 256,
        d < 256,
        n == a * 16777216 + b * 65536 + c * 256 + d,
    ensures
        n / 16777216 == a,
        n / 65536 % 256 == b,
        n / 256 % 256 == c,
        n % 256 == d,
{
    assert(n / 65536 == a * 256 + b);
    assert(n / 256 == (a * 256 + b) * 256 + c);
}

proof fn lemma_join_four(p: Seq<char>, q: Seq<char>, r: Seq<char>, s: Seq<char>, sep: char)
    ensures
        join(seq![p, q, r, s], sep) == p + seq![sep] + (q + seq![sep] + (r + seq![sep] + s)),
{
    assert(seq![p, q, r, s].drop_first() =~= seq![q, r, s]);
    assert(seq![q, r, s].drop_first() =~= seq![r, s]);
    assert(seq![r, s].drop_first() =~= seq![s]);
    assert(join(seq![s], sep) == s);
    assert(join(seq![r, s], sep) == r + seq![sep] + s);
    assert(join(seq![q, r, s], sep) == q + seq![sep] + (r + seq![sep] + s));
}

/// An interface can be used when it is up, is no loopback and has an address of
/// either kind; on Windows it has to have a gateway too.
pub proof fn law_usable(info: InterfaceView)
    ensures
        info.usable(false) <==> info.up && !info.loopback && (info.ipv4.len() > 0
            || info.ipv6.len() > 0),
        info.usable(true) <==> info.usable(false) && info.gateway is Some,
{
}

/// How an interface is shown: the friendly name, then in brackets the name, the
/// index, the first address of the gateway and whether it can be used.
pub proof fn law_shown(info: InterfaceView, windows: bool)
    ensures
        info.shown(windows) == (match info.friendly_name {
            Some(name) => name,
            None => Seq::empty(),
        }) + " ("@ + info.name + " "@ + decimal(info.index as nat) + " "@ + info.gateway_text()
            + " "@ + (if info.usable(windows) {
            "true"@
        } else {
            "false"@
        }) + ")"@,
        info.gateway matches Some(addresses) ==> (addresses.len() > 0 ==> info.gateway_text()
            == ipv4_text(addresses[0])) && (addresses.len() == 0 ==> info.gateway_text().len()
            == 0),
        info.gateway is None ==> info.gateway_text().len() == 0,
{
}

/// A name in lower case looks like a tunnel when one of seven words stands in it,
/// and not otherwise; any name does when its lower-case form does.
pub proof fn law_tunnel_names(name: Seq<char>, front: Seq<char>, word: Seq<char>, back: Seq<char>)
    ensures
        ({
            let words = seq!["tun"@, "tap"@, "ppp"@, "wg"@, "ipsec"@, "awdl"@, "llw"@];
            &&& words.contains(word) ==> tunnel_name(front + word + back)
            &&& tunnel_name(name) ==> exists|i: int| #![trigger words[i]]
                0 <= i < 7 && contains(name, words[i])
            &&& likely_vpn(name) == tunnel_name(lowercase(name))
        }),
{
    let words = seq!["tun"@, "tap"@, "ppp"@, "wg"@, "ipsec"@, "awdl"@, "llw"@];
    crate::text::law_contains_middle(front, word, back);
    if tunnel_name(name) {
        assert(contains(name, words[0]) || contains(name, words[1]) || contains(name, words[2])
            || contains(name, words[3]) || contains(name, words[4]) || contains(name, words[5])
            || contains(name, words[6]));
    }
}

/// The interface that is selected is in the list, is up, is no loopback, has an
/// address, has a gateway on Windows, and does not look like a tunnel; every one
/// before it fails in one of these. Where none is selected, all fail.
pub proof fn law_selected_interface(interfaces: Seq<InterfaceView>, windows: bool)
    ensures
        ({
            let vpn = vpn_flags(interfaces);
            let chosen = selection(interfaces, vpn, windows);
            let fits = |i: int|
                {
                    &&& interfaces[i].up
                    &&& !interfaces[i].loopback
                    &&& interfaces[i].ipv4.len() > 0 || interfaces[i].ipv6.len() > 0
                    &&& windows ==> interfaces[i].gateway is Some
                    &&& !tunnel_name(lowercase(interfaces[i].name))
                };
            match chosen {
                Some(info) => exists|at: int| #![trigger interfaces[at]]
                    0 <= at < interfaces.len() && interfaces[at] == info && fits(at) && forall|
                        i: int,
                    |
                        0 <= i < at ==> !#[trigger] fits(i),
                None => forall|i: int| 0 <= i < interfaces.len() ==> !#[trigger] fits(i),
            }
        }),
{
    let vpn = vpn_flags(interfaces);
    law_selection_is_first(interfaces, vpn, windows);
    let fits = |i: int|
        {
            &&& interfaces[i].up
            &&& !interfaces[i].loopback
            &&& interfaces[i].ipv4.len() > 0 || interfaces[i].ipv6.len() > 0
            &&& windows ==> interfaces[i].gateway is Some
            &&& !tunnel_name(lowercase(interfaces[i].name))
        };
    assert forall|i: int| 0 <= i < interfaces.len() implies fits(i) == #[trigger] eligible(
        interfaces,
        vpn,
        windows,
        i,
    ) by {
        assert(vpn[i] == likely_vpn(interfaces[i].name));
    }
    match first_eligible(interfaces, vpn, windows, 0) {
        Some(at) => {
            let k = at as int;
            assert(eligible(interfaces, vpn, windows, k));
            assert forall|i: int| 0 <= i < k implies !#[trigger] fits(i) by {
                assert(!eligible(interfaces, vpn, windows, i));
            }
            assert(interfaces[k] == interfaces[at as int] && fits(k));
        },
        None => {
            assert forall|i: int| 0 <= i < interfaces.len() implies !#[trigger] fits(i) by {
                assert(!eligible(interfaces, vpn, windows, i));
            }
        },
    }
}

/// What the first interface that can be selected is, for any flags: at the first
/// position that is usable and not flagged.
pub proof fn law_first_unflagged(interfaces: Seq<InterfaceView>, vpn: Seq<bool>, windows: bool)
    ensures
        match first_eligible(interfaces, vpn, windows, 0) {
            Some(at) => at < interfaces.len() && interfaces[at as int].usable(windows)
                && !vpn[at as int] && forall|i: int|
                0 <= i < at ==> !(#[trigger] interfaces[i]).usable(windows) || vpn[i],
            None => forall|i: int|
                0 <= i < interfaces.len() ==> !(#[trigger] interfaces[i]).usable(windows) || vpn[i],
        },
{
    law_selection_is_first(interfaces, vpn, windows);
    match first_eligible(interfaces, vpn, windows, 0) {
        Some(at) => {
            assert forall|i: int| 0 <= i < at implies !(#[trigger] interfaces[i]).usable(windows)
                || vpn[i] by {
                assert(!eligible(interfaces, vpn, windows, i));
            }
        },
        None => {
            assert forall|i: int| 0 <= i < interfaces.len() implies !(
            #[trigger] interfaces[i]).usable(windows) || vpn[i] by {
                assert(!eligible(interfaces, vpn, windows, i));
            }
        },
    }
}

/// What a look at the network does. Where an interface is found with another index
/// than the one in use, or where none was in use, that very interface is in use
/// afterwards, in all that is known of it, and this is announced. Where the index
/// is the same, the one in use stays as it was, and nothing is announced. Where
/// none is found, none is in use, which is announced if one was. Channel and task
/// stay.
pub proof fn law_adoption(manager: ManagerView, found: Option<InterfaceView>)
    ensures
        ({
            let (change, after) = manager.adopted(found);
            &&& after.channel == manager.channel
            &&& after.monitor == manager.monitor
            &&& match found {
                None => after.selected is None && change == (if manager.selected is Some {
                    Change::Lost(manager.channel)
                } else {
                    Change::Unchanged
                }),
                Some(new) => if manager.selected matches Some(current) && current.index
                    == new.index {
                    change == Change::Unchanged && after.selected == manager.selected
                } else {
                    change == Change::Selected(manager.channel) && after.selected == Some(new)
                },
            }
        }),
{
}

/// Whenever a new interface is announced, the one in use is the one that was found.
pub proof fn law_announced_is_found(manager: ManagerView, found: Option<InterfaceView>)
    ensures
        ({
            let (change, after) = manager.adopted(found);
            &&& change is Selected ==> found is Some && after.selected == found
            &&& change is Lost ==> found is None && after.selected is None
            &&& change is Unchanged ==> after == manager
        }),
{
}

/// An interface answers to its name, and to every address that it has; where no
/// address is asked for, to its name alone.
pub proof fn law_answers(info: InterfaceView, name: Seq<char>, a: u32)
    ensures
        answers_to(info, name, None) <==> info.name == name,
        answers_to(info, name, Some(a)) <==> info.name == name || exists|i: int|
            0 <= i < info.ipv4.len() && #[trigger] info.ipv4[i] == a,
{
}

/// What is said where no interface answers.
pub proof fn law_not_found(name: Seq<char>, a: u32)
    ensures
        not_found_text(name, None) == "TUN interface not found by name="@ + name + " or ipv4="@,
        not_found_text(name, Some(a)) == "TUN interface not found by name="@ + name + " or ipv4="@
            + ipv4_text(a),
{
    assert(not_found_text(name, None) =~= "TUN interface not found by name="@ + name
        + " or ipv4="@);
}

/// An interface is what its fields hold, and a list of them is what they are.
pub proof fn law_interface_fields(info: InterfaceInfo, list: Seq<InterfaceInfo>, i: int)
    ensures
        info@.index == info.index,
        info@.name == info.name@,
        info@.friendly_name is Some <==> info.friendly_name is Some,
        info.friendly_name matches Some(name) ==> info@.friendly_name == Some(name@),
        info@.up == info.up,
        info@.loopback == info.loopback,
        info@.ipv4 == info.ipv4@,
        info@.ipv6 == info.ipv6@,
        info@.gateway is Some <==> info.gateway is Some,
        info.gateway matches Some(addresses) ==> info@.gateway == Some(addresses@),
        interface_views(list).len() == list.len(),
        0 <= i < list.len() ==> interface_views(list)[i] == list[i]@,
        optional_view(Some(info)) == Some(info@),
        optional_view(None) is None,
        info.info() == info@,
{
}

} // verus!
