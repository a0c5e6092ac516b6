//! Passive network state: device counters, default routes, resolver mode,
//! interface classification and the choice of the primary interface.

use vstd::prelude::*;
use crate::name_map::NameMap;
use crate::order::{
    chars_le, chars_less, chars_lt, lemma_chars_lt_asymmetric, lemma_chars_lt_irreflexive,
    lemma_chars_lt_total, lemma_chars_lt_transitive,
};
use crate::numbers::{
    all_hex, hex_u32_spec, parse_hex_u32, parse_u128, parse_u128_spec, parse_u32, parse_u32_spec,
};
use crate::text::{
    chars_eq, chars_eq_str, chars_of, find_char, find_from, has_prefix, lines, lines_of, seqs_of,
    slice_chars, split_chars, split_on, starts_with_str, string_from_chars, string_views, trim,
    trim_chars, words, words_of,
};

verus! {

/// Route flag: the route is up.
pub const ROUTE_FLAG_UP: u32 = 0x0001;

/// Route flag: the route rejects traffic.
pub const ROUTE_FLAG_REJECT: u32 = 0x0200;

/// How the local resolver is configured.
#[derive(Clone, Copy, Debug, PartialEq, Eq, Structural)]
pub enum DnsState {
    Missing,
    Stub,
    Direct,
    Mixed,
}

/// The short DNS label.
pub open spec fn dns_compact_label(s: DnsState) -> Seq<char> {
    match s {
        DnsState::Missing => "no-dns"@,
        DnsState::Stub => "stub"@,
        DnsState::Direct => "dns"@,
        DnsState::Mixed => "mixed"@,
    }
}

/// The verbose DNS label.
pub open spec fn dns_full_label(s: DnsState) -> Seq<char> {
    match s {
        DnsState::Missing => "missing"@,
        DnsState::Stub => "stub"@,
        DnsState::Direct => "direct"@,
        DnsState::Mixed => "mixed"@,
    }
}

impl DnsState {
    /// Short DNS label for compact output.
    pub fn compact_label(&self) -> (r: &'static str)
        ensures
            r@ == dns_compact_label(*self),
    {
        match self {
            DnsState::Missing => "no-dns",
            DnsState::Stub => "stub",
            DnsState::Direct => "dns",
            DnsState::Mixed => "mixed",
        }
    }

    /// Verbose DNS label for full output.
    pub fn full_label(&self) -> (r: &'static str)
        ensures
            r@ == dns_full_label(*self),
    {
        match self {
            DnsState::Missing => "missing",
            DnsState::Stub => "stub",
            DnsState::Direct => "direct",
            DnsState::Mixed => "mixed",
        }
    }
}

/// What kind of link an interface is.
#[derive(Clone, Copy, Debug, PartialEq, Eq, Structural)]
pub enum InterfaceKind {
    Wireless,
    Wired,
    Tunnel,
    Other,
}

/// The single-letter kind label.
pub open spec fn kind_compact_label(k: InterfaceKind) -> Seq<char> {
    match k {
        InterfaceKind::Wireless => "W"@,
        InterfaceKind::Wired => "E"@,
        InterfaceKind::Tunnel => "T"@,
        InterfaceKind::Other => "N"@,
    }
}

/// The verbose kind label.
pub open spec fn kind_full_label(k: InterfaceKind) -> Seq<char> {
    match k {
        InterfaceKind::Wireless => "wifi"@,
        InterfaceKind::Wired => "ethernet"@,
        InterfaceKind::Tunnel => "tunnel"@,
        InterfaceKind::Other => "other"@,
    }
}

impl InterfaceKind {
    /// Single-letter kind label for compact output.
    pub fn compact_label(&self) -> (r: &'static str)
        ensures
            r@ == kind_compact_label(*self),
    {
        match self {
            InterfaceKind::Wireless => "W",
            InterfaceKind::Wired => "E",
            InterfaceKind::Tunnel => "T",
            InterfaceKind::Other => "N",
        }
    }

    /// Full kind label for verbose output.
    pub fn full_label(&self) -> (r: &'static str)
        ensures
            r@ == kind_full_label(*self),
    {
        match self {
            InterfaceKind::Wireless => "wifi",
            InterfaceKind::Wired => "ethernet",
            InterfaceKind::Tunnel => "tunnel",
            InterfaceKind::Other => "other",
        }
    }
}

/// Receive and transmit byte counters of one interface.
#[derive(Clone, Copy, Debug, Default, PartialEq, Eq, Structural)]
pub struct DevStats {
    pub recv_bytes: u128,
    pub trans_bytes: u128,
}

/// Link state of one interface.
#[derive(Debug)]
pub struct InterfaceState {
    pub name: String,
    pub kind: InterfaceKind,
    pub link_up: bool,
}

impl Clone for InterfaceState {
    /// A field-for-field copy.
    fn clone(&self) -> (r: Self)
        ensures
            r == *self,
    {
        InterfaceState { name: self.name.clone(), kind: self.kind, link_up: self.link_up }
    }
}

/// What the connectivity block reports.
#[derive(Clone, Debug)]
pub struct ConnectivitySnapshot {
    pub primary_iface: Option<InterfaceState>,
    pub has_default_route: bool,
    pub dns_state: DnsState,
}

// ---------------------------------------------------------------------------
// Interface classification
// ---------------------------------------------------------------------------

/// Names that common tunnel drivers give their interfaces.
pub open spec fn tunnel_name(iface: Seq<char>) -> bool {
    ||| has_prefix(iface, "wg"@)
    ||| has_prefix(iface, "tun"@)
    ||| has_prefix(iface, "tap"@)
    ||| has_prefix(iface, "ppp"@)
    ||| has_prefix(iface, "tailscale"@)
    ||| has_prefix(iface, "zt"@)
}

/// Match common tunnel prefixes without provider coupling.
pub fn is_tunnel_iface(iface: &str) -> (r: bool)
    ensures
        r == tunnel_name(iface@),
{
    let name = chars_of(iface);
    starts_with_str(&name, "wg") || starts_with_str(&name, "tun") || starts_with_str(&name, "tap")
        || starts_with_str(&name, "ppp") || starts_with_str(&name, "tailscale")
        || starts_with_str(&name, "zt")
}

/// The kind of an interface, given whether sysfs shows a `wireless` entry for it.
pub open spec fn kind_of(iface: Seq<char>, wireless: bool) -> InterfaceKind {
    if iface == "lo"@ {
        InterfaceKind::Other
    } else if wireless {
        InterfaceKind::Wireless
    } else if tunnel_name(iface) {
        InterfaceKind::Tunnel
    } else {
        InterfaceKind::Wired
    }
}

/// The kind classification: `lo` is other; any other interface with a
/// wireless entry is wireless; without one, a name beginning with `wg`, `tun`,
/// `tap`, `ppp`, `tailscale` or `zt` is a tunnel, and anything else is wired.
pub proof fn law_interface_kinds(iface: Seq<char>, wireless: bool)
    ensures
        iface == "lo"@ ==> kind_of(iface, wireless) == InterfaceKind::Other,
        iface != "lo"@ && wireless ==> kind_of(iface, wireless) == InterfaceKind::Wireless,
        iface != "lo"@ && !wireless ==> (kind_of(iface, wireless) == InterfaceKind::Tunnel <==> (
        (iface.len() >= 2 && iface.subrange(0, 2) == seq!['w', 'g'])
            || (iface.len() >= 3 && iface.subrange(0, 3) == seq!['t', 'u', 'n'])
            || (iface.len() >= 3 && iface.subrange(0, 3) == seq!['t', 'a', 'p'])
            || (iface.len() >= 3 && iface.subrange(0, 3) == seq!['p', 'p', 'p'])
            || (iface.len() >= 9 && iface.subrange(0, 9) == seq![
            't',
            'a',
            'i',
            'l',
            's',
            'c',
            'a',
            'l',
            'e',
        ]) || (iface.len() >= 2 && iface.subrange(0, 2) == seq!['z', 't']))),
        iface != "lo"@ && !wireless && kind_of(iface, wireless) != InterfaceKind::Tunnel
            ==> kind_of(iface, wireless) == InterfaceKind::Wired,
        iface.len() >= 3 && iface.subrange(0, 3) == seq!['p', 'p', 'p'] ==> tunnel_name(iface),
        iface.len() >= 2 && iface.subrange(0, 2) == seq!['w', 'g'] ==> tunnel_name(iface),
{
    reveal_strlit("wg");
    reveal_strlit("tun");
    reveal_strlit("tap");
    reveal_strlit("ppp");
    reveal_strlit("tailscale");
    reveal_strlit("zt");
    assert("wg"@ =~= seq!['w', 'g']);
    assert("tun"@ =~= seq!['t', 'u', 'n']);
    assert("tap"@ =~= seq!['t', 'a', 'p']);
    assert("ppp"@ =~= seq!['p', 'p', 'p']);
    assert("tailscale"@ =~= seq!['t', 'a', 'i', 'l', 's', 'c', 'a', 'l', 'e']);
    assert("zt"@ =~= seq!['z', 't']);
}

/// Classify an interface from its kernel-visible traits: the loopback name,
/// the presence of `/sys/class/net/<iface>/wireless` (`has_wireless_dir`),
/// then tunnel naming.
pub fn interface_kind(iface: &str, has_wireless_dir: bool) -> (r: InterfaceKind)
    ensures
        r == kind_of(iface@, has_wireless_dir),
{
    let name = chars_of(iface);
    if chars_eq_str(&name, "lo") {
        return InterfaceKind::Other;
    }
    if has_wireless_dir {
        return InterfaceKind::Wireless;
    }
    if is_tunnel_iface(iface) {
        return InterfaceKind::Tunnel;
    }
    InterfaceKind::Wired
}

/// Whether a link counts as up: the `carrier` file decides when it exists,
/// otherwise an operational state of `up` or `unknown`.
pub open spec fn link_up_of(carrier: Option<Seq<char>>, operstate: Seq<char>) -> bool {
    match carrier {
        Some(c) => trim(c) == "1"@,
        None => operstate == "up"@ || operstate == "unknown"@,
    }
}

/// Prefer carrier when available for a stricter link answer. `carrier` is the
/// text of the carrier file when it exists, `operstate` the trimmed state.
pub fn link_state(carrier: Option<&str>, operstate: &str) -> (r: bool)
    ensures
        r == link_up_of(
            match carrier {
                Some(c) => Some(c@),
                None => None,
            },
            operstate@,
        ),
{
    match carrier {
        Some(c) => {
            let text = chars_of(c);
            let t = trim_chars(&text);
            chars_eq_str(&t, "1")
        },
        None => {
            let state = chars_of(operstate);
            chars_eq_str(&state, "up") || chars_eq_str(&state, "unknown")
        },
    }
}

// ---------------------------------------------------------------------------
// Default routes
// ---------------------------------------------------------------------------

/// Address family of a route; IPv4 sorts before IPv6.
#[derive(Clone, Copy, Debug, PartialEq, Eq, Structural)]
pub enum RouteFamily {
    Ipv4,
    Ipv6,
}

/// A usable default route read from procfs.
#[derive(Clone, Debug, PartialEq, Eq)]
pub struct DefaultRoute {
    pub iface: String,
    pub metric: u32,
    pub flags: u32,
    pub family: RouteFamily,
}

/// A default route with its interface name as characters.
pub struct RouteView {
    pub iface: Seq<char>,
    pub metric: u32,
    pub flags: u32,
    pub family: RouteFamily,
}

impl View for DefaultRoute {
    type V = RouteView;

    open spec fn view(&self) -> RouteView {
        RouteView { iface: self.iface@, metric: self.metric, flags: self.flags, family: self.family }
    }
}

/// The views of a list of routes.
pub open spec fn route_views(v: Seq<DefaultRoute>) -> Seq<RouteView> {
    v.map_values(|r: DefaultRoute| r@)
}

/// The view of an optional route.
pub open spec fn opt_route_view(o: Option<DefaultRoute>) -> Option<RouteView> {
    match o {
        Some(r) => Some(r@),
        None => None,
    }
}

/// A fixed-width field of zeros.
pub open spec fn zero_hex(v: Seq<char>, width: nat) -> bool {
    v.len() == width && forall|i: int| 0 <= i < v.len() ==> v[i] == '0'
}

/// Validate a fixed-width all-zero hexadecimal field.
pub fn is_zero_hex(v: &Vec<char>, width: usize) -> (r: bool)
    ensures
        r == zero_hex(v@, width as nat),
{
    if v.len() != width {
        return false;
    }
    let mut i: usize = 0;
    while i < v.len()
        invariant
            i <= v.len(),
            forall|j: int| 0 <= j < i ==> v@[j] == '0',
        decreases v.len() - i,
    {
        if v[i] != '0' {
            return false;
        }
        i = i + 1;
    }
    true
}

/// The route that one line of `/proc/net/route` describes, when it is a
/// default route (zero destination and mask) with readable flags and metric.
pub open spec fn route_v4_of_line(line: Seq<char>) -> Option<RouteView> {
    let cols = words(line);
    if cols.len() < 8 || !zero_hex(cols[1], 8) || !zero_hex(cols[7], 8) {
        None
    } else {
        match hex_u32_spec(cols[3]) {
            None => None,
            Some(flags) => match parse_u32_spec(cols[6]) {
                None => None,
                Some(metric) => Some(
                    RouteView { iface: cols[0], metric, flags, family: RouteFamily::Ipv4 },
                ),
            },
        }
    }
}

/// The route that one line of `/proc/net/ipv6_route` describes, when it is a
/// default route (zero destination and source, zero prefix lengths, a
/// well-formed next hop) with readable metric and flags.
pub open spec fn route_v6_of_line(line: Seq<char>) -> Option<RouteView> {
    let cols = words(line);
    if cols.len() < 10 || !zero_hex(cols[0], 32) || hex_u32_spec(cols[1]) != Some(0u32)
        || !zero_hex(cols[2], 32) || hex_u32_spec(cols[3]) != Some(0u32) || cols[4].len() != 32
        || !all_hex(cols[4]) {
        None
    } else {
        match hex_u32_spec(cols[5]) {
            None => None,
            Some(metric) => match hex_u32_spec(cols[8]) {
                None => None,
                Some(flags) => Some(
                    RouteView { iface: cols[9], metric, flags, family: RouteFamily::Ipv6 },
                ),
            },
        }
    }
}

/// The routes described by a list of lines, in line order.
pub open spec fn collect_routes(
    ls: Seq<Seq<char>>,
    f: spec_fn(Seq<char>) -> Option<RouteView>,
) -> Seq<RouteView>
    decreases ls.len(),
{
    if ls.len() == 0 {
        seq![]
    } else {
        let rest = collect_routes(ls.drop_last(), f);
        match f(ls.last()) {
            Some(r) => rest.push(r),
            None => rest,
        }
    }
}

/// The lines after the header line.
pub open spec fn after_header(ls: Seq<Seq<char>>) -> Seq<Seq<char>> {
    if ls.len() > 0 {
        ls.skip(1)
    } else {
        ls
    }
}

/// The IPv4 default routes in a `/proc/net/route` text.
pub open spec fn default_routes_v4(text: Seq<char>) -> Seq<RouteView> {
    collect_routes(after_header(lines(text)), |l: Seq<char>| route_v4_of_line(l))
}

/// The IPv6 default routes in a `/proc/net/ipv6_route` text.
pub open spec fn default_routes_v6(text: Seq<char>) -> Seq<RouteView> {
    collect_routes(lines(text), |l: Seq<char>| route_v6_of_line(l))
}

/// Parse one line of the IPv4 route table.
pub fn route_v4_line(line: &Vec<char>) -> (r: Option<DefaultRoute>)
    ensures
        opt_route_view(r) == route_v4_of_line(line@),
{
    let cols = words_of(line);
    let ghost cv = seqs_of(cols@);
    assert(cv == words(line@));
    if cols.len() < 8 {
        return None;
    }
    assert(cols@[1]@ == cv[1] && cols@[7]@ == cv[7] && cols@[3]@ == cv[3] && cols@[6]@ == cv[6]
        && cols@[0]@ == cv[0]);
    if !is_zero_hex(&cols[1], 8) || !is_zero_hex(&cols[7], 8) {
        return None;
    }
    let flags = match parse_hex_u32(&cols[3]) {
        Some(flags) => flags,
        None => return None,
    };
    let metric = match parse_u32(&cols[6]) {
        Some(metric) => metric,
        None => return None,
    };
    Some(
        DefaultRoute {
            iface: string_from_chars(&cols[0]),
            metric,
            flags,
            family: RouteFamily::Ipv4,
        },
    )
}

/// Parse one line of the IPv6 route table.
pub fn route_v6_line(line: &Vec<char>) -> (r: Option<DefaultRoute>)
    ensures
        opt_route_view(r) == route_v6_of_line(line@),
{
    let cols = words_of(line);
    let ghost cv = seqs_of(cols@);
    assert(cv == words(line@));
    if cols.len() < 10 {
        return None;
    }
    assert(forall|k: int| 0 <= k < 10 ==> #[trigger] cols@[k]@ == cv[k]);
    assert(cols@[0]@ == cv[0] && cols@[1]@ == cv[1] && cols@[2]@ == cv[2] && cols@[3]@ == cv[3]
        && cols@[4]@ == cv[4] && cols@[5]@ == cv[5] && cols@[8]@ == cv[8] && cols@[9]@ == cv[9]);
    if !is_zero_hex(&cols[0], 32) || parse_hex_u32(&cols[1]) != Some(0u32) || !is_zero_hex(
        &cols[2],
        32,
    ) || parse_hex_u32(&cols[3]) != Some(0u32) || cols[4].len() != 32 || !all_hex_chars(
        &cols[4],
    ) {
        return None;
    }
    let metric = match parse_hex_u32(&cols[5]) {
        Some(metric) => metric,
        None => return None,
    };
    let flags = match parse_hex_u32(&cols[8]) {
        Some(flags) => flags,
        None => return None,
    };
    Some(
        DefaultRoute {
            iface: string_from_chars(&cols[9]),
            metric,
            flags,
            family: RouteFamily::Ipv6,
        },
    )
}

/// Decide whether every character is a hexadecimal digit.
fn all_hex_chars(v: &Vec<char>) -> (r: bool)
    ensures
        r == all_hex(v@),
{
    let mut i: usize = 0;
    while i < v.len()
        invariant
            i <= v.len(),
            forall|j: int| 0 <= j < i ==> #[trigger] crate::numbers::is_hex(v@[j]),
        decreases v.len() - i,
    {
        let c = v[i];
        if !(('0' <= c && c <= '9') || ('a' <= c && c <= 'f') || ('A' <= c && c <= 'F')) {
            assert(!crate::numbers::is_hex(v@[i as int]));
            return false;
        }
        i = i + 1;
    }
    true
}

/// Parse usable IPv4 defaults from procfs text, skipping the header line.
pub fn from_default_routes_v4(routes: &str) -> (r: Vec<DefaultRoute>)
    ensures
        route_views(r@) == default_routes_v4(routes@),
{
    let text = chars_of(routes);
    let ls = lines_of(&text);
    let ghost lv = seqs_of(ls@);
    let ghost body = after_header(lv);
    let mut out: Vec<DefaultRoute> = Vec::new();
    let mut i: usize = 1;
    if ls.len() == 0 {
        assert(body =~= Seq::<Seq<char>>::empty());
        return out;
    }
    assert(route_views(out@) =~= collect_routes(body.take(0), |l: Seq<char>| route_v4_of_line(l)));
    while i < ls.len()
        invariant
            1 <= i <= ls.len(),
            lv == seqs_of(ls@),
            body == lv.skip(1),
            route_views(out@) == collect_routes(
                body.take(i - 1),
                |l: Seq<char>| route_v4_of_line(l),
            ),
        decreases ls.len() - i,
    {
        let ghost before = route_views(out@);
        assert(body.take(i as int).drop_last() =~= body.take(i - 1));
        assert(body.take(i as int).last() == ls@[i as int]@);
        match route_v4_line(&ls[i]) {
            Some(route) => {
                out.push(route);
                assert(route_views(out@) =~= before.push(out@.last()@));
            },
            None => {},
        }
        i = i + 1;
    }
    assert(body.take(ls.len() - 1) =~= body);
    out
}

/// Parse usable IPv6 defaults from procfs text.
pub fn from_default_routes_v6(routes: &str) -> (r: Vec<DefaultRoute>)
    ensures
        route_views(r@) == default_routes_v6(routes@),
{
    let text = chars_of(routes);
    let ls = lines_of(&text);
    let ghost lv = seqs_of(ls@);
    let mut out: Vec<DefaultRoute> = Vec::new();
    let mut i: usize = 0;
    assert(route_views(out@) =~= collect_routes(lv.take(0), |l: Seq<char>| route_v6_of_line(l)));
    while i < ls.len()
        invariant
            i <= ls.len(),
            lv == seqs_of(ls@),
            route_views(out@) == collect_routes(lv.take(i as int), |l: Seq<char>| route_v6_of_line(l)),
        decreases ls.len() - i,
    {
        let ghost before = route_views(out@);
        assert(lv.take(i + 1).drop_last() =~= lv.take(i as int));
        assert(lv.take(i + 1).last() == ls@[i as int]@);
        match route_v6_line(&ls[i]) {
            Some(route) => {
                out.push(route);
                assert(route_views(out@) =~= before.push(out@.last()@));
            },
            None => {},
        }
        i = i + 1;
    }
    assert(lv.take(ls.len() as int) =~= lv);
    out
}

// ---------------------------------------------------------------------------
// Device counters
// ---------------------------------------------------------------------------

/// A counter column of `/proc/net/dev`, zero when missing or unreadable.
pub open spec fn counter_at(cols: Seq<Seq<char>>, i: int) -> u128 {
    if 0 <= i < cols.len() {
        match parse_u128_spec(cols[i]) {
            Some(v) => v,
            None => 0,
        }
    } else {
        0
    }
}

/// The interface name and counters of one `/proc/net/dev` line that holds a `:`:
/// the trimmed text before the first `:`, then the first and ninth columns after it.
pub open spec fn dev_entry(line: Seq<char>) -> (Seq<char>, DevStats) {
    let k = find_from(line, ':', 0);
    let cols = words(line.subrange(k as int + 1, line.len() as int));
    (
        trim(line.subrange(0, k as int)),
        DevStats { recv_bytes: counter_at(cols, 0), trans_bytes: counter_at(cols, 8) },
    )
}

/// The counters held by a sequence of lines; a later line for the same
/// interface replaces an earlier one.
pub open spec fn dev_stats_of(ls: Seq<Seq<char>>) -> Map<Seq<char>, DevStats>
    decreases ls.len(),
{
    if ls.len() == 0 {
        Map::empty()
    } else {
        let m = dev_stats_of(ls.drop_last());
        let line = ls.last();
        if find_from(line, ':', 0) < line.len() {
            m.insert(dev_entry(line).0, dev_entry(line).1)
        } else {
            m
        }
    }
}

/// The counters in a `/proc/net/dev` text, split at `\n`.
pub open spec fn dev_stats_spec(text: Seq<char>) -> Map<Seq<char>, DevStats> {
    dev_stats_of(split_on(text, '\n'))
}

/// Parse counter fields, reading a missing or malformed one as zero.
pub fn parse_counter(value: Option<&Vec<char>>) -> (r: u128)
    ensures
        r == match value {
            Some(v) => match parse_u128_spec(v@) {
                Some(n) => n,
                None => 0,
            },
            None => 0,
        },
{
    match value {
        Some(v) => match parse_u128(v) {
            Some(n) => n,
            None => 0,
        },
        None => 0,
    }
}

/// Read the name and counters from a `/proc/net/dev` line that holds a `:`.
fn dev_line(line: &Vec<char>) -> (r: (String, DevStats))
    requires
        find_from(line@, ':', 0) < line@.len(),
    ensures
        r.0@ == dev_entry(line@).0,
        r.1 == dev_entry(line@).1,
{
    let k = find_char(line, ':');
    assert(k < line.len());
    let name_part = slice_chars(line, 0, k);
    let name = trim_chars(&name_part);
    let rest = slice_chars(line, k + 1, line.len());
    let cols = words_of(&rest);
    let ghost cv = seqs_of(cols@);
    let recv = if cols.len() > 0 {
        assert(cols@[0]@ == cv[0]);
        parse_counter(Some(&cols[0]))
    } else {
        0
    };
    let trans = if cols.len() > 8 {
        assert(cols@[8]@ == cv[8]);
        parse_counter(Some(&cols[8]))
    } else {
        0
    };
    (string_from_chars(&name), DevStats { recv_bytes: recv, trans_bytes: trans })
}

/// Parse interface counters from procfs text.
pub fn from_dev_stats(dev: &str) -> (r: NameMap<DevStats>)
    ensures
        r@ == dev_stats_spec(dev@),
{
    let text = chars_of(dev);
    let parts = split_chars(&text, '\n');
    let ghost pv = seqs_of(parts@);
    let mut stats: NameMap<DevStats> = NameMap::new();
    let mut i: usize = 0;
    assert(pv.take(0) =~= Seq::<Seq<char>>::empty());
    while i < parts.len()
        invariant
            i <= parts.len(),
            pv == seqs_of(parts@),
            stats@ == dev_stats_of(pv.take(i as int)),
        decreases parts.len() - i,
    {
        assert(pv.take(i + 1).drop_last() =~= pv.take(i as int));
        assert(pv.take(i + 1).last() == parts@[i as int]@);
        let k = find_char(&parts[i], ':');
        if k < parts[i].len() {
            let (name, entry) = dev_line(&parts[i]);
            stats.insert(name, entry);
        }
        i = i + 1;
    }
    assert(pv.take(parts.len() as int) =~= pv);
    stats
}

// ---------------------------------------------------------------------------
// Resolver
// ---------------------------------------------------------------------------

/// The address named by a `nameserver` directive: the second word of a line
/// whose first word is exactly `nameserver`.
pub open spec fn nameserver_of_line(line: Seq<char>) -> Option<Seq<char>> {
    let f = words(line);
    if f.len() >= 2 && f[0] == "nameserver"@ {
        Some(f[1])
    } else {
        None
    }
}

/// The nameserver addresses of a list of lines, in order.
pub open spec fn nameservers_of(ls: Seq<Seq<char>>) -> Seq<Seq<char>>
    decreases ls.len(),
{
    if ls.len() == 0 {
        seq![]
    } else {
        let rest = nameservers_of(ls.drop_last());
        match nameserver_of_line(ls.last()) {
            Some(a) => rest.push(a),
            None => rest,
        }
    }
}

/// Collect the address text of every `nameserver` directive in `resolv.conf`.
pub fn nameserver_addresses(resolv_conf: &str) -> (r: Vec<String>)
    ensures
        string_views(r@) == nameservers_of(lines(resolv_conf@)),
{
    let text = chars_of(resolv_conf);
    let ls = lines_of(&text);
    let ghost lv = seqs_of(ls@);
    let mut out: Vec<String> = Vec::new();
    let mut i: usize = 0;
    assert(lv.take(0) =~= Seq::<Seq<char>>::empty());
    assert(string_views(out@) =~= Seq::<Seq<char>>::empty());
    while i < ls.len()
        invariant
            i <= ls.len(),
            lv == seqs_of(ls@),
            string_views(out@) == nameservers_of(lv.take(i as int)),
        decreases ls.len() - i,
    {
        assert(lv.take(i + 1).drop_last() =~= lv.take(i as int));
        assert(lv.take(i + 1).last() == ls@[i as int]@);
        let fields = words_of(&ls[i]);
        let ghost fv = seqs_of(fields@);
        if fields.len() >= 2 {
            assert(fields@[0]@ == fv[0] && fields@[1]@ == fv[1]);
            if chars_eq_str(&fields[0], "nameserver") {
                let ghost before = string_views(out@);
                out.push(string_from_chars(&fields[1]));
                assert(string_views(out@) =~= before.push(fv[1]));
            }
        }
        i = i + 1;
    }
    assert(lv.take(ls.len() as int) =~= lv);
    out
}

/// The resolver mode from whether loopback and remote servers were seen.
pub open spec fn dns_state_of(loopback: bool, remote: bool) -> DnsState {
    match (loopback, remote) {
        (false, false) => DnsState::Missing,
        (true, false) => DnsState::Stub,
        (false, true) => DnsState::Direct,
        (true, true) => DnsState::Mixed,
    }
}

/// Summarize nameserver addresses already classified as loopback (`Some(true)`),
/// other (`Some(false)`) or not an IP address (`None`).
pub fn dns_state_from_classes(classes: &Vec<Option<bool>>) -> (r: DnsState)
    ensures
        r == dns_state_of(
            exists|i: int| 0 <= i < classes@.len() && classes@[i] == Some(true),
            exists|i: int| 0 <= i < classes@.len() && classes@[i] == Some(false),
        ),
{
    let mut has_loopback = false;
    let mut has_remote = false;
    let mut i: usize = 0;
    while i < classes.len()
        invariant
            i <= classes.len(),
            has_loopback == exists|j: int| 0 <= j < i && classes@[j] == Some(true),
            has_remote == exists|j: int| 0 <= j < i && classes@[j] == Some(false),
        decreases classes.len() - i,
    {
        match classes[i] {
            Some(true) => {
                has_loopback = true;
            },
            Some(false) => {
                has_remote = true;
            },
            None => {},
        }
        i = i + 1;
    }
    match (has_loopback, has_remote) {
        (false, false) => DnsState::Missing,
        (true, false) => DnsState::Stub,
        (false, true) => DnsState::Direct,
        (true, true) => DnsState::Mixed,
    }
}

// ---------------------------------------------------------------------------
// Interface states
// ---------------------------------------------------------------------------

/// What sysfs shows of one interface: its name, the text of its `operstate`
/// file, the text of its `carrier` file when that file exists, and whether a
/// `wireless` entry exists for it.
pub struct InterfaceProbe {
    pub name: String,
    pub operstate: String,
    pub carrier: Option<String>,
    pub wireless: bool,
}

/// The link state that one probe describes.
pub open spec fn state_of_probe(p: InterfaceProbe) -> (bool, InterfaceKind) {
    (
        link_up_of(
            match p.carrier {
                Some(c) => Some(c@),
                None => None,
            },
            trim(p.operstate@),
        ),
        kind_of(p.name@, p.wireless),
    )
}

/// The states of the probed interfaces that also have device counters,
/// keyed by name; a later probe of the same name replaces an earlier one.
pub open spec fn interface_states_of(
    probes: Seq<InterfaceProbe>,
    dev: Map<Seq<char>, DevStats>,
) -> Map<Seq<char>, (Seq<char>, InterfaceKind, bool)>
    decreases probes.len(),
{
    if probes.len() == 0 {
        Map::empty()
    } else {
        let m = interface_states_of(probes.drop_last(), dev);
        let p = probes.last();
        if dev.dom().contains(p.name@) {
            m.insert(p.name@, (p.name@, state_of_probe(p).1, state_of_probe(p).0))
        } else {
            m
        }
    }
}

/// The name, kind and link flag of each stored state.
pub open spec fn state_table(m: Map<Seq<char>, InterfaceState>) -> Map<
    Seq<char>,
    (Seq<char>, InterfaceKind, bool),
> {
    m.map_values(|s: InterfaceState| (s.name@, s.kind, s.link_up))
}

/// Build the link state of every probed interface that `/proc/net/dev` lists.
pub fn interface_states_from(probes: &Vec<InterfaceProbe>, dev: &NameMap<DevStats>) -> (r: NameMap<
    InterfaceState,
>)
    ensures
        state_table(r@) == interface_states_of(probes@, dev@),
{
    let mut states: NameMap<InterfaceState> = NameMap::new();
    let mut i: usize = 0;
    assert(probes@.take(0) =~= Seq::<InterfaceProbe>::empty());
    assert(state_table(states@) =~= Map::empty());
    while i < probes.len()
        invariant
            i <= probes.len(),
            state_table(states@) == interface_states_of(probes@.take(i as int), dev@),
        decreases probes.len() - i,
    {
        let p = &probes[i];
        assert(probes@.take(i + 1).drop_last() =~= probes@.take(i as int));
        if dev.contains_key(p.name.as_str()) {
            let op = chars_of(p.operstate.as_str());
            let op = trim_chars(&op);
            let op = string_from_chars(&op);
            let carrier = match &p.carrier {
                Some(c) => Some(c.as_str()),
                None => None,
            };
            let link_up = link_state(carrier, op.as_str());
            let kind = interface_kind(p.name.as_str(), p.wireless);
            let ghost before = states@;
            states.insert(p.name.clone(), InterfaceState { name: p.name.clone(), kind, link_up });
            assert(state_table(states@) =~= state_table(before).insert(
                p.name@,
                (p.name@, kind, link_up),
            ));
        }
        i = i + 1;
    }
    assert(probes@.take(probes.len() as int) =~= probes@);
    states
}

// ---------------------------------------------------------------------------
// Primary interface
// ---------------------------------------------------------------------------

/// The primary interface and whether a usable default route chose it.
#[derive(Debug)]
pub struct PrimarySelection {
    pub primary_iface: Option<InterfaceState>,
    pub has_default_route: bool,
}

/// The rank of an address family in the route order.
pub open spec fn family_rank(f: RouteFamily) -> int {
    match f {
        RouteFamily::Ipv4 => 0,
        RouteFamily::Ipv6 => 1,
    }
}

/// Routes ordered by metric, interface name, then address family.
pub open spec fn route_key_lt(a: RouteView, b: RouteView) -> bool {
    ||| a.metric < b.metric
    ||| a.metric == b.metric && chars_lt(a.iface, b.iface)
    ||| a.metric == b.metric && a.iface == b.iface && family_rank(a.family) < family_rank(b.family)
}

/// `a` sorts before `b` or has the same sort key.
pub open spec fn route_key_le(a: RouteView, b: RouteView) -> bool {
    route_key_lt(a, b) || (a.metric == b.metric && a.iface == b.iface && a.family == b.family)
}

/// The route order is total.
pub proof fn lemma_route_key_total(a: RouteView, b: RouteView)
    ensures
        route_key_le(a, b) || route_key_lt(b, a),
{
    if a.iface != b.iface {
        lemma_chars_lt_total(a.iface, b.iface);
    }
}

/// The route order is transitive.
pub proof fn lemma_route_key_transitive(a: RouteView, b: RouteView, c: RouteView)
    requires
        route_key_le(a, b),
        route_key_le(b, c),
    ensures
        route_key_le(a, c),
{
    if a.metric == b.metric && b.metric == c.metric {
        if chars_lt(a.iface, b.iface) && chars_lt(b.iface, c.iface) {
            lemma_chars_lt_transitive(a.iface, b.iface, c.iface);
        }
    }
}

/// Strictly ordered routes are not ordered the other way.
pub proof fn lemma_route_key_lt_not_le(a: RouteView, b: RouteView)
    requires
        route_key_lt(a, b),
    ensures
        !route_key_le(b, a),
{
    if chars_lt(a.iface, b.iface) {
        lemma_chars_lt_asymmetric(a.iface, b.iface);
        lemma_chars_lt_irreflexive(a.iface);
    }
    if chars_lt(b.iface, a.iface) && a.iface == b.iface {
        lemma_chars_lt_irreflexive(a.iface);
    }
    lemma_chars_lt_irreflexive(a.iface);
}

/// Decide whether `a` sorts strictly before `b` by metric, name, then family.
pub fn route_sort_key_lt(a: &DefaultRoute, b: &DefaultRoute) -> (r: bool)
    ensures
        r == route_key_lt(a@, b@),
{
    if a.metric != b.metric {
        return a.metric < b.metric;
    }
    let an = chars_of(a.iface.as_str());
    let bn = chars_of(b.iface.as_str());
    if chars_less(&an, &bn) {
        return true;
    }
    if !chars_eq(&an, &bn) {
        return false;
    }
    match (a.family, b.family) {
        (RouteFamily::Ipv4, RouteFamily::Ipv6) => true,
        _ => false,
    }
}

/// Decide whether `a` sorts before `b` or has the same key.
pub fn route_sort_key_le(a: &DefaultRoute, b: &DefaultRoute) -> (r: bool)
    ensures
        r == route_key_le(a@, b@),
{
    if route_sort_key_lt(a, b) {
        return true;
    }
    let an = chars_of(a.iface.as_str());
    let bn = chars_of(b.iface.as_str());
    a.metric == b.metric && chars_eq(&an, &bn) && a.family == b.family
}

/// A default route that is up, does not reject, and leaves through a known
/// interface whose link is up.
pub open spec fn route_usable(r: RouteView, states: Map<Seq<char>, InterfaceState>) -> bool {
    &&& (r.flags & ROUTE_FLAG_UP) != 0
    &&& (r.flags & ROUTE_FLAG_REJECT) == 0
    &&& states.dom().contains(r.iface)
    &&& states[r.iface].link_up
}

/// An interface that may stand in when no default route is usable.
pub open spec fn fallback_candidate(s: InterfaceState) -> bool {
    s.name@ != "lo"@ && s.link_up
}

/// What the primary-interface choice must be: `has_default_route` tells
/// whether some default route is usable; if so, `primary` is the state of the
/// interface of a usable route with the smallest key; otherwise it is an up,
/// non-loopback interface with the smallest name, or none when there is no
/// such interface.
pub open spec fn primary_choice(
    routes: Seq<DefaultRoute>,
    states: NameMap<InterfaceState>,
    primary: Option<InterfaceState>,
    has_default_route: bool,
) -> bool {
    &&& has_default_route == exists|i: int|
        0 <= i < routes.len() && route_usable(#[trigger] routes[i]@, states@)
    &&& has_default_route ==> exists|b: int|
        #![trigger routes[b]]
        0 <= b < routes.len() && route_usable(routes[b]@, states@) && (forall|j: int|
            0 <= j < routes.len() && route_usable(#[trigger] routes[j]@, states@) ==> route_key_le(
                routes[b]@,
                routes[j]@,
            )) && primary == Some(states@[routes[b]@.iface])
    &&& !has_default_route ==> match primary {
        Some(s) => (exists|i: int| 0 <= i < states.values().len() && states.values()[i] == s)
            && fallback_candidate(s) && forall|i: int|
            0 <= i < states.values().len() && fallback_candidate(#[trigger] states.values()[i])
                ==> chars_le(s.name@, states.values()[i].name@),
        None => forall|i: int|
            0 <= i < states.values().len() ==> !fallback_candidate(#[trigger] states.values()[i]),
    }
}

/// Pick the lowest-metric default on an up link, then a stable fallback:
/// the up, non-loopback interface with the smallest name.
pub fn select_primary_iface(routes: &Vec<DefaultRoute>, states: &NameMap<InterfaceState>) -> (r:
    PrimarySelection)
    ensures
        primary_choice(routes@, *states, r.primary_iface, r.has_default_route),
{
    let mut best: Option<usize> = None;
    let mut i: usize = 0;
    while i < routes.len()
        invariant
            i <= routes.len(),
            match best {
                Some(b) => b < i && route_usable(routes@[b as int]@, states@) && forall|j: int|
                    0 <= j < i && route_usable(#[trigger] routes@[j]@, states@) ==> route_key_le(
                        routes@[b as int]@,
                        routes@[j]@,
                    ),
                None => forall|j: int| 0 <= j < i ==> !route_usable(#[trigger] routes@[j]@, states@),
            },
        decreases routes.len() - i,
    {
        let route = &routes[i];
        let usable = if (route.flags & ROUTE_FLAG_UP) == 0 || (route.flags & ROUTE_FLAG_REJECT) != 0 {
            false
        } else {
            match states.get(route.iface.as_str()) {
                Some(state) => state.link_up,
                None => false,
            }
        };
        assert(usable == route_usable(routes@[i as int]@, states@));
        if usable {
            match best {
                Some(b) => {
                    if !route_sort_key_le(&routes[b], route) {
                        proof {
                            lemma_route_key_total(routes@[b as int]@, routes@[i as int]@);
                            assert forall|j: int|
                                0 <= j < i + 1 && route_usable(
                                    #[trigger] routes@[j]@,
                                    states@,
                                ) implies route_key_le(routes@[i as int]@, routes@[j]@) by {
                                if j < i {
                                    lemma_route_key_transitive(
                                        routes@[i as int]@,
                                        routes@[b as int]@,
                                        routes@[j]@,
                                    );
                                }
                            }
                        }
                        best = Some(i);
                    }
                },
                None => {
                    best = Some(i);
                },
            }
        }
        i = i + 1;
    }
    if let Some(b) = best {
        let state = states.get(routes[b].iface.as_str());
        let primary = match state {
            Some(s) => Some(s.clone()),
            None => None,
        };
        return PrimarySelection { primary_iface: primary, has_default_route: true };
    }
    let n = states.len();
    let mut pick: Option<usize> = None;
    let mut k: usize = 0;
    while k < n
        invariant
            k <= n,
            n == states.values().len(),
            match pick {
                Some(p) => p < k && fallback_candidate(states.values()[p as int]) && forall|j: int|
                    0 <= j < k && fallback_candidate(#[trigger] states.values()[j]) ==> chars_le(
                        states.values()[p as int].name@,
                        states.values()[j].name@,
                    ),
                None => forall|j: int| 0 <= j < k ==> !fallback_candidate(#[trigger] states.values()[j]),
            },
        decreases n - k,
    {
        let s = states.value_at(k);
        let name = chars_of(s.name.as_str());
        let eligible = s.link_up && !chars_eq_str(&name, "lo");
        assert(eligible == fallback_candidate(states.values()[k as int]));
        if eligible {
            match pick {
                Some(p) => {
                    let pname = chars_of(states.value_at(p).name.as_str());
                    if chars_less(&name, &pname) {
                        proof {
                            assert forall|j: int|
                                0 <= j < k + 1 && fallback_candidate(
                                    #[trigger] states.values()[j],
                                ) implies chars_le(
                                states.values()[k as int].name@,
                                states.values()[j].name@,
                            ) by {
                                if j < k {
                                    let a = states.values()[k as int].name@;
                                    let b = states.values()[p as int].name@;
                                    let c = states.values()[j].name@;
                                    if b != c {
                                        lemma_chars_lt_transitive(a, b, c);
                                    }
                                }
                            }
                        }
                        pick = Some(k);
                    } else {
                        proof {
                            let a = states.values()[k as int].name@;
                            let b = states.values()[p as int].name@;
                            if a != b {
                                lemma_chars_lt_total(a, b);
                            }
                        }
                    }
                },
                None => {
                    pick = Some(k);
                },
            }
        }
        k = k + 1;
    }
    let primary = match pick {
        Some(p) => Some(states.value_at(p).clone()),
        None => None,
    };
    PrimarySelection { primary_iface: primary, has_default_route: false }
}

/// Whatever the choice, a chosen interface is up: through a usable default
/// route, or as the fallback, which also is never the loopback.
pub proof fn law_primary_is_up(
    routes: Seq<DefaultRoute>,
    states: NameMap<InterfaceState>,
    primary: Option<InterfaceState>,
    has_default_route: bool,
)
    requires
        primary_choice(routes, states, primary, has_default_route),
    ensures
        has_default_route ==> primary is Some,
        primary matches Some(s) ==> s.link_up,
        !has_default_route ==> (primary matches Some(s) ==> s.name@ != "lo"@),
{
    if has_default_route {
        let b = choose|b: int|
            #![trigger routes[b]]
            0 <= b < routes.len() && route_usable(routes[b]@, states@) && (forall|j: int|
                0 <= j < routes.len() && route_usable(#[trigger] routes[j]@, states@)
                    ==> route_key_le(routes[b]@, routes[j]@)) && primary == Some(
                states@[routes[b]@.iface],
            );
        assert(route_usable(routes[b]@, states@));
    }
}

/// Gather typed default routes across IPv4 and IPv6; `v6` is `None` when the
/// IPv6 table could not be read, which counts as no IPv6 routes.
pub fn default_routes(v4: &str, v6: Option<&str>) -> (r: Vec<DefaultRoute>)
    ensures
        route_views(r@) == default_routes_v4(v4@) + match v6 {
            Some(t) => default_routes_v6(t@),
            None => Seq::<RouteView>::empty(),
        },
{
    let mut routes = from_default_routes_v4(v4);
    let mut v6_routes = match v6 {
        Some(t) => from_default_routes_v6(t),
        None => Vec::new(),
    };
    let ghost a = route_views(routes@);
    let ghost b = route_views(v6_routes@);
    routes.append(&mut v6_routes);
    assert(route_views(routes@) =~= a + b);
    routes
}

/// Pull a fresh passive connectivity snapshot from its parts.
pub fn connectivity_snapshot(
    routes: &Vec<DefaultRoute>,
    states: &NameMap<InterfaceState>,
    dns_state: DnsState,
) -> (r: ConnectivitySnapshot)
    ensures
        r.dns_state == dns_state,
        primary_choice(routes@, *states, r.primary_iface, r.has_default_route),
{
    let selection = select_primary_iface(routes, states);
    ConnectivitySnapshot {
        primary_iface: selection.primary_iface,
        has_default_route: selection.has_default_route,
        dns_state,
    }
}

} // verus!
