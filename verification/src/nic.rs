//! Network adapters: what the system tells of them, and the `netsh` commands that set them up and put
//! them back.

use vstd::prelude::*;
use vstd::string::*;

use crate::bytes;
use crate::config::{STATIC_IP, STATIC_MASK};
use crate::net;
use crate::text;
use crate::wide;

verus! {

// ---------------------------------------------------------------- adapters

/// A network adapter as it was when it was looked at, so that it can be put back.
pub struct NicInfo {
    pub name: String,
    pub description: String,
    pub mac: String,
    pub up: bool,
    pub is_dhcp: bool,
    /// Link speed in bits per second; 0 where nothing is connected.
    pub link_speed: u64,
    pub ipv4: Option<u32>,
    pub ipv4_mask: Option<u32>,
    pub gateway: Option<u32>,
    pub dns: Vec<u32>,
}

/// What is known of an adapter.
pub struct NicV {
    pub name: Seq<char>,
    pub description: Seq<char>,
    pub mac: Seq<char>,
    pub up: bool,
    pub is_dhcp: bool,
    pub link_speed: u64,
    pub ipv4: Option<u32>,
    pub ipv4_mask: Option<u32>,
    pub gateway: Option<u32>,
    pub dns: Seq<u32>,
}

impl View for NicInfo {
    type V = NicV;

    open spec fn view(&self) -> NicV {
        NicV {
            name: self.name@,
            description: self.description@,
            mac: self.mac@,
            up: self.up,
            is_dhcp: self.is_dhcp,
            link_speed: self.link_speed,
            ipv4: self.ipv4,
            ipv4_mask: self.ipv4_mask,
            gateway: self.gateway,
            dns: self.dns@,
        }
    }
}

/// What is known of some adapters.
pub open spec fn nic_views(v: Seq<NicInfo>) -> Seq<NicV> {
    v.map_values(|n: NicInfo| n@)
}

/// An adapter on one line; `speed` is its link speed as text.
pub open spec fn nic_line(n: NicV, speed: Seq<char>) -> Seq<char> {
    let ip = match n.ipv4 {
        Some(v) => net::ip_text(v),
        None => "无IP"@,
    };
    let link = if !n.up {
        "已断开"@
    } else if n.link_speed == 0 {
        "链路无信号"@
    } else {
        speed
    };
    n.name + "  ["@ + ip + "]  "@ + n.mac + "  ("@ + link + ")"@
}

impl NicInfo {
    /// The adapter on one line. `speed` is its link speed as text, shown where there is a link.
    pub fn display(&self, speed: &str) -> (r: String)
        ensures
            r@ == nic_line(self@, speed@),
    {
        let ip: String = match self.ipv4 {
            Some(v) => net::ip_string(v),
            None => "无IP".to_owned(),
        };
        let mut s: String = self.name.clone();
        s.append("  [");
        s.append(ip.as_str());
        s.append("]  ");
        s.append(self.mac.as_str());
        s.append("  (");
        if !self.up {
            s.append("已断开");
        } else if self.link_speed == 0 {
            s.append("链路无信号");
        } else {
            s.append(speed);
        }
        s.append(")");
        s
    }

    /// A copy.
    pub fn copy(&self) -> (r: Self)
        ensures
            r@ == self@,
    {
        let mut dns: Vec<u32> = Vec::new();
        let mut i: usize = 0;
        while i < self.dns.len()
            invariant
                i <= self.dns@.len(),
                dns@ == self.dns@.take(i as int),
            decreases self.dns@.len() - i,
        {
            dns.push(self.dns[i]);
            i = i + 1;
            assert(dns@ =~= self.dns@.take(i as int));
        }
        assert(dns@ =~= self.dns@);
        NicInfo {
            name: self.name.clone(),
            description: self.description.clone(),
            mac: self.mac.clone(),
            up: self.up,
            is_dhcp: self.is_dhcp,
            link_speed: self.link_speed,
            ipv4: self.ipv4,
            ipv4_mask: self.ipv4_mask,
            gateway: self.gateway,
            dns,
        }
    }
}

// ---------------------------------------------------------------- enumeration

/// Address family of IPv4.
pub const AF_INET: u16 = 2;

/// Interface type of a loopback adapter.
pub const IF_TYPE_LOOPBACK: u32 = 24;

/// Flag of an adapter that gets its address by DHCP.
pub const FLAG_DHCP: u32 = 4;

/// Operational status of an adapter that is up.
pub const STATUS_UP: i32 = 1;

/// A socket address as the system keeps it: the bytes of the address in memory order, read as a
/// little-endian number.
#[derive(Clone, Copy, PartialEq, Eq, Structural)]
pub struct RawAddress {
    pub family: u16,
    pub s_addr: u32,
}

/// An address of an adapter with the length of its network prefix.
#[derive(Clone, Copy, PartialEq, Eq, Structural)]
pub struct RawUnicast {
    pub address: Option<RawAddress>,
    pub prefix_len: u8,
}

/// What the system tells of an adapter. Missing names are empty.
pub struct RawAdapter {
    pub if_type: u32,
    pub friendly_name: Vec<u16>,
    pub description: Vec<u16>,
    pub physical_address: [u8; 8],
    pub physical_address_len: u32,
    pub oper_status: i32,
    pub transmit_speed: u64,
    pub receive_speed: u64,
    pub flags: u32,
    pub unicast: Vec<RawUnicast>,
    pub gateways: Vec<Option<RawAddress>>,
    pub dns: Vec<Option<RawAddress>>,
}

/// The IPv4 address of a socket address, if it is one.
pub open spec fn ipv4_of(a: Option<RawAddress>) -> Option<u32> {
    match a {
        Some(a) => if a.family == AF_INET {
            Some(bytes::reversed(a.s_addr))
        } else {
            None
        },
        None => None,
    }
}

/// The IPv4 address of a socket address, if it is one.
pub fn sockaddr_ipv4(a: Option<RawAddress>) -> (r: Option<u32>)
    ensures
        r == ipv4_of(a),
{
    match a {
        Some(a) => if a.family == AF_INET {
            Some(bytes::reverse(a.s_addr))
        } else {
            None
        },
        None => None,
    }
}

/// The first IPv4 address of an adapter with its prefix length.
pub open spec fn first_unicast(v: Seq<RawUnicast>) -> Option<(u32, u8)>
    decreases v.len(),
{
    if v.len() == 0 {
        None
    } else {
        match ipv4_of(v[0].address) {
            Some(ip) => Some((ip, v[0].prefix_len)),
            None => first_unicast(v.drop_first()),
        }
    }
}

/// The first IPv4 address of a list.
pub open spec fn first_of(v: Seq<Option<RawAddress>>) -> Option<u32>
    decreases v.len(),
{
    if v.len() == 0 {
        None
    } else {
        match ipv4_of(v[0]) {
            Some(ip) => Some(ip),
            None => first_of(v.drop_first()),
        }
    }
}

/// All IPv4 addresses of a list.
pub open spec fn ipv4s(v: Seq<Option<RawAddress>>) -> Seq<u32>
    decreases v.len(),
{
    if v.len() == 0 {
        Seq::empty()
    } else {
        let before = ipv4s(v.drop_last());
        match ipv4_of(v.last()) {
            Some(ip) => before.push(ip),
            None => before,
        }
    }
}

/// A hardware address as text; `无` where there is none.
pub open spec fn hardware_text(bytes: Seq<u8>, len: u32) -> Seq<char> {
    if len == 0 {
        "无"@
    } else {
        net::mac_text(
            bytes.take(
                if len < 8 {
                    len as int
                } else {
                    8
                },
            ),
        )
    }
}

/// What becomes known of an adapter.
pub open spec fn nic_of(a: RawAdapter) -> NicV {
    let first = first_unicast(a.unicast@);
    NicV {
        name: wide::utf16_text(wide::before_zero(a.friendly_name@)),
        description: wide::utf16_text(wide::before_zero(a.description@)),
        mac: hardware_text(a.physical_address@, a.physical_address_len),
        up: a.oper_status == STATUS_UP,
        is_dhcp: a.flags & FLAG_DHCP != 0,
        link_speed: if a.transmit_speed > a.receive_speed {
            a.transmit_speed
        } else {
            a.receive_speed
        },
        ipv4: match first {
            Some(f) => Some(f.0),
            None => None,
        },
        ipv4_mask: match first {
            Some(f) => Some(net::mask_of(f.1)),
            None => None,
        },
        gateway: first_of(a.gateways@),
        dns: ipv4s(a.dns@),
    }
}

/// The adapters of a list, without loopback adapters.
pub open spec fn nics_of(v: Seq<RawAdapter>) -> Seq<NicV>
    decreases v.len(),
{
    if v.len() == 0 {
        Seq::empty()
    } else {
        let before = nics_of(v.drop_last());
        if v.last().if_type == IF_TYPE_LOOPBACK {
            before
        } else {
            before.push(nic_of(v.last()))
        }
    }
}

/// A hardware address as text; `无` where there is none.
pub fn format_mac(bytes: &[u8; 8], len: u32) -> (r: String)
    ensures
        r@ == hardware_text(bytes@, len),
{
    if len == 0 {
        return "无".to_owned();
    }
    let n: usize = if len < 8 {
        len as usize
    } else {
        8
    };
    let part: &[u8] = vstd::slice::slice_subrange(bytes.as_slice(), 0, n);
    assert(part@ =~= bytes@.take(n as int));
    net::mac_string(part)
}

fn first_address(v: &Vec<RawUnicast>) -> (r: Option<(u32, u8)>)
    ensures
        r == first_unicast(v@),
{
    let mut i: usize = 0;
    assert(v@.skip(0) =~= v@);
    while i < v.len()
        invariant
            i <= v@.len(),
            first_unicast(v@) == first_unicast(v@.skip(i as int)),
        decreases v@.len() - i,
    {
        let u: RawUnicast = v[i];
        assert(v@.skip(i as int)[0] == u);
        match sockaddr_ipv4(u.address) {
            Some(ip) => {
                return Some((ip, u.prefix_len));
            },
            None => {},
        }
        assert(v@.skip(i as int).drop_first() =~= v@.skip(i + 1));
        i = i + 1;
    }
    None
}

/// The first IPv4 address of a list, whatever other addresses stand before it.
pub fn first_addr(v: &Vec<Option<RawAddress>>) -> (r: Option<u32>)
    ensures
        r == first_of(v@),
{
    let mut i: usize = 0;
    assert(v@.skip(0) =~= v@);
    while i < v.len()
        invariant
            i <= v@.len(),
            first_of(v@) == first_of(v@.skip(i as int)),
        decreases v@.len() - i,
    {
        assert(v@.skip(i as int)[0] == v@[i as int]);
        match sockaddr_ipv4(v[i]) {
            Some(ip) => {
                return Some(ip);
            },
            None => {},
        }
        assert(v@.skip(i as int).drop_first() =~= v@.skip(i + 1));
        i = i + 1;
    }
    None
}

fn all_addresses(v: &Vec<Option<RawAddress>>) -> (r: Vec<u32>)
    ensures
        r@ == ipv4s(v@),
{
    let mut out: Vec<u32> = Vec::new();
    let mut i: usize = 0;
    assert(out@ =~= ipv4s(v@.take(0)));
    while i < v.len()
        invariant
            i <= v@.len(),
            out@ == ipv4s(v@.take(i as int)),
        decreases v@.len() - i,
    {
        assert(v@.take(i + 1).drop_last() =~= v@.take(i as int));
        match sockaddr_ipv4(v[i]) {
            Some(ip) => {
                out.push(ip);
            },
            None => {},
        }
        i = i + 1;
    }
    assert(v@.take(i as int) =~= v@);
    out
}

fn read_adapter(a: &RawAdapter) -> (r: NicInfo)
    ensures
        r@ == nic_of(*a),
{
    let first: Option<(u32, u8)> = first_address(&a.unicast);
    NicInfo {
        name: wide::wide_to_string(a.friendly_name.as_slice()),
        description: wide::wide_to_string(a.description.as_slice()),
        mac: format_mac(&a.physical_address, a.physical_address_len),
        up: a.oper_status == STATUS_UP,
        is_dhcp: a.flags & FLAG_DHCP != 0,
        link_speed: if a.transmit_speed > a.receive_speed {
            a.transmit_speed
        } else {
            a.receive_speed
        },
        ipv4: match first {
            Some(f) => Some(f.0),
            None => None,
        },
        ipv4_mask: match first {
            Some(f) => Some(net::prefix_len_to_mask(f.1)),
            None => None,
        },
        gateway: first_addr(&a.gateways),
        dns: all_addresses(&a.dns),
    }
}

/// Reads the adapters that the system lists. Loopback adapters are left out, so that they cannot be
/// picked by mistake.
pub fn parse_adapters(list: &Vec<RawAdapter>) -> (r: Vec<NicInfo>)
    ensures
        nic_views(r@) == nics_of(list@),
{
    let mut out: Vec<NicInfo> = Vec::new();
    let mut i: usize = 0;
    assert(nic_views(out@) =~= nics_of(list@.take(0)));
    while i < list.len()
        invariant
            i <= list@.len(),
            nic_views(out@) == nics_of(list@.take(i as int)),
        decreases list@.len() - i,
    {
        let ghost before = nic_views(out@);
        assert(list@.take(i + 1).drop_last() =~= list@.take(i as int));
        if list[i].if_type != IF_TYPE_LOOPBACK {
            let n: NicInfo = read_adapter(&list[i]);
            let ghost nv = n@;
            out.push(n);
            assert(nic_views(out@) =~= before.push(nv));
        }
        i = i + 1;
    }
    assert(list@.take(i as int) =~= list@);
    out
}

/// What to do with the answer of the system to the question for its adapters.
pub enum EnumerateAction {
    /// The list is complete.
    Read,
    /// The list did not fit: ask again with the size that the system gave.
    Retry,
    Fail(String),
}

pub const ERROR_SUCCESS: u32 = 0;

pub const ERROR_BUFFER_OVERFLOW: u32 = 111;

/// What the answer of the system to the question for the adapters leads to: a list that is complete is
/// read, and one that did not fit is asked for again with more room, as long as the room that is wanted
/// grows. Anything else fails.
pub open spec fn enumerates(code: u32, buffer: u32, wanted: u32, r: EnumerateAction) -> bool {
    match r {
        EnumerateAction::Read => code == ERROR_SUCCESS,
        EnumerateAction::Retry => code == ERROR_BUFFER_OVERFLOW && wanted > buffer,
        EnumerateAction::Fail(e) => code != ERROR_SUCCESS && (code != ERROR_BUFFER_OVERFLOW || wanted
            <= buffer),
    }
}

/// Decides what to do with the answer `code` of the system, given the size of the buffer and the size
/// that the system asks for. A size that does not grow would be asked for again and again.
pub fn enumerate_step(code: u32, buffer: u32, wanted: u32) -> (r: EnumerateAction)
    ensures
        if code == ERROR_SUCCESS {
            r is Read
        } else if code != ERROR_BUFFER_OVERFLOW {
            r matches EnumerateAction::Fail(e) && e@ == "GetAdaptersAddresses 失败: 0x"@ + net::hex(
                code as nat,
            )
        } else if wanted <= buffer {
            r matches EnumerateAction::Fail(e) && e@
                == "GetAdaptersAddresses 缓冲区溢出且大小未更新"@
        } else {
            r is Retry
        },
        enumerates(code, buffer, wanted, r),
{
    if code == ERROR_SUCCESS {
        return EnumerateAction::Read;
    }
    if code != ERROR_BUFFER_OVERFLOW {
        let mut s: String = "GetAdaptersAddresses 失败: 0x".to_owned();
        let digits: String = net::hex_string(code);
        s.append(digits.as_str());
        return EnumerateAction::Fail(s);
    }
    if wanted <= buffer {
        return EnumerateAction::Fail(
            "GetAdaptersAddresses 缓冲区溢出且大小未更新".to_owned(),
        );
    }
    EnumerateAction::Retry
}

// ---------------------------------------------------------------- command lines

pub open spec fn is_blank(c: char) -> bool {
    c == ' ' || c == '\t'
}

/// The text ends inside quotes: it holds an odd number of them.
pub open spec fn quoted(s: Seq<char>) -> bool
    decreases s.len(),
{
    if s.len() == 0 {
        false
    } else if s.last() == '"' {
        !quoted(s.drop_last())
    } else {
        quoted(s.drop_last())
    }
}

/// The pieces of a command line between the blanks outside quotes, without the quotes.
pub open spec fn pieces(s: Seq<char>) -> Seq<Seq<char>>
    decreases s.len(),
{
    if s.len() == 0 {
        seq![Seq::<char>::empty()]
    } else {
        let before = pieces(s.drop_last());
        let c = s.last();
        if c == '"' {
            before
        } else if is_blank(c) && !quoted(s.drop_last()) {
            before.push(Seq::<char>::empty())
        } else {
            before.drop_last().push(before.last().push(c))
        }
    }
}

/// The pieces that are not empty.
pub open spec fn not_empty(v: Seq<Seq<char>>) -> Seq<Seq<char>>
    decreases v.len(),
{
    if v.len() == 0 {
        Seq::empty()
    } else if v.last().len() == 0 {
        not_empty(v.drop_last())
    } else {
        not_empty(v.drop_last()).push(v.last())
    }
}

/// The arguments of a command line: blanks outside quotes separate them, quotes are removed.
pub open spec fn tokens(s: Seq<char>) -> Seq<Seq<char>> {
    not_empty(pieces(s))
}

proof fn lemma_pieces_not_none(s: Seq<char>)
    ensures
        pieces(s).len() > 0,
    decreases s.len(),
{
    if s.len() > 0 {
        lemma_pieces_not_none(s.drop_last());
    }
}

/// Cuts a command line into its arguments.
pub fn split_cmd_tokens(s: &str) -> (out: Vec<String>)
    ensures
        text::views(out@) == tokens(s@),
{
    let cs: Vec<char> = text::to_chars(s);
    let n: usize = cs.len();
    let mut out: Vec<String> = Vec::new();
    let mut current: Vec<char> = Vec::new();
    let mut inside: bool = false;
    let mut i: usize = 0;
    assert(text::views(out@) =~= Seq::<Seq<char>>::empty());
    assert(pieces(s@.take(0)).drop_last() =~= Seq::<Seq<char>>::empty());
    assert(current@ =~= Seq::<char>::empty());
    while i < n
        invariant
            n == cs@.len(),
            cs@ == s@,
            i <= n,
            inside == quoted(s@.take(i as int)),
            pieces(s@.take(i as int)).len() > 0,
            text::views(out@) == not_empty(pieces(s@.take(i as int)).drop_last()),
            current@ == pieces(s@.take(i as int)).last(),
        decreases n - i,
    {
        let c: char = cs[i];
        let ghost before = pieces(s@.take(i as int));
        let ghost done = text::views(out@);
        proof {
            assert(s@.take(i + 1).drop_last() =~= s@.take(i as int));
            assert(s@.take(i + 1).last() == c);
        }
        if c == '"' {
            inside = !inside;
        } else if (c == ' ' || c == '\t') && !inside {
            proof {
                assert(pieces(s@.take(i + 1)).drop_last() =~= before);
            }
            if current.len() > 0 {
                let word: String = text::from_chars(current.as_slice());
                let ghost wv = word@;
                out.push(word);
                assert(text::views(out@) =~= done.push(wv));
                current = Vec::new();
            }
            assert(current@ =~= Seq::<char>::empty());
        } else {
            current.push(c);
            proof {
                assert(pieces(s@.take(i + 1)).drop_last() =~= before.drop_last());
            }
        }
        i = i + 1;
    }
    assert(s@.take(n as int) =~= s@);
    let ghost done = text::views(out@);
    if current.len() > 0 {
        let word: String = text::from_chars(current.as_slice());
        let ghost wv = word@;
        out.push(word);
        assert(text::views(out@) =~= done.push(wv));
    }
    out
}

/// An argument is never empty and holds no quote.
pub proof fn lemma_tokens_are_plain(s: Seq<char>, k: int)
    requires
        0 <= k < tokens(s).len(),
    ensures
        tokens(s)[k].len() > 0,
        !tokens(s)[k].contains('"'),
{
    lemma_pieces_have_no_quote(s);
    lemma_not_empty(pieces(s), k);
}

proof fn lemma_pieces_have_no_quote(s: Seq<char>)
    ensures
        forall|i: int| 0 <= i < pieces(s).len() ==> !(#[trigger] pieces(s)[i]).contains('"'),
    decreases s.len(),
{
    if s.len() > 0 {
        let init = s.drop_last();
        lemma_pieces_have_no_quote(init);
        lemma_pieces_not_none(init);
        let before = pieces(init);
        let c = s.last();
        if c != '"' && !(is_blank(c) && !quoted(init)) {
            let grown = before.last().push(c);
            assert(!before[before.len() - 1].contains('"'));
            assert forall|j: int| 0 <= j < grown.len() implies grown[j] != '"' by {
                if j < before.last().len() {
                    assert(before.last().contains(before.last()[j]));
                }
            }
        }
    }
}

proof fn lemma_not_empty(v: Seq<Seq<char>>, k: int)
    requires
        0 <= k < not_empty(v).len(),
    ensures
        not_empty(v)[k].len() > 0,
        exists|i: int| 0 <= i < v.len() && #[trigger] v[i] == not_empty(v)[k],
    decreases v.len(),
{
    let init = v.drop_last();
    if v.last().len() > 0 && k == not_empty(v).len() - 1 {
        assert(v[v.len() - 1] == not_empty(v)[k]);
    } else {
        lemma_not_empty(init, k);
        let i = choose|i: int| 0 <= i < init.len() && #[trigger] init[i] == not_empty(init)[k];
        assert(v[i] == init[i]);
    }
}

/// A blank outside quotes separates what stands before it from what stands behind it.
pub proof fn lemma_tokens_split(a: Seq<char>, b: Seq<char>)
    requires
        !quoted(a),
    ensures
        tokens(a + seq![' '] + b) == tokens(a) + tokens(b),
        quoted(a + seq![' '] + b) == quoted(b),
{
    lemma_blank_splits(a, ' ', b);
}

/// A space or a tab outside quotes separates what stands before it from what stands behind it.
pub proof fn lemma_blank_splits(a: Seq<char>, c: char, b: Seq<char>)
    requires
        !quoted(a),
        c == ' ' || c == '\t',
    ensures
        tokens(a + seq![c] + b) == tokens(a) + tokens(b),
        quoted(a + seq![c] + b) == quoted(b),
{
    lemma_pieces_split(a, c, b);
    lemma_pieces_not_none(a);
    lemma_pieces_not_none(b);
    lemma_not_empty_concat(pieces(a), pieces(b));
}

proof fn lemma_pieces_split(a: Seq<char>, c: char, b: Seq<char>)
    requires
        !quoted(a),
        is_blank(c),
    ensures
        pieces(a + seq![c] + b) == pieces(a) + pieces(b),
        quoted(a + seq![c] + b) == quoted(b),
    decreases b.len(),
{
    let s = a + seq![c] + b;
    if b.len() == 0 {
        assert(s.drop_last() =~= a);
        assert(pieces(s) =~= pieces(a) + pieces(b));
    } else {
        let init = b.drop_last();
        lemma_pieces_split(a, c, init);
        lemma_pieces_not_none(init);
        assert(s.drop_last() =~= a + seq![c] + init);
        assert(s.last() == b.last());
        let p = pieces(a);
        let q = pieces(init);
        assert((p + q).last() == q.last());
        assert((p + q).drop_last() =~= p + q.drop_last());
        assert(pieces(s) =~= p + pieces(b));
    }
}

proof fn lemma_not_empty_concat(a: Seq<Seq<char>>, b: Seq<Seq<char>>)
    ensures
        not_empty(a + b) == not_empty(a) + not_empty(b),
    decreases b.len(),
{
    if b.len() == 0 {
        assert(a + b =~= a);
        assert(not_empty(a) + not_empty(b) =~= not_empty(a));
    } else {
        let init = b.drop_last();
        lemma_not_empty_concat(a, init);
        assert((a + b).drop_last() =~= a + init);
        assert((a + b).last() == b.last());
        assert(not_empty(a + b) =~= not_empty(a) + not_empty(b));
    }
}

/// One piece that is not empty is one argument.
pub proof fn lemma_single(w: Seq<char>)
    requires
        w.len() > 0,
    ensures
        not_empty(seq![w]) == seq![w],
{
    let none = seq![w].drop_last();
    assert(none.len() == 0);
    assert(not_empty(none) =~= Seq::<Seq<char>>::empty());
    assert(not_empty(seq![w]) =~= seq![w]);
}

/// A word that is an argument as it stands.
pub open spec fn is_word(w: Seq<char>) -> bool {
    &&& w.len() > 0
    &&& forall|i: int| 0 <= i < w.len() ==> #[trigger] w[i] != '"' && !is_blank(w[i])
}

/// A word is one argument.
pub proof fn lemma_word(w: Seq<char>)
    requires
        is_word(w),
    ensures
        tokens(w) == seq![w],
        !quoted(w),
{
    lemma_word_pieces(w);
    lemma_single(w);
}

proof fn lemma_word_pieces(w: Seq<char>)
    requires
        forall|i: int| 0 <= i < w.len() ==> #[trigger] w[i] != '"' && !is_blank(w[i]),
    ensures
        pieces(w) == seq![w],
        !quoted(w),
    decreases w.len(),
{
    if w.len() > 0 {
        let init = w.drop_last();
        lemma_word_pieces(init);
        assert(seq![init].drop_last().push(init.push(w.last())) =~= seq![w]) by {
            assert(init.push(w.last()) =~= w);
        }
    } else {
        assert(w =~= Seq::<char>::empty());
    }
}

/// The argument that names an adapter, quoted.
pub open spec fn name_argument(name: Seq<char>) -> Seq<char> {
    "name=\""@ + name + "\""@
}

/// The quoted name is one argument, whatever blanks are in it, as long as it holds no quote.
pub proof fn lemma_name_argument(name: Seq<char>)
    requires
        !name.contains('"'),
    ensures
        tokens(name_argument(name)) == seq!["name="@ + name],
        !quoted(name_argument(name)),
{
    reveal_strlit("name=\"");
    reveal_strlit("name=");
    reveal_strlit("\"");
    let head = "name="@;
    lemma_word_pieces(head);
    let open = head.push('"');
    assert("name=\""@ =~= open);
    assert(open.drop_last() =~= head);
    assert(pieces(open) == seq![head]);
    assert(quoted(open));
    lemma_inside_quotes(open, head, name);
    let s = name_argument(name);
    assert(s.drop_last() =~= open + name);
    assert(s.last() == '"');
    let w = head + name;
    assert(pieces(s) == seq![w]);
    lemma_single(w);
}

/// Inside quotes everything but a quote belongs to the current piece.
pub proof fn lemma_inside_quotes(open: Seq<char>, head: Seq<char>, name: Seq<char>)
    requires
        quoted(open),
        pieces(open) == seq![head],
        !name.contains('"'),
    ensures
        quoted(open + name),
        pieces(open + name) == seq![head + name],
    decreases name.len(),
{
    if name.len() == 0 {
        assert(open + name =~= open);
        assert(head + name =~= head);
    } else {
        let init = name.drop_last();
        assert(name.contains(name.last()));
        assert forall|i: int| 0 <= i < init.len() implies init[i] != '"' by {
            assert(name.contains(name[i]));
        }
        lemma_inside_quotes(open, head, init);
        assert((open + name).drop_last() =~= open + init);
        assert((open + name).last() == name.last());
        assert(seq![head + init].drop_last().push((head + init).push(name.last())) =~= seq![
            head + name,
        ]) by {
            assert((head + init).push(name.last()) =~= head + name);
        }
    }
}

// ---------------------------------------------------------------- setting up and putting back

/// A `netsh` command line.
pub struct NetshStep {
    pub args: String,
    /// A complaint that DHCP is on already is no failure.
    pub may_be_set: bool,
}

/// What a `netsh` command line says.
pub struct NetshV {
    pub args: Seq<char>,
    pub may_be_set: bool,
}

impl View for NetshStep {
    type V = NetshV;

    open spec fn view(&self) -> NetshV {
        NetshV { args: self.args@, may_be_set: self.may_be_set }
    }
}

/// What some command lines say.
pub open spec fn step_views(v: Seq<NetshStep>) -> Seq<NetshV> {
    v.map_values(|s: NetshStep| s@)
}

/// A command line whose failure is a failure.
pub open spec fn plain_step(args: Seq<char>) -> NetshV {
    NetshV { args, may_be_set: false }
}

/// Gives the adapter a fixed address.
pub open spec fn static_command(name: Seq<char>, ip: Seq<char>, mask: Seq<char>) -> Seq<char> {
    "interface ip set address "@ + name_argument(name) + " static "@ + ip + " "@ + mask
}

/// The command that gives an adapter the address of the server.
pub open spec fn set_static_command(name: Seq<char>) -> Seq<char> {
    static_command(name, STATIC_IP@, STATIC_MASK@)
}

/// The commands that give an adapter its name servers.
pub open spec fn dns_steps(name: Seq<char>, dns: Seq<Seq<char>>) -> Seq<NetshV>
    decreases dns.len(),
{
    if dns.len() == 0 {
        Seq::empty()
    } else if dns.len() == 1 {
        seq![plain_step("interface ip set dns "@ + name_argument(name) + " static "@ + dns[0])]
    } else {
        dns_steps(name, dns.drop_last()).push(
            plain_step("interface ip add dns "@ + name_argument(name) + " "@ + dns.last()),
        )
    }
}

/// The commands that put an adapter back: to DHCP, or to its addresses. Without an address only the
/// name servers are put back; an address without mask cannot be.
pub open spec fn restore_steps(
    name: Seq<char>,
    is_dhcp: bool,
    ip: Option<Seq<char>>,
    mask: Option<Seq<char>>,
    gateway: Option<Seq<char>>,
    dns: Seq<Seq<char>>,
) -> Option<Seq<NetshV>> {
    if is_dhcp {
        Some(
            seq![
                NetshV {
                    args: "interface ip set address "@ + name_argument(name) + " dhcp"@,
                    may_be_set: true,
                },
                plain_step("interface ip set dns "@ + name_argument(name) + " dhcp"@),
            ],
        )
    } else if ip is None {
        Some(dns_steps(name, dns))
    } else if mask is None {
        None
    } else {
        let address = static_command(name, ip->0, mask->0);
        let whole = match gateway {
            Some(g) => address + " "@ + g + " 1"@,
            None => address,
        };
        Some(seq![plain_step(whole)] + dns_steps(name, dns))
    }
}

fn begin_command(head: &str, name: &str) -> (r: String)
    ensures
        r@ == head@ + name_argument(name@),
{
    let mut s: String = head.to_owned();
    s.append("name=\"");
    s.append(name);
    s.append("\"");
    assert(s@ =~= head@ + name_argument(name@));
    s
}

fn static_line(name: &str, ip: &str, mask: &str) -> (r: String)
    ensures
        r@ == static_command(name@, ip@, mask@),
{
    let mut s: String = begin_command("interface ip set address ", name);
    s.append(" static ");
    s.append(ip);
    s.append(" ");
    s.append(mask);
    s
}

/// The command that gives an adapter the address of the server.
pub fn set_static(name: &str) -> (r: NetshStep)
    ensures
        r@ == plain_step(set_static_command(name@)),
{
    NetshStep { args: static_line(name, STATIC_IP, STATIC_MASK), may_be_set: false }
}

fn push_step(steps: &mut Vec<NetshStep>, args: String)
    ensures
        step_views(final(steps)@) == step_views(old(steps)@).push(plain_step(args@)),
{
    let step = NetshStep { args, may_be_set: false };
    steps.push(step);
    assert(step_views(steps@) =~= step_views(old(steps)@).push(plain_step(args@)));
}

fn push_dns(steps: &mut Vec<NetshStep>, name: &str, dns: &Vec<String>)
    ensures
        step_views(final(steps)@) == step_views(old(steps)@) + dns_steps(
            name@,
            text::views(dns@),
        ),
{
    let ghost before = step_views(steps@);
    let ghost dv = text::views(dns@);
    let mut i: usize = 0;
    assert(before + dns_steps(name@, dv.take(0)) =~= before);
    while i < dns.len()
        invariant
            i <= dns@.len(),
            dv == text::views(dns@),
            step_views(steps@) == before + dns_steps(name@, dv.take(i as int)),
        decreases dns@.len() - i,
    {
        let ghost so_far = step_views(steps@);
        let ghost upto = dv.take(i + 1);
        proof {
            assert(upto.drop_last() =~= dv.take(i as int));
            assert(upto.last() == dns@[i as int]@);
        }
        let mut s: String = if i == 0 {
            let mut s: String = begin_command("interface ip set dns ", name);
            s.append(" static ");
            s
        } else {
            let mut s: String = begin_command("interface ip add dns ", name);
            s.append(" ");
            s
        };
        s.append(dns[i].as_str());
        push_step(steps, s);
        i = i + 1;
        assert(step_views(steps@) =~= before + dns_steps(name@, upto));
    }
    assert(dv.take(i as int) =~= dv);
}

/// What an optional text says.
pub open spec fn opt_view(s: Option<&str>) -> Option<Seq<char>> {
    match s {
        Some(s) => Some(s@),
        None => None,
    }
}

/// The commands that put an adapter back, in the order in which they are run.
pub fn restore_parts(
    name: &str,
    is_dhcp: bool,
    ip: Option<&str>,
    mask: Option<&str>,
    gateway: Option<&str>,
    dns: &Vec<String>,
) -> (r: Result<Vec<NetshStep>, String>)
    ensures
        match restore_steps(
            name@,
            is_dhcp,
            opt_view(ip),
            opt_view(mask),
            opt_view(gateway),
            text::views(dns@),
        ) {
            Some(v) => r matches Ok(s) && step_views(s@) == v,
            None => r matches Err(e) && e@ == "恢复参数不完整：缺少掩码（--mask）"@,
        },
{
    let mut steps: Vec<NetshStep> = Vec::new();
    assert(step_views(steps@) =~= Seq::<NetshV>::empty());
    if is_dhcp {
        let mut first: String = begin_command("interface ip set address ", name);
        first.append(" dhcp");
        let ghost fv = NetshV { args: first@, may_be_set: true };
        steps.push(NetshStep { args: first, may_be_set: true });
        assert(step_views(steps@) =~= seq![fv]);
        let mut second: String = begin_command("interface ip set dns ", name);
        second.append(" dhcp");
        let ghost sv = plain_step(second@);
        push_step(&mut steps, second);
        assert(step_views(steps@) =~= seq![fv, sv]);
        return Ok(steps);
    }
    match ip {
        None => {
            push_dns(&mut steps, name, dns);
            assert(step_views(steps@) =~= dns_steps(name@, text::views(dns@)));
            Ok(steps)
        },
        Some(ip) => match mask {
            None => Err("恢复参数不完整：缺少掩码（--mask）".to_owned()),
            Some(mask) => {
                let mut line: String = static_line(name, ip, mask);
                match gateway {
                    Some(g) => {
                        line.append(" ");
                        line.append(g);
                        line.append(" 1");
                    },
                    None => {},
                }
                let ghost first = plain_step(line@);
                push_step(&mut steps, line);
                assert(step_views(steps@) =~= seq![first]);
                push_dns(&mut steps, name, dns);
                Ok(steps)
            },
        },
    }
}

/// Addresses as texts.
pub open spec fn ip_texts(v: Seq<u32>) -> Seq<Seq<char>> {
    v.map_values(|ip: u32| net::ip_text(ip))
}

pub open spec fn opt_ip_text(v: Option<u32>) -> Option<Seq<char>> {
    match v {
        Some(ip) => Some(net::ip_text(ip)),
        None => None,
    }
}

/// The commands that put an adapter back to what it was.
pub open spec fn restore_steps_of(n: NicV) -> Option<Seq<NetshV>> {
    restore_steps(
        n.name,
        n.is_dhcp,
        opt_ip_text(n.ipv4),
        opt_ip_text(n.ipv4_mask),
        opt_ip_text(n.gateway),
        ip_texts(n.dns),
    )
}

pub fn ip_strings(v: &Vec<u32>) -> (r: Vec<String>)
    ensures
        text::views(r@) == ip_texts(v@),
{
    let mut out: Vec<String> = Vec::new();
    let mut i: usize = 0;
    while i < v.len()
        invariant
            i <= v@.len(),
            text::views(out@) == ip_texts(v@).take(i as int),
        decreases v@.len() - i,
    {
        let ghost before = text::views(out@);
        let s: String = net::ip_string(v[i]);
        let ghost sv = s@;
        out.push(s);
        i = i + 1;
        proof {
            assert(text::views(out@) =~= before.push(sv));
            assert(ip_texts(v@).take(i as int) =~= before.push(sv));
        }
    }
    assert(ip_texts(v@).take(i as int) =~= ip_texts(v@));
    out
}

fn opt_ip_string(v: Option<u32>) -> (r: Option<String>)
    ensures
        match r {
            Some(s) => opt_ip_text(v) == Some(s@),
            None => v is None,
        },
{
    match v {
        Some(ip) => Some(net::ip_string(ip)),
        None => None,
    }
}

fn opt_str(s: &Option<String>) -> (r: Option<&str>)
    ensures
        match *s {
            Some(s) => r matches Some(t) && t@ == s@,
            None => r is None,
        },
{
    match s {
        Some(s) => Some(s.as_str()),
        None => None,
    }
}

/// The commands that put an adapter back to what it was: to DHCP, or to its address, mask, gateway and
/// name servers.
pub fn restore(nic: &NicInfo) -> (r: Result<Vec<NetshStep>, String>)
    ensures
        match restore_steps_of(nic@) {
            Some(v) => r matches Ok(s) && step_views(s@) == v,
            None => r matches Err(e) && e@ == "恢复参数不完整：缺少掩码（--mask）"@,
        },
{
    let ip: Option<String> = opt_ip_string(nic.ipv4);
    let mask: Option<String> = opt_ip_string(nic.ipv4_mask);
    let gateway: Option<String> = opt_ip_string(nic.gateway);
    let dns: Vec<String> = ip_strings(&nic.dns);
    restore_parts(
        nic.name.as_str(),
        nic.is_dhcp,
        opt_str(&ip),
        opt_str(&mask),
        opt_str(&gateway),
        &dns,
    )
}

// ---------------------------------------------------------------- running netsh

/// What came of a `netsh` run.
pub enum NetshOutcome {
    /// It could not be started, with the reason.
    NotStarted(String),
    /// It could not be waited for, with the reason.
    NotFinished(String),
    TimedOut,
    /// It ended, with what it printed.
    Ended { success: bool, stdout: Vec<u8>, stderr: Vec<u8> },
}

/// What a `netsh` run printed.
pub open spec fn printed(stdout: Seq<u8>, stderr: Seq<u8>) -> Seq<char> {
    text::utf8_text(stdout) + text::utf8_text(stderr)
}

/// What the run of a command means: what it printed where it ended well, and else why it did not.
pub open spec fn netsh_answer(args: Seq<char>, outcome: NetshOutcome) -> Result<Seq<char>, Seq<char>> {
    match outcome {
        NetshOutcome::NotStarted(e) => Err("无法启动 netsh: "@ + e@),
        NetshOutcome::NotFinished(e) => Err("netsh 执行失败: "@ + e@),
        NetshOutcome::TimedOut => Err("netsh 执行超时"@),
        NetshOutcome::Ended { success, stdout, stderr } => if success {
            Ok(printed(stdout@, stderr@))
        } else {
            Err("netsh "@ + args + " 失败："@ + text::trim(printed(stdout@, stderr@)))
        },
    }
}

/// What a `netsh` run says: what it printed, or why it failed.
pub fn netsh_result(args: &str, outcome: NetshOutcome) -> (r: Result<String, String>)
    ensures
        match outcome {
            NetshOutcome::NotStarted(e) => r matches Err(t) && t@ == "无法启动 netsh: "@ + e@,
            NetshOutcome::NotFinished(e) => r matches Err(t) && t@ == "netsh 执行失败: "@ + e@,
            NetshOutcome::TimedOut => r matches Err(t) && t@ == "netsh 执行超时"@,
            NetshOutcome::Ended { success, stdout, stderr } => if success {
                r matches Ok(t) && t@ == printed(stdout@, stderr@)
            } else {
                r matches Err(t) && t@ == "netsh "@ + args@ + " 失败："@ + text::trim(
                    printed(stdout@, stderr@),
                )
            },
        },
        run_view(r) == netsh_answer(args@, outcome),
{
    match outcome {
        NetshOutcome::NotStarted(e) => {
            let mut s: String = "无法启动 netsh: ".to_owned();
            s.append(e.as_str());
            Err(s)
        },
        NetshOutcome::NotFinished(e) => {
            let mut s: String = "netsh 执行失败: ".to_owned();
            s.append(e.as_str());
            Err(s)
        },
        NetshOutcome::TimedOut => Err("netsh 执行超时".to_owned()),
        NetshOutcome::Ended { success, stdout, stderr } => {
            let mut all: String = text::lossy_string(stdout.as_slice());
            let err: String = text::lossy_string(stderr.as_slice());
            all.append(err.as_str());
            if success {
                Ok(all)
            } else {
                let mut s: String = "netsh ".to_owned();
                s.append(args);
                s.append(" 失败：");
                let body: String = text::trim_text(all.as_str());
                s.append(body.as_str());
                Err(s)
            }
        },
    }
}

/// A failure that only says that DHCP is on already.
pub open spec fn already_set(e: Seq<char>) -> bool {
    text::contains_text(e, "already"@) || text::contains_text(e, "已启用"@)
}

/// What a command that printed something, or failed, means for the commands behind it.
pub open spec fn step_outcome(step: NetshV, result: Result<Seq<char>, Seq<char>>) -> Result<
    (),
    Seq<char>,
> {
    match result {
        Ok(_) => Ok(()),
        Err(e) => if step.may_be_set && already_set(e) {
            Ok(())
        } else {
            Err(e)
        },
    }
}

/// What the run of a command says.
pub open spec fn run_view(r: Result<String, String>) -> Result<Seq<char>, Seq<char>> {
    match r {
        Ok(t) => Ok(t@),
        Err(e) => Err(e@),
    }
}

/// What an outcome says.
pub open spec fn outcome_view(r: Result<(), String>) -> Result<(), Seq<char>> {
    match r {
        Ok(_) => Ok(()),
        Err(e) => Err(e@),
    }
}

/// Decides whether the commands go on after one of them, and fails with its reason where they do not.
pub fn after_step(step: &NetshStep, result: Result<String, String>) -> (r: Result<(), String>)
    ensures
        outcome_view(r) == step_outcome(step@, run_view(result)),
{
    match result {
        Ok(_) => Ok(()),
        Err(e) => {
            if step.may_be_set && (text::has_text(e.as_str(), "already") || text::has_text(
                e.as_str(),
                "已启用",
            )) {
                Ok(())
            } else {
                Err(e)
            }
        },
    }
}

// ---------------------------------------------------------------- commands one after the other

/// Commands under way: one is run after the other until one fails.
pub struct CommandRun {
    pub steps: Vec<NetshStep>,
    /// Number of the command that is run now.
    pub at: usize,
}

/// What comes after the start of the commands or after one of them.
pub enum CommandNext {
    /// This command line is run.
    Run(String),
    /// All commands were run, or one has failed.
    Done(Result<(), String>),
}

/// What comes next, as it reads.
pub enum CommandNextV {
    Run(Seq<char>),
    Done(Result<(), Seq<char>>),
}

impl View for CommandNext {
    type V = CommandNextV;

    open spec fn view(&self) -> CommandNextV {
        match *self {
            CommandNext::Run(args) => CommandNextV::Run(args@),
            CommandNext::Done(r) => CommandNextV::Done(outcome_view(r)),
        }
    }
}

/// The command with this number is run, where there is one.
pub open spec fn command_at(steps: Seq<NetshV>, at: int) -> CommandNextV {
    if at < steps.len() {
        CommandNextV::Run(steps[at].args)
    } else {
        CommandNextV::Done(Ok(()))
    }
}

/// What follows the command with this number: the next one, unless it failed.
pub open spec fn command_after(
    steps: Seq<NetshV>,
    at: int,
    result: Result<Seq<char>, Seq<char>>,
) -> CommandNextV {
    match step_outcome(steps[at], result) {
        Ok(_) => command_at(steps, at + 1),
        Err(e) => CommandNextV::Done(Err(e)),
    }
}

fn run_at(steps: &Vec<NetshStep>, at: usize) -> (r: CommandNext)
    ensures
        r@ == command_at(step_views(steps@), at as int),
{
    if at < steps.len() {
        assert(step_views(steps@)[at as int] == steps@[at as int]@);
        CommandNext::Run(steps[at].args.clone())
    } else {
        CommandNext::Done(Ok(()))
    }
}

impl CommandRun {
    /// Begins with the first command.
    pub fn begin(steps: Vec<NetshStep>) -> (r: (Self, CommandNext))
        ensures
            r.0.steps == steps,
            r.0.at == 0,
            r.1@ == command_at(step_views(steps@), 0),
    {
        let next: CommandNext = run_at(&steps, 0);
        (CommandRun { steps, at: 0 }, next)
    }

    /// Goes on after a command that printed something, or failed.
    pub fn step(&mut self, result: Result<String, String>) -> (r: CommandNext)
        requires
            old(self).at < old(self).steps@.len(),
        ensures
            final(self).steps == old(self).steps,
            r@ == command_after(step_views(old(self).steps@), old(self).at as int, run_view(result)),
            final(self).at == (if r@ is Run {
                old(self).at + 1
            } else {
                old(self).at as int
            }),
    {
        assert(step_views(self.steps@)[self.at as int] == self.steps@[self.at as int]@);
        match after_step(&self.steps[self.at], result) {
            Ok(_) => {
                let n: usize = self.steps.len();
                let following: usize = self.at + 1;
                if following < n {
                    self.at = following;
                }
                run_at(&self.steps, following)
            },
            Err(e) => CommandNext::Done(Err(e)),
        }
    }
}

/// What comes of some commands whose runs go like this: the failure of the first that fails.
pub open spec fn commands_result(
    steps: Seq<NetshV>,
    results: Seq<Result<Seq<char>, Seq<char>>>,
    from: int,
) -> Result<(), Seq<char>>
    decreases steps.len() - from,
{
    if from < 0 || from >= steps.len() {
        Ok(())
    } else {
        match step_outcome(steps[from], results[from]) {
            Ok(_) => commands_result(steps, results, from + 1),
            Err(e) => Err(e),
        }
    }
}

/// How many of them are run.
pub open spec fn commands_run(
    steps: Seq<NetshV>,
    results: Seq<Result<Seq<char>, Seq<char>>>,
    from: int,
) -> int
    decreases steps.len() - from,
{
    if from < 0 || from >= steps.len() {
        from
    } else if step_outcome(steps[from], results[from]) is Ok {
        commands_run(steps, results, from + 1)
    } else {
        from + 1
    }
}

/// Commands are run in order until one fails: all before the last that is run went well, and the result
/// is a success exactly where all were run and went well.
pub proof fn lemma_commands_until_failure(
    steps: Seq<NetshV>,
    results: Seq<Result<Seq<char>, Seq<char>>>,
    from: int,
)
    requires
        0 <= from <= steps.len(),
    ensures
        ({
            let n = commands_run(steps, results, from);
            &&& from <= n <= steps.len()
            &&& forall|i: int| from <= i < n - 1 ==> step_outcome(#[trigger] steps[i], results[i]) is Ok
            &&& match commands_result(steps, results, from) {
                Ok(_) => n == steps.len() && (n > from ==> step_outcome(
                    steps[n - 1],
                    results[n - 1],
                ) is Ok),
                Err(e) => n > from && step_outcome(steps[n - 1], results[n - 1]) == Err::<
                    (),
                    Seq<char>,
                >(e),
            }
        }),
    decreases steps.len() - from,
{
    if from < steps.len() && step_outcome(steps[from], results[from]) is Ok {
        lemma_commands_until_failure(steps, results, from + 1);
    }
}

/// What the machine does comes to the same: where a command goes well the rest decides, and where it
/// fails its failure is the result.
pub proof fn lemma_command_after(
    steps: Seq<NetshV>,
    results: Seq<Result<Seq<char>, Seq<char>>>,
    at: int,
)
    requires
        0 <= at < steps.len(),
    ensures
        match command_after(steps, at, results[at]) {
            CommandNextV::Run(args) => at + 1 < steps.len() && args == steps[at + 1].args
                && commands_result(steps, results, at) == commands_result(steps, results, at + 1),
            CommandNextV::Done(r) => commands_result(steps, results, at) == r && commands_run(
                steps,
                results,
                at,
            ) == at + 1,
        },
{
    reveal_with_fuel(commands_result, 2);
    reveal_with_fuel(commands_run, 2);
}

// ---------------------------------------------------------------- laws

/// `netsh` gets the command that sets the server's address as eight arguments, the name of the adapter
/// whole, whatever blanks are in it.
pub proof fn lemma_set_static_arguments(name: Seq<char>)
    requires
        !name.contains('"'),
    ensures
        tokens(set_static_command(name)) == seq![
            "interface"@,
            "ip"@,
            "set"@,
            "address"@,
            "name="@ + name,
            "static"@,
            STATIC_IP@,
            STATIC_MASK@,
        ],
{
    reveal_strlit("192.168.31.1");
    reveal_strlit("255.255.255.0");
    assert(is_word(STATIC_IP@));
    assert(is_word(STATIC_MASK@));
    lemma_static_arguments(name, STATIC_IP@, STATIC_MASK@);
}

/// `netsh` gets the command that sets an address as eight arguments.
pub proof fn lemma_static_arguments(name: Seq<char>, ip: Seq<char>, mask: Seq<char>)
    requires
        !name.contains('"'),
        is_word(ip),
        is_word(mask),
    ensures
        tokens(static_command(name, ip, mask)) == seq![
            "interface"@,
            "ip"@,
            "set"@,
            "address"@,
            "name="@ + name,
            "static"@,
            ip,
            mask,
        ],
        !quoted(static_command(name, ip, mask)),
{
    reveal_strlit("interface ip set address ");
    reveal_strlit("interface");
    reveal_strlit("ip");
    reveal_strlit("set");
    reveal_strlit("address");
    reveal_strlit(" static ");
    reveal_strlit("static");
    reveal_strlit(" ");
    let sp = seq![' '];
    let n = name_argument(name);
    lemma_word("interface"@);
    lemma_word("ip"@);
    lemma_word("set"@);
    lemma_word("address"@);
    lemma_word("static"@);
    lemma_word(ip);
    lemma_word(mask);
    lemma_name_argument(name);
    let t2 = ip + sp + mask;
    lemma_tokens_split(ip, mask);
    let t3 = "static"@ + sp + t2;
    lemma_tokens_split("static"@, t2);
    let t4 = n + sp + t3;
    lemma_tokens_split(n, t3);
    let t5 = "address"@ + sp + t4;
    lemma_tokens_split("address"@, t4);
    let t6 = "set"@ + sp + t5;
    lemma_tokens_split("set"@, t5);
    let t7 = "ip"@ + sp + t6;
    lemma_tokens_split("ip"@, t6);
    let t8 = "interface"@ + sp + t7;
    lemma_tokens_split("interface"@, t7);
    assert("interface ip set address "@ =~= "interface"@ + sp + "ip"@ + sp + "set"@ + sp
        + "address"@ + sp);
    assert(" static "@ =~= sp + "static"@ + sp);
    assert(" "@ =~= sp);
    assert(static_command(name, ip, mask) =~= t8);
    assert(tokens(t8) =~= seq![
        "interface"@,
        "ip"@,
        "set"@,
        "address"@,
        "name="@ + name,
        "static"@,
        ip,
        mask,
    ]);
}

/// A dotted address is one argument.
pub proof fn lemma_ip_is_word(v: u32)
    ensures
        is_word(net::ip_text(v)),
{
    let a = text::dec((v / 0x100_0000) as nat);
    let b = text::dec((v / 0x1_0000 % 0x100) as nat);
    let c = text::dec((v / 0x100 % 0x100) as nat);
    let d = text::dec((v % 0x100) as nat);
    text::lemma_dec_digits((v / 0x100_0000) as nat);
    text::lemma_dec_digits((v / 0x1_0000 % 0x100) as nat);
    text::lemma_dec_digits((v / 0x100 % 0x100) as nat);
    text::lemma_dec_digits((v % 0x100) as nat);
    let dot = seq!['.'];
    lemma_word_concat(c, dot);
    lemma_word_concat(c + dot, d);
    lemma_word_concat(b, dot);
    lemma_word_concat(b + dot, c + dot + d);
    lemma_word_concat(a, dot);
    lemma_word_concat(a + dot, b + dot + (c + dot + d));
}

proof fn lemma_word_concat(a: Seq<char>, b: Seq<char>)
    requires
        is_word(a),
        is_word(b),
    ensures
        is_word(a + b),
{
    let s = a + b;
    assert forall|i: int| 0 <= i < s.len() implies #[trigger] s[i] != '"' && !is_blank(s[i]) by {
        if i < a.len() {
            assert(s[i] == a[i]);
        } else {
            assert(s[i] == b[i - a.len()]);
        }
    }
}

/// Of an adapter with a fixed address, the first command that puts it back hands `netsh` the name, the
/// address, the mask and the gateway that it had.
pub proof fn lemma_restore_arguments(n: NicV)
    requires
        !n.name.contains('"'),
        !n.is_dhcp,
        n.ipv4 is Some,
        n.ipv4_mask is Some,
    ensures
        restore_steps_of(n) is Some,
        restore_steps_of(n)->0.len() > 0,
        tokens(restore_steps_of(n)->0[0].args) == seq![
            "interface"@,
            "ip"@,
            "set"@,
            "address"@,
            "name="@ + n.name,
            "static"@,
            net::ip_text(n.ipv4->0),
            net::ip_text(n.ipv4_mask->0),
        ] + match n.gateway {
            Some(g) => seq![net::ip_text(g), "1"@],
            None => Seq::<Seq<char>>::empty(),
        },
{
    let ip = net::ip_text(n.ipv4->0);
    let mask = net::ip_text(n.ipv4_mask->0);
    lemma_ip_is_word(n.ipv4->0);
    lemma_ip_is_word(n.ipv4_mask->0);
    lemma_static_arguments(n.name, ip, mask);
    let address = static_command(n.name, ip, mask);
    let whole = restore_steps_of(n)->0[0].args;
    match n.gateway {
        Some(g) => {
            reveal_strlit(" ");
            reveal_strlit(" 1");
            reveal_strlit("1");
            let sp = seq![' '];
            lemma_ip_is_word(g);
            lemma_word(net::ip_text(g));
            lemma_word("1"@);
            lemma_tokens_split(net::ip_text(g), "1"@);
            lemma_tokens_split(address, net::ip_text(g) + sp + "1"@);
            assert(" "@ =~= sp);
            assert(" 1"@ =~= sp + "1"@);
            assert(whole =~= address + sp + (net::ip_text(g) + sp + "1"@));
            assert(seq![net::ip_text(g)] + seq!["1"@] =~= seq![net::ip_text(g), "1"@]);
        },
        None => {
            assert(tokens(whole) + Seq::<Seq<char>>::empty() =~= tokens(whole));
        },
    }
}

} // verus!
