//! The addresses and networks that an edge works with, and the device it asks
//! for.

use crate::address::addr_reads;
use crate::config::{BackendConfig, BackendMode};
use crate::invite::{
    b64_text, invite_wire, parsed_invite, primary_of, InviteData, InviteView,
};
use crate::net::{addr_text, net_text, unspecified, IpAddr, Ipv4Net, SocketAddr};
use crate::sort::{sorted_unique, texts_ascending};
use crate::text::{same_text, texts};
use crate::tun::{device_mode_label, mode_label, mtu_floor, normalize_mtu, TunDeviceMode};
use vstd::prelude::*;

verus! {

/// A network interface, as far as it matters here.
#[derive(Debug)]
pub struct Interface {
    pub name: String,
    pub up: bool,
    pub loopback: bool,
    pub tun: bool,
    pub ipv4: Vec<Ipv4Net>,
}

/// An address does not read as one.
#[derive(Debug, Clone, Copy, PartialEq, Eq)]
pub enum AddrError {
    Invalid,
}

/// The address of a supernode: where the one given stands for any, the host is
/// taken from another address, and so is the port if there is none.
pub open spec fn resolved(a: SocketAddr, fallback: SocketAddr) -> SocketAddr {
    if unspecified(a.ip) {
        SocketAddr {
            ip: fallback.ip,
            port: if a.port == 0 {
                fallback.port
            } else {
                a.port
            },
            flowinfo: 0,
            scope_id: 0,
        }
    } else {
        a
    }
}

/// The address of a supernode that a text names.
pub fn resolve_supernode_addr(invite_addr: &str, fallback: SocketAddr) -> (r: Result<
    SocketAddr,
    AddrError,
>)
    ensures
        match r {
            Ok(a) => exists|named: SocketAddr| #[trigger]
                addr_reads(invite_addr@, Some(named)) && a == resolved(named, fallback),
            Err(_) => addr_reads(invite_addr@, None),
        },
{
    match SocketAddr::parse(invite_addr) {
        Some(a) => {
            assert(addr_reads(invite_addr@, Some(a)));
            if a.ip.is_unspecified() {
                let port: u16 = if a.port == 0 {
                    fallback.port
                } else {
                    a.port
                };
                Ok(SocketAddr { ip: fallback.ip, port, flowinfo: 0, scope_id: 0 })
            } else {
                Ok(a)
            }
        },
        None => Err(AddrError::Invalid),
    }
}

/// What a line of text reads as, taken as an invitation. One that was written
/// from an invitation reads as that invitation.
pub open spec fn invite_reads(code: Seq<char>, v: Option<InviteView>) -> bool {
    &&& match v {
        Some(v) => exists|b: Seq<u8>| #[trigger] b64_text(b) == code && parsed_invite(b) == Some(v),
        None => forall|b: Seq<u8>| #[trigger] b64_text(b) == code ==> parsed_invite(b) is None,
    }
    &&& forall|w: InviteView| code == b64_text(#[trigger] invite_wire(w)) ==> v == Some(w)
}

/// An invitation under another address.
pub open spec fn readdressed(v: InviteView, addr: Seq<char>) -> InviteView {
    InviteView { primary_supernode: addr, supernode_addr: addr, ..v }
}

/// The text of an invitation under an address that can be reached, given what
/// the invitation reads as and what its own address reads as.
pub open spec fn normal_invite(
    code: Seq<char>,
    v: Option<InviteView>,
    named: Option<SocketAddr>,
    fallback: SocketAddr,
) -> Seq<char> {
    if v is Some && named is Some {
        b64_text(invite_wire(readdressed(v->0, addr_text(resolved(named->0, fallback)))))
    } else {
        code
    }
}

/// A line of text reads as an invitation, and its address as one.
pub open spec fn invite_names(
    code: Seq<char>,
    v: Option<InviteView>,
    named: Option<SocketAddr>,
) -> bool {
    &&& invite_reads(code, v)
    &&& match v {
        Some(v) => addr_reads(primary_of(v), named),
        None => named is None,
    }
}

/// Puts an address that can be reached into an invitation. What does not read as
/// an invitation with an address stays as it is.
pub fn normalize_invite_code(invite_code: &str, fallback: SocketAddr) -> (r: String)
    ensures
        exists|v: Option<InviteView>, named: Option<SocketAddr>| #[trigger]
            invite_names(invite_code@, v, named) && r@ == normal_invite(
                invite_code@,
                v,
                named,
                fallback,
            ),
{
    let mut invite = match InviteData::decode(invite_code) {
        Some(i) => i,
        None => {
            assert(invite_names(invite_code@, None, None));
            return invite_code.to_string();
        },
    };
    let ghost v = invite@;
    assert(invite_reads(invite_code@, Some(v)));
    match resolve_supernode_addr(invite.primary_supernode_addr(), fallback) {
        Ok(addr) => {
            let ghost named = choose|named: SocketAddr| #[trigger]
                addr_reads(primary_of(v), Some(named)) && addr == resolved(named, fallback);
            assert(invite_names(invite_code@, Some(v), Some(named)));
            invite.primary_supernode = addr.to_text();
            invite.supernode_addr = addr.to_text();
            assert(invite@ =~= readdressed(v, addr_text(addr)));
            invite.encode()
        },
        Err(_) => {
            assert(invite_names(invite_code@, Some(v), None));
            invite_code.to_string()
        },
    }
}

/// The addresses but for one.
pub open spec fn others(list: Seq<SocketAddr>, primary: SocketAddr) -> Seq<SocketAddr>
    decreases list.len(),
{
    if list.len() == 0 {
        Seq::empty()
    } else if list.last() != primary {
        others(list.drop_last(), primary).push(list.last())
    } else {
        others(list.drop_last(), primary)
    }
}

/// The addresses without repetitions next to one another.
pub open spec fn without_repeats(list: Seq<SocketAddr>) -> Seq<SocketAddr>
    decreases list.len(),
{
    if list.len() < 2 {
        list
    } else {
        let before = without_repeats(list.drop_last());
        if list.last() == list[list.len() - 2] {
            before
        } else {
            before.push(list.last())
        }
    }
}

/// The supernodes with one at the front, and nowhere else.
pub fn normalize_supernodes(primary: SocketAddr, supernodes: &Vec<SocketAddr>) -> (r: Vec<SocketAddr>)
    ensures
        r@ == without_repeats(seq![primary] + others(supernodes@, primary)),
{
    let mut all: Vec<SocketAddr> = Vec::new();
    all.push(primary);
    let n: usize = supernodes.len();
    let ghost list = supernodes@;
    assert(list.subrange(0, 0) =~= Seq::<SocketAddr>::empty());
    assert(all@ =~= seq![primary] + others(list.subrange(0, 0), primary));
    for i in 0..n
        invariant
            n == list.len(),
            list == supernodes@,
            all@ == seq![primary] + others(list.subrange(0, i as int), primary),
    {
        assert(list.subrange(0, i + 1).drop_last() =~= list.subrange(0, i as int));
        assert(list.subrange(0, i + 1).last() == list[i as int]);
        if supernodes[i] != primary {
            all.push(supernodes[i]);
        }
        assert(all@ =~= seq![primary] + others(list.subrange(0, i + 1), primary));
    }
    assert(list.subrange(0, n as int) =~= list);
    let ghost whole = all@;
    let mut r: Vec<SocketAddr> = Vec::new();
    let m: usize = all.len();
    assert(r@ =~= without_repeats(whole.subrange(0, 0)));
    for i in 0..m
        invariant
            m == whole.len(),
            whole == all@,
            r@ == without_repeats(whole.subrange(0, i as int)),
    {
        let ghost longer = whole.subrange(0, i + 1);
        assert(longer.drop_last() =~= whole.subrange(0, i as int));
        assert(longer.last() == whole[i as int]);
        if i == 0 || all[i] != all[i - 1] {
            r.push(all[i]);
        }
        if i == 0 {
            assert(whole.subrange(0, 0).len() == 0);
            assert(r@ =~= longer);
        } else {
            assert(longer[longer.len() - 2] == whole[i - 1]);
        }
    }
    assert(whole.subrange(0, m as int) =~= whole);
    r
}

/// Some address of the list.
pub open spec fn listed(list: Seq<SocketAddr>, a: SocketAddr) -> bool {
    exists|i: int| 0 <= i < list.len() && #[trigger] list[i] == a
}

/// An address is the first of the list that equals another.
pub open spec fn first_at(list: Seq<SocketAddr>, a: SocketAddr, i: int) -> bool {
    0 <= i < list.len() && list[i] == a && forall|j: int| 0 <= j < i ==> #[trigger] list[j] != a
}

/// The supernode to turn to next: the one behind the current one, in a circle,
/// or the first where the current one is not listed. Where there is no other,
/// the current one stays.
pub open spec fn is_next(current: SocketAddr, list: Seq<SocketAddr>, r: SocketAddr) -> bool {
    if list.len() <= 1 {
        r == current
    } else if listed(list, current) {
        exists|i: int| #[trigger]
            first_at(list, current, i) && r == if i + 1 == list.len() {
                list[0]
            } else {
                list[i + 1]
            }
    } else {
        r == list[0]
    }
}

pub fn next_supernode_after(current: SocketAddr, supernodes: &Vec<SocketAddr>) -> (r: SocketAddr)
    ensures
        is_next(current, supernodes@, r),
{
    let n: usize = supernodes.len();
    if n <= 1 {
        return current;
    }
    for i in 0..n
        invariant
            n == supernodes@.len(),
            n > 1,
            forall|j: int| 0 <= j < i ==> #[trigger] supernodes@[j] != current,
    {
        if supernodes[i] == current {
            assert(first_at(supernodes@, current, i as int));
            return if i + 1 == n {
                supernodes[0]
            } else {
                supernodes[i + 1]
            };
        }
    }
    supernodes[0]
}

/// The supernode to turn to next is another one, wherever the list names two.
pub proof fn next_is_another(current: SocketAddr, list: Seq<SocketAddr>, r: SocketAddr)
    requires
        list.len() >= 2,
        list.no_duplicates(),
        is_next(current, list, r),
    ensures
        r != current,
        listed(list, r),
{
    if listed(list, current) {
        let i = choose|i: int| #[trigger]
            first_at(list, current, i) && r == if i + 1 == list.len() {
                list[0]
            } else {
                list[i + 1]
            };
        if i + 1 == list.len() {
            assert(list[0] != list[i]);
        } else {
            assert(list[i + 1] != list[i]);
        }
    } else {
        assert(list[0] == r);
    }
}

/// An address that says where a host really is.
pub open spec fn is_real(addr: u32) -> bool {
    addr / 0x100_0000 != 127 && addr / 0x1_0000 != 0xa9fe && addr != 0
}

/// A network of the host: one of an interface that is up, is no loopback and no
/// tunnel, with an address that says where the host is.
pub open spec fn is_local_network(
    interfaces: Seq<Interface>,
    tun_name: Seq<char>,
    text: Seq<char>,
) -> bool {
    exists|i: int, k: int|
        #![trigger interfaces[i].ipv4@[k]]
        0 <= i < interfaces.len() && 0 <= k < interfaces[i].ipv4@.len() && offers(
            interfaces[i],
            tun_name,
        ) && is_real(interfaces[i].ipv4@[k].addr) && text == net_text(interfaces[i].ipv4@[k])
}

/// The networks of an interface count.
pub open spec fn offers(i: Interface, tun_name: Seq<char>) -> bool {
    i.up && !i.loopback && !i.tun && i.name@ != tun_name
}

/// The networks of the host, each once, in the order of their texts.
pub fn collect_local_networks(interfaces: &Vec<Interface>, tun_name: &str) -> (r: Vec<String>)
    requires
        forall|i: int, k: int|
            #![trigger interfaces@[i].ipv4@[k]]
            0 <= i < interfaces@.len() && 0 <= k < interfaces@[i].ipv4@.len()
                ==> interfaces@[i].ipv4@[k].wf(),
    ensures
        texts_ascending(texts(r@)),
        forall|t: Seq<char>| #[trigger]
            texts(r@).contains(t) <==> is_local_network(interfaces@, tun_name@, t),
{
    let mut found: Vec<String> = Vec::new();
    let n: usize = interfaces.len();
    for i in 0..n
        invariant
            n == interfaces@.len(),
            forall|i: int, k: int|
                #![trigger interfaces@[i].ipv4@[k]]
                0 <= i < interfaces@.len() && 0 <= k < interfaces@[i].ipv4@.len()
                    ==> interfaces@[i].ipv4@[k].wf(),
            forall|t: Seq<char>| #[trigger]
                texts(found@).contains(t) <==> found_by(interfaces@, tun_name@, t, i as int, 0),
    {
        let it = &interfaces[i];
        let m: usize = it.ipv4.len();
        if it.up && !it.loopback && !it.tun && !same_text(it.name.as_str(), tun_name) {
            for k in 0..m
                invariant
                    i < n,
                    n == interfaces@.len(),
                    *it == interfaces@[i as int],
                    m == it.ipv4@.len(),
                    offers(*it, tun_name@),
                    forall|i: int, k: int|
                        #![trigger interfaces@[i].ipv4@[k]]
                        0 <= i < interfaces@.len() && 0 <= k < interfaces@[i].ipv4@.len()
                            ==> interfaces@[i].ipv4@[k].wf(),
                    forall|t: Seq<char>| #[trigger]
                        texts(found@).contains(t) <==> found_by(
                            interfaces@,
                            tun_name@,
                            t,
                            i as int,
                            k as int,
                        ),
            {
                let net = it.ipv4[k];
                let ghost before = texts(found@);
                assert(interfaces@[i as int].ipv4@[k as int] == net);
                let counts = net.addr / 0x100_0000 != 127 && net.addr / 0x1_0000 != 0xa9fe && net.addr
                    != 0;
                if counts {
                    let s = net.to_text();
                    let ghost sv = s@;
                    found.push(s);
                    assert(texts(found@) =~= before.push(sv));
                    assert forall|t: Seq<char>| #[trigger]
                        texts(found@).contains(t) <==> found_by(
                            interfaces@,
                            tun_name@,
                            t,
                            i as int,
                            k + 1,
                        ) by {
                        pushed_contains(before, sv, t);
                        one_more(interfaces@, tun_name@, t, i as int, k as int);
                    }
                } else {
                    assert forall|t: Seq<char>| #[trigger]
                        texts(found@).contains(t) <==> found_by(
                            interfaces@,
                            tun_name@,
                            t,
                            i as int,
                            k + 1,
                        ) by {
                        one_more(interfaces@, tun_name@, t, i as int, k as int);
                    }
                }
            }
        }
        assert forall|t: Seq<char>| #[trigger]
            texts(found@).contains(t) <==> found_by(interfaces@, tun_name@, t, i + 1, 0) by {
            next_interface(interfaces@, tun_name@, t, i as int);
        }
    }
    let r = sorted_unique(&found);
    assert forall|t: Seq<char>| #[trigger]
        texts(r@).contains(t) <==> is_local_network(interfaces@, tun_name@, t) by {
        all_interfaces(interfaces@, tun_name@, t);
    }
    r
}

/// A network was found among the first interfaces and the first networks of the
/// next one.
spec fn found_by(
    interfaces: Seq<Interface>,
    tun_name: Seq<char>,
    text: Seq<char>,
    upto: int,
    part: int,
) -> bool {
    exists|i: int, k: int|
        #![trigger interfaces[i].ipv4@[k]]
        0 <= i < interfaces.len() && 0 <= k < interfaces[i].ipv4@.len() && (i < upto || (i == upto
            && k < part)) && offers(interfaces[i], tun_name) && is_real(interfaces[i].ipv4@[k].addr)
            && text == net_text(interfaces[i].ipv4@[k])
}

proof fn pushed_contains(s: Seq<Seq<char>>, x: Seq<char>, t: Seq<char>)
    ensures
        s.push(x).contains(t) <==> s.contains(t) || t == x,
{
    let p = s.push(x);
    if s.contains(t) {
        let j = choose|j: int| 0 <= j < s.len() && s[j] == t;
        assert(p[j] == t);
    }
    if t == x {
        assert(p[s.len() as int] == t);
    }
}

proof fn one_more(ifs: Seq<Interface>, tun: Seq<char>, t: Seq<char>, i: int, k: int)
    requires
        0 <= i < ifs.len(),
        0 <= k < ifs[i].ipv4@.len(),
        offers(ifs[i], tun),
    ensures
        found_by(ifs, tun, t, i, k + 1) <==> found_by(ifs, tun, t, i, k) || (is_real(
            ifs[i].ipv4@[k].addr,
        ) && t == net_text(ifs[i].ipv4@[k])),
{
    if found_by(ifs, tun, t, i, k + 1) {
        let (a, b) = choose|a: int, b: int|
            #![trigger ifs[a].ipv4@[b]]
            0 <= a < ifs.len() && 0 <= b < ifs[a].ipv4@.len() && (a < i || (a == i && b < k + 1))
                && offers(ifs[a], tun) && is_real(ifs[a].ipv4@[b].addr) && t == net_text(
                ifs[a].ipv4@[b],
            );
        if a < i || b < k {
            assert(found_by(ifs, tun, t, i, k));
        }
    }
}

proof fn next_interface(ifs: Seq<Interface>, tun: Seq<char>, t: Seq<char>, i: int)
    requires
        0 <= i < ifs.len(),
    ensures
        found_by(ifs, tun, t, i + 1, 0) <==> found_by(
            ifs,
            tun,
            t,
            i,
            if offers(ifs[i], tun) {
                ifs[i].ipv4@.len() as int
            } else {
                0
            },
        ),
{
}

proof fn all_interfaces(ifs: Seq<Interface>, tun: Seq<char>, t: Seq<char>)
    ensures
        found_by(ifs, tun, t, ifs.len() as int, 0) <==> is_local_network(ifs, tun, t),
{
}

/// The device that a configuration asks for.
pub open spec fn requested_mode(b: BackendConfig) -> TunDeviceMode {
    if b.mode == BackendMode::Tap || b.desktop_l2_enhanced {
        TunDeviceMode::Tap
    } else {
        TunDeviceMode::Tun
    }
}

pub fn requested_tun_mode(backend: &BackendConfig) -> (m: TunDeviceMode)
    ensures
        m == requested_mode(*backend),
{
    if backend.mode == BackendMode::Tap || backend.desktop_l2_enhanced {
        TunDeviceMode::Tap
    } else {
        TunDeviceMode::Tun
    }
}

/// Raises a configured MTU to the least one and leaves higher ones alone.
pub fn normalize_tun_mtu(mtu: u16) -> (r: u16)
    ensures
        r == mtu_floor(mtu),
{
    normalize_mtu(mtu)
}

/// The name of the device that a configuration asks for.
pub fn backend_request_label(backend: &BackendConfig) -> (s: &'static str)
    ensures
        s@ == mode_label(requested_mode(*backend)),
{
    device_mode_label(requested_tun_mode(backend))
}

/// What is tried when a device could not be made: where it was to carry Ethernet
/// frames, one that carries IP packets, with a warning.
pub fn device_fallback(requested: TunDeviceMode, error: &str) -> (r: Option<(TunDeviceMode, String)>)
    ensures
        match requested {
            TunDeviceMode::Tun => r is None,
            TunDeviceMode::Tap => match r {
                Some((mode, warning)) => {
                    &&& mode == TunDeviceMode::Tun
                    &&& warning@ == "requested TAP/L2 backend is unavailable: "@ + error@
                        + "; falling back to TUN"@
                },
                None => false,
            },
        },
{
    match requested {
        TunDeviceMode::Tun => None,
        TunDeviceMode::Tap => Some(
            (
                TunDeviceMode::Tun,
                "requested TAP/L2 backend is unavailable: ".to_string().concat(error).concat(
                    "; falling back to TUN",
                ),
            ),
        ),
    }
}

/// An address that says nothing of the machine stands for the one that is known, at its own
/// port if it names one; any other address stands for itself.
pub proof fn blank_addresses_stand_for_the_known_one(a: SocketAddr, fallback: SocketAddr)
    ensures
        !unspecified(a.ip) ==> resolved(a, fallback) == a,
        unspecified(a.ip) ==> resolved(a, fallback).ip == fallback.ip,
        unspecified(a.ip) && a.port != 0 ==> resolved(a, fallback).port == a.port,
        unspecified(a.ip) && a.port == 0 ==> resolved(a, fallback).port == fallback.port,
        !unspecified(fallback.ip) ==> resolved(resolved(a, fallback), fallback) == resolved(
            a,
            fallback,
        ),
{
}

proof fn others_are(list: Seq<SocketAddr>, primary: SocketAddr, a: SocketAddr)
    ensures
        others(list, primary).contains(a) <==> list.contains(a) && a != primary,
    decreases list.len(),
{
    if list.len() > 0 {
        let short = list.drop_last();
        others_are(short, primary, a);
        let before = others(short, primary);
        let all = others(list, primary);
        if all.contains(a) {
            let k = all.index_of(a);
            if k < before.len() {
                assert(before[k] == a);
                assert(list[short.index_of(a)] == a);
            } else {
                assert(list[list.len() - 1] == a);
            }
        }
        if list.contains(a) && a != primary {
            let k = list.index_of(a);
            if k < short.len() {
                assert(short[k] == a);
                assert(all[before.index_of(a)] == a);
            } else {
                assert(all[all.len() - 1] == a);
            }
        }
    }
}

proof fn repeats_keep(list: Seq<SocketAddr>, a: SocketAddr)
    ensures
        without_repeats(list).contains(a) <==> list.contains(a),
        list.len() > 0 ==> without_repeats(list).len() > 0 && without_repeats(list)[0] == list[0]
            && without_repeats(list).last() == list.last(),
    decreases list.len(),
{
    if list.len() >= 2 {
        let short = list.drop_last();
        repeats_keep(short, a);
        let before = without_repeats(short);
        let all = without_repeats(list);
        assert(short.last() == list[list.len() - 2]);
        if all.contains(a) {
            let k = all.index_of(a);
            if k < before.len() {
                assert(before[k] == a);
                assert(list[short.index_of(a)] == a);
            } else {
                assert(list[list.len() - 1] == a);
            }
        }
        if list.contains(a) {
            let k = list.index_of(a);
            if k < short.len() {
                assert(short[k] == a);
                assert(all[before.index_of(a)] == a);
            } else if list.last() == list[list.len() - 2] {
                assert(before[before.len() - 1] == a);
                assert(all[all.len() - 1] == a);
            } else {
                assert(all[all.len() - 1] == a);
            }
        }
    }
}

/// Of the supernodes the primary one comes first; all that were named are there, and no
/// others.
pub proof fn the_primary_supernode_comes_first(
    primary: SocketAddr,
    list: Seq<SocketAddr>,
    a: SocketAddr,
)
    ensures
        ({
            let all = without_repeats(seq![primary] + others(list, primary));
            &&& all.len() > 0
            &&& all[0] == primary
            &&& all.contains(a) <==> a == primary || list.contains(a)
        }),
{
    let more = seq![primary] + others(list, primary);
    others_are(list, primary, a);
    repeats_keep(more, a);
    assert(more[0] == primary);
    if others(list, primary).contains(a) {
        let k = others(list, primary).index_of(a);
        assert(more[k + 1] == a);
    }
    if more.contains(a) {
        let k = more.index_of(a);
        if k > 0 {
            assert(others(list, primary)[k - 1] == a);
        }
    }
}

/// After a supernode comes the one that follows it on the list, and after the last one
/// the first; after one that is not on the list the first. Where there is no other, it
/// stays.
pub proof fn supernodes_take_turns(
    current: SocketAddr,
    list: Seq<SocketAddr>,
    r: SocketAddr,
    i: int,
)
    requires
        is_next(current, list, r),
        list.no_duplicates(),
    ensures
        list.len() <= 1 ==> r == current,
        list.len() >= 2 && 0 <= i < list.len() - 1 && list[i] == current ==> r == list[i + 1],
        list.len() >= 2 && list[list.len() - 1] == current ==> r == list[0],
        list.len() >= 2 && !list.contains(current) ==> r == list[0],
{
    if list.len() >= 2 && listed(list, current) {
        let k = choose|k: int| #[trigger]
            first_at(list, current, k) && r == if k + 1 == list.len() {
                list[0]
            } else {
                list[k + 1]
            };
        assert(list[k] == current);
    }
    if list.len() >= 2 && !listed(list, current) {
        if 0 <= i < list.len() && list[i] == current {
            assert(listed(list, current));
        }
        if list[list.len() - 1] == current {
            assert(listed(list, current));
        }
    }
    if !list.contains(current) && listed(list, current) {
        let k = choose|k: int| 0 <= k < list.len() && #[trigger] list[k] == current;
        assert(list.contains(current));
    }
}

/// An address of the loopback network, one that a machine gives itself and the one of no
/// machine say nothing of a network.
pub proof fn made_up_addresses_are_not_real(a: int, b: int, c: int, d: int)
    requires
        0 <= a < 256,
        0 <= b < 256,
        0 <= c < 256,
        0 <= d < 256,
    ensures
        is_real((a * 16_777_216 + b * 65_536 + c * 256 + d) as u32) <==> a != 127 && !(a == 169 && b
            == 254) && !(a == 0 && b == 0 && c == 0 && d == 0),
{
    let x = a * 16_777_216 + b * 65_536 + c * 256 + d;
    assert(x / 0x100_0000 == a);
    assert(x / 0x1_0000 == a * 256 + b);
}

/// Only interfaces that are up count, that lead outside, and that are not those of a
/// virtual network.
pub proof fn only_outside_interfaces_count(i: Interface, tun_name: Seq<char>)
    ensures
        offers(i, tun_name) ==> i.up && !i.loopback && !i.tun && i.name@ != tun_name,
        i.up && !i.loopback && !i.tun && i.name@ != tun_name ==> offers(i, tun_name),
{
}

/// Ethernet frames are asked for where this is configured, either way.
pub proof fn either_switch_asks_for_frames(b: BackendConfig)
    ensures
        requested_mode(b) == TunDeviceMode::Tap <==> b.mode == BackendMode::Tap
            || b.desktop_l2_enhanced,
{
}

/// An invitation that is handed on leads to the same room with the same token, and names
/// the supernode that is known.
pub proof fn invitations_keep_their_room(
    code: Seq<char>,
    v: Option<InviteView>,
    named: Option<SocketAddr>,
    fallback: SocketAddr,
    w: InviteView,
)
    requires
        v is Some,
        named is Some,
        w == readdressed(v->0, addr_text(resolved(named->0, fallback))),
    ensures
        normal_invite(code, v, named, fallback) == b64_text(invite_wire(w)),
        w.room_id == v->0.room_id,
        w.token == v->0.token,
        w.room_pub_key == v->0.room_pub_key,
        w.virtual_cidr == v->0.virtual_cidr,
        w.signature == v->0.signature,
        w.fallback_supernodes == v->0.fallback_supernodes,
        !unspecified(named->0.ip) ==> w.primary_supernode == addr_text(named->0),
        unspecified(named->0.ip) && named->0.port != 0 ==> w.primary_supernode == addr_text(
            SocketAddr { ip: fallback.ip, port: named->0.port, flowinfo: 0, scope_id: 0 },
        ),
        w.supernode_addr == w.primary_supernode,
        normal_invite(code, None, named, fallback) == code,
        normal_invite(code, v, None, fallback) == code,
{
}

/// The network of an address that says where the host is, on an interface that leads outside,
/// is one of the host's; the loopback and the tunnel itself give none.
pub proof fn outside_networks_are_told(
    interfaces: Seq<Interface>,
    tun_name: Seq<char>,
    i: int,
    k: int,
)
    requires
        0 <= i < interfaces.len(),
        0 <= k < interfaces[i].ipv4@.len(),
    ensures
        interfaces[i].up && !interfaces[i].loopback && !interfaces[i].tun && interfaces[i].name@
            != tun_name && is_real(interfaces[i].ipv4@[k].addr) ==> is_local_network(
            interfaces,
            tun_name,
            net_text(interfaces[i].ipv4@[k]),
        ),
        (forall|j: int|
            0 <= j < interfaces.len() ==> (#[trigger] interfaces[j]).loopback || !interfaces[j].up
                || interfaces[j].tun || interfaces[j].name@ == tun_name) ==> !is_local_network(
            interfaces,
            tun_name,
            net_text(interfaces[i].ipv4@[k]),
        ),
{
    let n = interfaces[i].ipv4@[k];
    if is_local_network(interfaces, tun_name, net_text(n)) && (forall|j: int|
        0 <= j < interfaces.len() ==> (#[trigger] interfaces[j]).loopback || !interfaces[j].up
            || interfaces[j].tun || interfaces[j].name@ == tun_name) {
        let (a, b) = choose|a: int, b: int|
            #![trigger interfaces[a].ipv4@[b]]
            0 <= a < interfaces.len() && 0 <= b < interfaces[a].ipv4@.len() && offers(
                interfaces[a],
                tun_name,
            ) && is_real(interfaces[a].ipv4@[b].addr) && net_text(n) == net_text(
                interfaces[a].ipv4@[b],
            );
        assert(interfaces[a].loopback || !interfaces[a].up || interfaces[a].tun
            || interfaces[a].name@ == tun_name);
    }
}

} // verus!
