//! Configuration of edges and supernodes: defaults, normal form and the file
//! that both may share.

use crate::bytes::read_array;
use crate::common::NodeId;
use crate::discovery::{default_discovery, DiscoveryConfig};
use crate::invite::copy_texts;
use crate::policy::{TrafficAction, TrafficPolicy};
use crate::text::{
    hex_bytes, hex_decode, hex_encode, hex_fault_of, hex_text, is_hex_text, list_has, opt_text, texts, trim,
    trimmed,
};
use crate::tun::{mtu_floor, normalize_mtu, TunDeviceMode};
use vstd::prelude::*;

verus! {

#[derive(Debug, Clone, Copy, PartialEq, Eq, Structural)]
pub enum BackendMode {
    Tun,
    Tap,
}

impl Default for BackendMode {
    fn default() -> (m: BackendMode)
        ensures
            m == BackendMode::Tun,
    {
        BackendMode::Tun
    }
}

#[derive(Debug, Clone, Copy, PartialEq, Eq, Structural)]
pub struct BackendConfig {
    pub mode: BackendMode,
    pub desktop_l2_enhanced: bool,
}

impl Default for BackendConfig {
    fn default() -> (c: BackendConfig)
        ensures
            c == (BackendConfig { mode: BackendMode::Tun, desktop_l2_enhanced: false }),
    {
        BackendConfig { mode: BackendMode::Tun, desktop_l2_enhanced: false }
    }
}

#[derive(Debug, Clone, Copy, PartialEq, Eq, Structural)]
pub struct VirtualLanConfig {
    pub prefer_virtual_interface: bool,
}

impl Default for VirtualLanConfig {
    fn default() -> (c: VirtualLanConfig)
        ensures
            c.prefer_virtual_interface,
    {
        VirtualLanConfig { prefer_virtual_interface: true }
    }
}

#[derive(Debug)]
pub struct EdgeConfig {
    pub node_id: NodeId,
    pub private_key: [u8; 32],
    pub default_supernode: String,
    pub supernodes: Vec<String>,
    pub default_tun_name: String,
    pub local_udp_port: u16,
    pub tun_mtu: u16,
    pub stun_servers: Vec<String>,
    pub ping_interval_secs: u64,
    pub watchdog_timeout_secs: u64,
    pub log_level: String,
    pub nickname: String,
    pub discovery: DiscoveryConfig,
    pub backend: BackendConfig,
    pub virtual_lan: VirtualLanConfig,
    pub traffic_policy: TrafficPolicy,
}

#[derive(Debug)]
pub struct SupernodeConfig {
    pub listen_port: u16,
    pub public_addr: Option<String>,
    pub peers: Vec<String>,
    pub admin_token: String,
    pub management_bind: String,
    pub federation_id: String,
    pub address_pool: String,
    pub room_prefix_len: u8,
    pub room_idle_timeout_secs: u64,
    pub max_room_peers: usize,
    pub log_level: String,
}

/// The file that an edge and a supernode may share.
#[derive(Debug)]
pub struct SharedConfigFile {
    pub edge: Option<EdgeConfig>,
    pub supernode: Option<SupernodeConfig>,
}

/// The public servers that are asked for the public address.
pub const STUN_SERVERS: [&'static str; 92] = [
    "stun.miwifi.com:3478",
    "stun.qq.com:3478",
    "stun.12voip.com:3478",
    "stun.aa.net.uk:3478",
    "stun.acrobits.cz:3478",
    "stun.actionvoip.com:3478",
    "stun.annatel.net:3478",
    "stun.antisip.com:3478",
    "stun.cablenet-as.net:3478",
    "stun.cheapvoip.com:3478",
    "stun.commpeak.com:3478",
    "stun.cope.es:3478",
    "stun.dcalling.de:3478",
    "stun.dus.net:3478",
    "stun.easyvoip.com:3478",
    "stun.epygi.com:3478",
    "stun.freecall.com:3478",
    "stun.freeswitch.org:3478",
    "stun.freevoipdeal.com:3478",
    "stun.halonet.pl:3478",
    "stun.hoiio.com:3478",
    "stun.infra.net:3478",
    "stun.internetcalls.com:3478",
    "stun.intervoip.com:3478",
    "stun.ipfire.org:3478",
    "stun.ippi.fr:3478",
    "stun.it1.hr:3478",
    "stun.jumblo.com:3478",
    "stun.justvoip.com:3478",
    "stun.linphone.org:3478",
    "stun.liveo.fr:3478",
    "stun.lowratevoip.com:3478",
    "stun.myvoiptraffic.com:3478",
    "stun.mywatson.it:3478",
    "stun.netappel.com:3478",
    "stun.netgsm.com.tr:3478",
    "stun.nfon.net:3478",
    "stun.nonoh.net:3478",
    "stun.ooma.com:3478",
    "stun.pjsip.org:3478",
    "stun.poivy.com:3478",
    "stun.powervoip.com:3478",
    "stun.ppdi.com:3478",
    "stun.rockenstein.de:3478",
    "stun.rolmail.net:3478",
    "stun.rynga.com:3478",
    "stun.sip.us:3478",
    "stun.sipdiscount.com:3478",
    "stun.siplogin.de:3478",
    "stun.sipnet.net:3478",
    "stun.sipnet.ru:3478",
    "stun.siptraffic.com:3478",
    "stun.smartvoip.com:3478",
    "stun.smsdiscount.com:3478",
    "stun.solcon.nl:3478",
    "stun.solnet.ch:3478",
    "stun.sonetel.com:3478",
    "stun.sonetel.net:3478",
    "stun.srce.hr:3478",
    "stun.tel.lu:3478",
    "stun.telbo.com:3478",
    "stun.t-online.de:3478",
    "stun.twt.it:3478",
    "stun.uls.co.za:3478",
    "stun.usfamily.net:3478",
    "stun.vo.lu:3478",
    "stun.voicetrading.com:3478",
    "stun.voip.aebc.com:3478",
    "stun.voip.blackberry.com:3478",
    "stun.voip.eutelia.it:3478",
    "stun.voipblast.com:3478",
    "stun.voipbuster.com:3478",
    "stun.voipbusterpro.com:3478",
    "stun.voipcheap.com:3478",
    "stun.voipfibre.com:3478",
    "stun.voipgain.com:3478",
    "stun.voipinfocenter.com:3478",
    "stun.voipplanet.nl:3478",
    "stun.voippro.com:3478",
    "stun.voipraider.com:3478",
    "stun.voipstunt.com:3478",
    "stun.voipwise.com:3478",
    "stun.voipzoom.com:3478",
    "stun.voys.nl:3478",
    "stun.voztele.com:3478",
    "stun.webcalldirect.com:3478",
    "stun.zadarma.com:3478",
    "stun.l.google.com:19302",
    "stun1.l.google.com:19302",
    "stun2.l.google.com:19302",
    "stun3.l.google.com:19302",
    "stun4.l.google.com:19302",
];

/// `rand::random` of thirty-two bytes. Nothing is claimed of them.
#[verifier::external_body]
pub(crate) fn random_bytes() -> (b: [u8; 32]) {
    rand::random::<[u8; 32]>()
}

/// The public servers that are asked for the public address.
pub fn default_stun_servers() -> (r: Vec<String>)
    ensures
        r@.len() == STUN_SERVERS@.len(),
        forall|i: int| 0 <= i < STUN_SERVERS@.len() ==> (#[trigger] r@[i])@ == STUN_SERVERS@[i]@,
{
    let all: [&'static str; 92] = STUN_SERVERS;
    let mut r: Vec<String> = Vec::new();
    for i in 0usize..92
        invariant
            all == STUN_SERVERS,
            r@.len() == i,
            forall|k: int| 0 <= k < i ==> (#[trigger] r@[k])@ == STUN_SERVERS@[k]@,
    {
        r.push(all[i].to_string());
    }
    r
}

/// What an edge is configured with unless it says otherwise.
pub open spec fn edge_defaults(c: EdgeConfig) -> bool {
    &&& c.default_supernode@ == "127.0.0.1:7777"@
    &&& texts(c.supernodes@) == seq!["127.0.0.1:7777"@]
    &&& c.default_tun_name@ == "r2n0"@
    &&& c.local_udp_port == 0
    &&& c.tun_mtu == 1280
    &&& c.stun_servers@.len() == STUN_SERVERS@.len()
    &&& forall|i: int|
        0 <= i < STUN_SERVERS@.len() ==> (#[trigger] c.stun_servers@[i])@ == STUN_SERVERS@[i]@
    &&& c.ping_interval_secs == 2
    &&& c.watchdog_timeout_secs == 25
    &&& c.log_level@ == "info"@
    &&& c.nickname@ == "R2N-Peer"@
    &&& c.discovery == default_discovery()
    &&& c.backend == (BackendConfig { mode: BackendMode::Tun, desktop_l2_enhanced: false })
    &&& c.virtual_lan.prefer_virtual_interface
    &&& c.traffic_policy.enabled
    &&& c.traffic_policy.default_action == TrafficAction::Allow
    &&& c.traffic_policy.rules@.len() == 0
}

/// What a supernode is configured with unless it says otherwise, but for its
/// admin token.
pub open spec fn supernode_defaults(c: SupernodeConfig) -> bool {
    &&& c.listen_port == 7777
    &&& c.public_addr is None
    &&& c.peers@.len() == 0
    &&& c.management_bind@ == "127.0.0.1:7778"@
    &&& c.federation_id@ == "default"@
    &&& c.address_pool@ == "192.168.0.0/16"@
    &&& c.room_prefix_len == 24
    &&& c.room_idle_timeout_secs == 300
    &&& c.max_room_peers == 16
    &&& c.log_level@ == "info"@
}

/// The texts of a list that are more than white space.
pub open spec fn nonblank(s: Seq<Seq<char>>) -> Seq<Seq<char>>
    decreases s.len(),
{
    if s.len() == 0 {
        s
    } else {
        let before = nonblank(s.drop_last());
        if trimmed(s.last()).len() > 0 {
            before.push(s.last())
        } else {
            before
        }
    }
}

/// The supernodes of a configuration in normal form: blank ones left out, and
/// the default one among them, in front if it was missing.
pub open spec fn normal_supernodes(default: Seq<char>, list: Seq<Seq<char>>) -> Seq<Seq<char>> {
    let d = trimmed(default);
    let kept = nonblank(list);
    if d.len() > 0 && !kept.contains(d) {
        seq![d] + kept
    } else {
        kept
    }
}

/// The default supernode in normal form: the first one stands in for a blank
/// one.
pub open spec fn normal_default(default: Seq<char>, list: Seq<Seq<char>>) -> Seq<char> {
    let all = normal_supernodes(default, list);
    if trimmed(default).len() == 0 && all.len() > 0 {
        all[0]
    } else {
        default
    }
}

proof fn nonblank_holds(s: Seq<Seq<char>>, t: Seq<char>)
    ensures
        nonblank(s).contains(t) <==> s.contains(t) && trimmed(t).len() > 0,
    decreases s.len(),
{
    if s.len() > 0 {
        let front = s.drop_last();
        nonblank_holds(front, t);
        let b = nonblank(front);
        let n = nonblank(s);
        if n.contains(t) {
            let i = choose|i: int| 0 <= i < n.len() && n[i] == t;
            if i < b.len() {
                assert(b[i] == t);
                assert(b.contains(t));
                let k = choose|k: int| 0 <= k < front.len() && front[k] == t;
                assert(s[k] == t);
            } else {
                assert(s[s.len() - 1] == t);
            }
        }
        if s.contains(t) && trimmed(t).len() > 0 {
            let i = choose|i: int| 0 <= i < s.len() && s[i] == t;
            if i < front.len() {
                assert(front[i] == t);
                assert(b.contains(t));
                let k = choose|k: int| 0 <= k < b.len() && b[k] == t;
                assert(n[k] == t);
            } else {
                assert(n[n.len() - 1] == t);
            }
        }
    }
}

/// In normal form no supernode is blank, and the default one, unless it is
/// blank itself, is among them.
pub proof fn normal_form_lists_the_default(default: Seq<char>, list: Seq<Seq<char>>)
    ensures
        trimmed(default).len() > 0 ==> normal_supernodes(default, list).contains(trimmed(default)),
        forall|t: Seq<char>|
            #[trigger] nonblank(list).contains(t) ==> trimmed(t).len() > 0 && normal_supernodes(
                default,
                list,
            ).contains(t),
{
    let d = trimmed(default);
    let kept = nonblank(list);
    let all = normal_supernodes(default, list);
    if d.len() > 0 && !kept.contains(d) {
        assert(all[0] == d);
    }
    assert forall|t: Seq<char>| #[trigger] kept.contains(t) implies trimmed(t).len() > 0
        && all.contains(t) by {
        nonblank_holds(list, t);
        let i = choose|i: int| 0 <= i < kept.len() && kept[i] == t;
        if d.len() > 0 && !kept.contains(d) {
            assert(all[i + 1] == t);
        } else {
            assert(all[i] == t);
        }
    }
}

impl EdgeConfig {
    /// The default configuration of a node.
    pub fn with_identity(node_id: NodeId, private_key: [u8; 32]) -> (c: EdgeConfig)
        ensures
            c.node_id == node_id,
            c.private_key == private_key,
            edge_defaults(c),
    {
        let mut supernodes: Vec<String> = Vec::new();
        supernodes.push("127.0.0.1:7777".to_string());
        assert(texts(supernodes@) =~= seq!["127.0.0.1:7777"@]);
        EdgeConfig {
            node_id,
            private_key,
            default_supernode: "127.0.0.1:7777".to_string(),
            supernodes,
            default_tun_name: "r2n0".to_string(),
            local_udp_port: 0,
            tun_mtu: 1280,
            stun_servers: default_stun_servers(),
            ping_interval_secs: 2,
            watchdog_timeout_secs: 25,
            log_level: "info".to_string(),
            nickname: "R2N-Peer".to_string(),
            discovery: DiscoveryConfig::default(),
            backend: BackendConfig::default(),
            virtual_lan: VirtualLanConfig::default(),
            traffic_policy: TrafficPolicy::default(),
        }
    }

    /// Brings the configuration to normal form: the MTU is raised to the least
    /// one, blank supernodes are left out and the default supernode is listed.
    pub fn normalize(&mut self)
        ensures
            final(self).tun_mtu == mtu_floor(old(self).tun_mtu),
            texts(final(self).supernodes@) == normal_supernodes(
                old(self).default_supernode@,
                texts(old(self).supernodes@),
            ),
            final(self).default_supernode@ == normal_default(
                old(self).default_supernode@,
                texts(old(self).supernodes@),
            ),
            *final(self) == (EdgeConfig {
                tun_mtu: final(self).tun_mtu,
                supernodes: final(self).supernodes,
                default_supernode: final(self).default_supernode,
                ..*old(self)
            }),
    {
        self.tun_mtu = normalize_mtu(self.tun_mtu);
        let d = trim(self.default_supernode.as_str());
        let ghost list = texts(self.supernodes@);
        let mut kept: Vec<String> = Vec::new();
        let n: usize = self.supernodes.len();
        assert(list.subrange(0, 0) =~= Seq::<Seq<char>>::empty());
        assert(texts(kept@) =~= Seq::<Seq<char>>::empty());
        for i in 0..n
            invariant
                n == self.supernodes@.len(),
                list == texts(self.supernodes@),
                texts(kept@) == nonblank(list.subrange(0, i as int)),
        {
            let t = trim(self.supernodes[i].as_str());
            let ghost before = texts(kept@);
            assert(list.subrange(0, i + 1).drop_last() =~= list.subrange(0, i as int));
            assert(list.subrange(0, i + 1).last() == self.supernodes@[i as int]@);
            if !t.as_str().is_empty() {
                kept.push(self.supernodes[i].clone());
                assert(texts(kept@) =~= before.push(self.supernodes@[i as int]@));
            }
        }
        assert(list.subrange(0, n as int) =~= list);
        if !d.as_str().is_empty() && !list_has(&kept, d.as_str()) {
            let ghost before = texts(kept@);
            let copy = d.clone();
            kept.insert(0, copy);
            assert(texts(kept@) =~= seq![d@] + before);
        }
        if d.as_str().is_empty() && kept.len() > 0 {
            self.default_supernode = kept[0].clone();
            assert(texts(kept@)[0] == kept@[0]@);
        }
        self.supernodes = kept;
    }

    /// The path of the configuration file: the one that the environment names,
    /// unless it is blank, or else the one beside the program.
    pub fn get_config_path(env: Option<String>, beside_program: Option<String>) -> (r: Option<String>)
        ensures
            opt_text(r) == config_path(opt_text(env), opt_text(beside_program)),
    {
        choose_path(env, beside_program)
    }
}

/// The path of the configuration file.
pub open spec fn config_path(env: Option<Seq<char>>, fallback: Option<Seq<char>>) -> Option<
    Seq<char>,
> {
    match env {
        Some(p) => if trimmed(p).len() > 0 {
            Some(trimmed(p))
        } else {
            fallback
        },
        None => fallback,
    }
}

fn choose_path(env: Option<String>, fallback: Option<String>) -> (r: Option<String>)
    ensures
        opt_text(r) == config_path(opt_text(env), opt_text(fallback)),
{
    if let Some(p) = env {
        let t = trim(p.as_str());
        if !t.as_str().is_empty() {
            return Some(t);
        }
    }
    fallback
}

impl SupernodeConfig {
    /// The default configuration with an admin token.
    pub fn with_token(admin_token: String) -> (c: SupernodeConfig)
        ensures
            supernode_defaults(c),
            c.admin_token == admin_token,
    {
        SupernodeConfig {
            listen_port: 7777,
            public_addr: None,
            peers: Vec::new(),
            admin_token,
            management_bind: "127.0.0.1:7778".to_string(),
            federation_id: "default".to_string(),
            address_pool: "192.168.0.0/16".to_string(),
            room_prefix_len: 24,
            room_idle_timeout_secs: 300,
            max_room_peers: 16,
            log_level: "info".to_string(),
        }
    }

    /// The path of the configuration file: the one that the environment names,
    /// unless it is blank, or else the one beside the program.
    pub fn get_config_path(env: Option<String>, beside_program: Option<String>) -> (r: Option<String>)
        ensures
            opt_text(r) == config_path(opt_text(env), opt_text(beside_program)),
    {
        choose_path(env, beside_program)
    }
}

impl Default for EdgeConfig {
    /// The default configuration of a node with random identity and key.
    fn default() -> (c: EdgeConfig)
        ensures
            edge_defaults(c),
    {
        EdgeConfig::with_identity(NodeId(random_bytes()), random_bytes())
    }
}

impl Default for SupernodeConfig {
    /// The default configuration with a random admin token of sixty-four
    /// hexadecimal digits.
    fn default() -> (c: SupernodeConfig)
        ensures
            supernode_defaults(c),
            c.admin_token@.len() == 64,
            is_hex_text(c.admin_token@),
    {
        let b = random_bytes();
        proof {
            crate::text::hex_text_round_trip(b@);
        }
        SupernodeConfig::with_token(hex_encode(b.as_slice()))
    }
}

impl SharedConfigFile {
    /// What a file holds that was read as a shared file, as the configuration
    /// of an edge and as that of a supernode, as far as each reading succeeded:
    /// the first reading that did decides.
    pub fn from_readings(
        shared: Option<SharedConfigFile>,
        edge: Option<EdgeConfig>,
        supernode: Option<SupernodeConfig>,
    ) -> (r: Option<SharedConfigFile>)
        ensures
            shared is Some ==> r == shared,
            shared is None && edge is Some ==> {
                &&& r is Some
                &&& r->0.supernode is None
                &&& r->0.edge is Some
                &&& in_normal_form(edge->0, r->0.edge->0)
            },
            shared is None && edge is None && supernode is Some ==> r == Some(
                SharedConfigFile { edge: None, supernode },
            ),
            shared is None && edge is None && supernode is None ==> r is None,
    {
        if let Some(s) = shared {
            return Some(s);
        }
        if let Some(e) = edge {
            let mut e = e;
            e.normalize();
            return Some(SharedConfigFile { edge: Some(e), supernode: None });
        }
        if let Some(s) = supernode {
            return Some(SharedConfigFile { edge: None, supernode: Some(s) });
        }
        None
    }

    /// The configuration of an edge in a file: its section, or else the whole
    /// file if it reads as one, in normal form.
    pub fn edge_config(self, whole: Option<EdgeConfig>) -> (r: Option<EdgeConfig>)
        ensures
            r is Some <==> self.edge is Some || whole is Some,
            r is Some ==> in_normal_form(
                if self.edge is Some {
                    self.edge->0
                } else {
                    whole->0
                },
                r->0,
            ),
    {
        match self.edge {
            Some(e) => {
                let mut e = e;
                e.normalize();
                Some(e)
            },
            None => match whole {
                Some(e) => {
                    let mut e = e;
                    e.normalize();
                    Some(e)
                },
                None => None,
            },
        }
    }

    /// The configuration of a supernode in a file: its section, or else the
    /// whole file if it reads as one.
    pub fn supernode_config(self, whole: Option<SupernodeConfig>) -> (r: Option<SupernodeConfig>)
        ensures
            r == if self.supernode is Some {
                self.supernode
            } else {
                whole
            },
    {
        match self.supernode {
            Some(s) => Some(s),
            None => whole,
        }
    }

    /// The file with another section for the edge; the other section stays.
    pub fn with_edge(self, edge: EdgeConfig) -> (r: SharedConfigFile)
        ensures
            r == (SharedConfigFile { edge: Some(edge), supernode: self.supernode }),
    {
        SharedConfigFile { edge: Some(edge), supernode: self.supernode }
    }

    /// The file with another section for the supernode; the other section stays.
    pub fn with_supernode(self, supernode: SupernodeConfig) -> (r: SharedConfigFile)
        ensures
            r == (SharedConfigFile { edge: self.edge, supernode: Some(supernode) }),
    {
        SharedConfigFile { edge: self.edge, supernode: Some(supernode) }
    }
}

impl Default for SharedConfigFile {
    fn default() -> (c: SharedConfigFile)
        ensures
            c.edge is None,
            c.supernode is None,
    {
        SharedConfigFile { edge: None, supernode: None }
    }
}

/// One configuration is another in normal form.
pub open spec fn in_normal_form(before: EdgeConfig, after: EdgeConfig) -> bool {
    &&& after.tun_mtu == mtu_floor(before.tun_mtu)
    &&& texts(after.supernodes@) == normal_supernodes(
        before.default_supernode@,
        texts(before.supernodes@),
    )
    &&& after.default_supernode@ == normal_default(
        before.default_supernode@,
        texts(before.supernodes@),
    )
    &&& after == (EdgeConfig {
        tun_mtu: after.tun_mtu,
        supernodes: after.supernodes,
        default_supernode: after.default_supernode,
        ..before
    })
}

/// What is wrong with the text of a private key.
#[derive(Debug, PartialEq, Eq)]
pub enum KeyTextError {
    NotHex(String),
    WrongLength,
}

impl KeyTextError {
    /// The message of the error.
    pub fn to_text(&self) -> (s: String)
        ensures
            s@ == match *self {
                KeyTextError::NotHex(e) => e@,
                KeyTextError::WrongLength => "Private key must be 32 bytes"@,
            },
    {
        match self {
            KeyTextError::NotHex(e) => e.clone(),
            KeyTextError::WrongLength => "Private key must be 32 bytes".to_string(),
        }
    }
}

/// A private key in hexadecimal digits.
pub fn key_to_text(key: &[u8; 32]) -> (s: String)
    ensures
        s@ == hex_text(key@),
{
    hex_encode(key.as_slice())
}

/// Reads a private key from hexadecimal digits.
pub fn key_from_text(s: &str) -> (r: Result<[u8; 32], KeyTextError>)
    ensures
        match r {
            Ok(key) => is_hex_text(s@) && key@ == hex_bytes(s@),
            Err(KeyTextError::NotHex(e)) => !is_hex_text(s@) && e@ == hex_fault_of(s@),
            Err(KeyTextError::WrongLength) => is_hex_text(s@) && hex_bytes(s@).len() != 32,
        },
{
    match hex_decode(s) {
        Err(e) => Err(KeyTextError::NotHex(e)),
        Ok(bytes) => {
            if bytes.len() != 32 {
                return Err(KeyTextError::WrongLength);
            }
            let key: [u8; 32] = read_array(bytes.as_slice(), 0);
            assert(bytes@.subrange(0, 32) =~= bytes@);
            Ok(key)
        },
    }
}

/// The supernodes of a configuration are those that it names, blank ones left out, with
/// the default one among them: in front, unless it is there anyway.
pub proof fn the_default_supernode_is_listed_once(
    default: Seq<char>,
    list: Seq<Seq<char>>,
    t: Seq<char>,
)
    ensures
        normal_supernodes(default, list).contains(t) <==> trimmed(t).len() > 0 && list.contains(t)
            || trimmed(default).len() > 0 && t == trimmed(default),
        trimmed(default).len() > 0 && !list.contains(trimmed(default)) ==> normal_supernodes(
            default,
            list,
        )[0] == trimmed(default),
        trimmed(default).len() > 0 ==> normal_default(default, list) == default,
        trimmed(default).len() == 0 && normal_supernodes(default, list).len() > 0
            ==> normal_default(default, list) == normal_supernodes(default, list)[0],
        trimmed(default).len() == 0 && normal_supernodes(default, list).len() == 0
            ==> normal_default(default, list) == default,
{
    let d = trimmed(default);
    let rest = nonblank(list);
    let all = normal_supernodes(default, list);
    nonblank_holds(list, t);
    nonblank_holds(list, d);
    if d.len() > 0 && !rest.contains(d) {
        assert(all[0] == d);
        if all.contains(t) {
            let k = all.index_of(t);
            if k > 0 {
                assert(rest[k - 1] == t);
            }
        }
        if rest.contains(t) {
            assert(all[rest.index_of(t) + 1] == t);
        }
    }
}

/// A path that the environment gives goes first, unless it is blank; blanks around it do
/// not count.
pub proof fn the_environment_goes_first(env: Option<Seq<char>>, fallback: Option<Seq<char>>)
    ensures
        env is Some && trimmed(env->0).len() > 0 ==> config_path(env, fallback) == Some(
            trimmed(env->0),
        ),
        env is None || trimmed(env->0).len() == 0 ==> config_path(env, fallback) == fallback,
{
}

/// A configuration is put in order without touching who the node is.
pub proof fn the_normal_form_keeps_the_node(before: EdgeConfig, after: EdgeConfig)
    requires
        in_normal_form(before, after),
    ensures
        after.tun_mtu >= 1280,
        before.tun_mtu >= 1280 ==> after.tun_mtu == before.tun_mtu,
        after.node_id == before.node_id,
        after.private_key == before.private_key,
        after.nickname == before.nickname,
        after.traffic_policy == before.traffic_policy,
        after.discovery == before.discovery,
        after.backend == before.backend,
        after.local_udp_port == before.local_udp_port,
{
}

/// The defaults of a node: it looks for a supernode on its own machine, uses an interface
/// that carries packets, probes its peers every other second and lets everything through.
pub proof fn a_node_starts_with_these_defaults(c: EdgeConfig)
    requires
        edge_defaults(c),
    ensures
        c.default_supernode@ == "127.0.0.1:7777"@,
        c.supernodes@.len() == 1 && c.supernodes@[0]@ == c.default_supernode@,
        c.tun_mtu == 1280,
        c.local_udp_port == 0,
        c.ping_interval_secs == 2,
        c.watchdog_timeout_secs == 25,
        c.stun_servers@.len() == 92,
        c.traffic_policy.rules@.len() == 0 && c.traffic_policy.default_action
            == TrafficAction::Allow,
        c.backend.mode == BackendMode::Tun && !c.backend.desktop_l2_enhanced,
{
    assert(texts(c.supernodes@).len() == 1);
    assert(texts(c.supernodes@)[0] == c.supernodes@[0]@);
}

/// The defaults of a supernode: where it listens, the pool that rooms get their networks from,
/// and how long it waits.
pub proof fn a_supernode_starts_with_these_defaults(c: SupernodeConfig)
    requires
        supernode_defaults(c),
    ensures
        c.listen_port == 7777,
        c.address_pool@ == "192.168.0.0/16"@,
        c.room_prefix_len == 24,
        c.public_addr is None,
        c.room_idle_timeout_secs == 300,
        c.max_room_peers == 16,
        c.management_bind@ == "127.0.0.1:7778"@,
{
}

} // verus!
