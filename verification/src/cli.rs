//! The commands of the command line, and what they ask of the edge.

use crate::config::EdgeConfig;
use crate::ipc::{Request, RequestView};
use crate::net::SocketAddr;
use crate::policy::PortRange;
use crate::text::{
    chars_of, decimal, list_has, number, opt_text, parse_number, push_decimal, same_text,
    split_at_char, split_on, text_of, texts, trim, trimmed,
};
use vstd::prelude::*;
use vstd::slice::slice_subrange;

verus! {

/// How often a client looks for an edge that it started.
pub const DAEMON_BOOT_WAIT_RETRIES: usize = 15;

/// Milliseconds between two looks.
pub const DAEMON_BOOT_WAIT_INTERVAL_MS: u64 = 200;

/// Seconds within which an edge answers.
pub const COMMAND_RESPONSE_TIMEOUT_SECS: u64 = 30;

/// Seconds within which an edge that was just started answers.
pub const COLD_START_COMMAND_RESPONSE_TIMEOUT_SECS: u64 = 40;

#[derive(Debug)]
pub struct Cli {
    pub command: Commands,
}

#[derive(Debug)]
#[allow(inconsistent_fields)]
pub enum Commands {
    Room { action: RoomCommands },
    Status,
    Metrics,
    Diagnose,
    Doctor,
    Rules { action: RulesCommands },
    Supernode { action: SupernodeCommands },
    Route { action: RouteCommands },
    L2 { action: L2Commands },
    Stop,
    Daemon { supernode: Option<String>, tun: Option<String> },
}

#[derive(Debug)]
pub enum RulesCommands {
    List,
    Add {
        id: String,
        action: String,
        direction: String,
        protocol: String,
        src_cidr: Option<String>,
        dst_cidr: Option<String>,
        src_port: Option<String>,
        dst_port: Option<String>,
        description: Option<String>,
    },
    Remove { id: String },
    Enable,
    Disable,
}

#[derive(Debug)]
pub enum SupernodeCommands {
    List,
    Switch { addr: String },
}

#[derive(Debug)]
pub enum RouteCommands {
    Show,
}

#[derive(Debug)]
pub enum L2Commands {
    Table,
}

#[derive(Debug)]
pub enum RoomCommands {
    Create { name: String },
    Join { invite: Option<String>, index: Option<usize> },
    Leave,
    List,
    Active,
    History,
}

/// What a command asks of the edge. Joining takes an invitation that is to be
/// picked first, and running the edge asks for nothing.
pub open spec fn request_of(c: Commands) -> Option<RequestView> {
    match c {
        Commands::Room { action } => match action {
            RoomCommands::Create { name } => Some(RequestView::Create { name: name@ }),
            RoomCommands::Join { .. } => None,
            RoomCommands::Leave => Some(RequestView::Leave),
            RoomCommands::List => Some(RequestView::Peers),
            RoomCommands::Active => Some(RequestView::Active),
            RoomCommands::History => Some(RequestView::History),
        },
        Commands::Status => Some(RequestView::Status),
        Commands::Metrics => Some(RequestView::Metrics),
        Commands::Diagnose => Some(RequestView::Diagnose),
        Commands::Doctor => Some(RequestView::Diagnose),
        Commands::Rules { action } => match action {
            RulesCommands::List => Some(RequestView::RulesList),
            RulesCommands::Add { .. } => Some(RequestView::RulesAdd),
            RulesCommands::Remove { id } => Some(RequestView::RulesRemove { id: id@ }),
            RulesCommands::Enable => Some(RequestView::RulesEnable { enabled: true }),
            RulesCommands::Disable => Some(RequestView::RulesEnable { enabled: false }),
        },
        Commands::Supernode { action } => match action {
            SupernodeCommands::List => Some(RequestView::Supernodes),
            SupernodeCommands::Switch { addr } => Some(
                RequestView::SwitchSupernode { supernode: addr@ },
            ),
        },
        Commands::Route { .. } => Some(RequestView::Routes),
        Commands::L2 { .. } => Some(RequestView::L2Table),
        Commands::Stop => Some(RequestView::Stop),
        Commands::Daemon { .. } => None,
    }
}

impl Commands {
    /// What the command asks of the edge.
    pub fn request(&self) -> (r: Option<Request>)
        ensures
            crate::ipc::request_view(r) == request_of(*self),
    {
        match self {
            Commands::Room { action } => match action {
                RoomCommands::Create { name } => Some(Request::Create { name: name.clone() }),
                RoomCommands::Join { .. } => None,
                RoomCommands::Leave => Some(Request::Leave),
                RoomCommands::List => Some(Request::Peers),
                RoomCommands::Active => Some(Request::Active),
                RoomCommands::History => Some(Request::History),
            },
            Commands::Status => Some(Request::Status),
            Commands::Metrics => Some(Request::Metrics),
            Commands::Diagnose | Commands::Doctor => Some(Request::Diagnose),
            Commands::Rules { action } => match action {
                RulesCommands::List => Some(Request::RulesList),
                RulesCommands::Add { .. } => Some(Request::RulesAdd),
                RulesCommands::Remove { id } => Some(Request::RulesRemove { id: id.clone() }),
                RulesCommands::Enable => Some(Request::RulesEnable { enabled: true }),
                RulesCommands::Disable => Some(Request::RulesEnable { enabled: false }),
            },
            Commands::Supernode { action } => match action {
                SupernodeCommands::List => Some(Request::Supernodes),
                SupernodeCommands::Switch { addr } => Some(
                    Request::SwitchSupernode { supernode: addr.clone() },
                ),
            },
            Commands::Route { .. } => Some(Request::Routes),
            Commands::L2 { .. } => Some(Request::L2Table),
            Commands::Stop => Some(Request::Stop),
            Commands::Daemon { .. } => None,
        }
    }
}

/// Why no invitation could be picked.
#[derive(Debug, Clone, Copy, PartialEq, Eq, Structural)]
pub enum PickError {
    NoSuchIndex,
    NoInvite,
    Unspecified,
}

impl PickError {
    pub fn to_text(&self) -> (s: &'static str)
        ensures
            s@ == match *self {
                PickError::NoSuchIndex =>
                    "Invalid history index. Please run 'r2n room history' to view valid indexes."@,
                PickError::NoInvite => "Invalid invite code in history"@,
                PickError::Unspecified =>
                    "Please specify either an invite code with --invite, or a history index with --index."@,
            },
    {
        match self {
            PickError::NoSuchIndex =>
                "Invalid history index. Please run 'r2n room history' to view valid indexes.",
            PickError::NoInvite => "Invalid invite code in history",
            PickError::Unspecified =>
                "Please specify either an invite code with --invite, or a history index with --index.",
        }
    }
}

/// The invitation to join by: the one that stands at a place in the history,
/// counted from one, or else the one given.
pub fn pick_invite(index: Option<usize>, invite: Option<String>, history: &Vec<Option<String>>) -> (r:
    Result<String, PickError>)
    ensures
        invite_picked(index, invite, history@, r),
{
    match index {
        Some(i) => {
            if i == 0 || i > history.len() {
                return Err(PickError::NoSuchIndex);
            }
            match &history[i - 1] {
                Some(code) => Ok(code.clone()),
                None => Err(PickError::NoInvite),
            }
        },
        None => match invite {
            Some(code) => Ok(code),
            None => Err(PickError::Unspecified),
        },
    }
}

/// Milliseconds to wait before a client looks again for an edge that it started,
/// given how often it has looked; none where it gives up.
pub fn boot_wait(looks: usize) -> (r: Option<u64>)
    ensures
        r == wait_before_look(looks as int),
{
    if looks < DAEMON_BOOT_WAIT_RETRIES {
        Some(DAEMON_BOOT_WAIT_INTERVAL_MS)
    } else {
        None
    }
}

/// Seconds within which an answer is due.
pub fn response_timeout(started: bool) -> (r: u64)
    ensures
        r == answer_due(started),
{
    if started {
        COLD_START_COMMAND_RESPONSE_TIMEOUT_SECS
    } else {
        COMMAND_RESPONSE_TIMEOUT_SECS
    }
}

/// What is said when no answer came.
pub fn timeout_text(started: bool) -> (s: String)
    ensures
        s@ == if started {
            "daemon started but did not answer the first command within "@ + decimal(40)
                + " seconds; try running 'r2n daemon' manually to inspect startup logs"@
        } else {
            "daemon did not answer within "@ + decimal(30) + " seconds"@
        },
{
    let secs: u64 = response_timeout(started);
    if started {
        let mut s = "daemon started but did not answer the first command within ".to_string();
        push_decimal(&mut s, secs);
        s.append(" seconds; try running 'r2n daemon' manually to inspect startup logs");
        s
    } else {
        let mut s = "daemon did not answer within ".to_string();
        push_decimal(&mut s, secs);
        s.append(" seconds");
        s
    }
}

/// What is wrong with a list of ports.
#[derive(Debug, PartialEq, Eq)]
pub enum PortRangeError {
    /// This is not the number of a port.
    NotANumber(String),
    /// This range ends before it starts.
    Reversed(String),
}

/// The parts of a list of ports: between commas, without the white space around
/// them, and not empty.
pub open spec fn port_parts(pieces: Seq<Seq<char>>) -> Seq<Seq<char>>
    decreases pieces.len(),
{
    if pieces.len() == 0 {
        Seq::empty()
    } else {
        let before = port_parts(pieces.drop_last());
        if trimmed(pieces.last()).len() > 0 {
            before.push(trimmed(pieces.last()))
        } else {
            before
        }
    }
}

/// Where the first dash of a text stands.
pub open spec fn dash_at(s: Seq<char>, i: int) -> bool {
    0 <= i < s.len() && s[i] == '-' && forall|j: int| 0 <= j < i ==> #[trigger] s[j] != '-'
}

/// A text has no dash.
pub open spec fn no_dash(s: Seq<char>) -> bool {
    forall|j: int| 0 <= j < s.len() ==> #[trigger] s[j] != '-'
}

/// The two ends that a part names: what stands around its first dash, or the
/// whole of it twice.
pub open spec fn ends(part: Seq<char>, a: Seq<char>, b: Seq<char>) -> bool {
    if no_dash(part) {
        a == part && b == part
    } else {
        exists|i: int| #[trigger]
            dash_at(part, i) && a == part.subrange(0, i) && b == part.subrange(
                i + 1,
                part.len() as int,
            )
    }
}

/// A part names this range.
pub open spec fn names_range(part: Seq<char>, r: PortRange) -> bool {
    exists|a: Seq<char>, b: Seq<char>| #[trigger]
        ends(part, a, b) && number(a, 65535) == Some(r.start as nat) && number(b, 65535) == Some(
            r.end as nat,
        ) && r.start <= r.end
}

/// What is wrong with a part.
pub open spec fn part_fault(part: Seq<char>, e: PortRangeError) -> bool {
    exists|a: Seq<char>, b: Seq<char>| #[trigger]
        ends(part, a, b) && match e {
            PortRangeError::NotANumber(t) => {
                ||| (number(a, 65535) is None && t@ == a)
                ||| (number(a, 65535) is Some && number(b, 65535) is None && t@ == b)
            },
            PortRangeError::Reversed(t) => number(a, 65535) is Some && number(b, 65535) is Some
                && number(a, 65535)->0 > number(b, 65535)->0 && t@ == part,
        }
}

/// Reads one part of a list of ports.
fn parse_port_range(part: &str) -> (r: Result<PortRange, PortRangeError>)
    ensures
        match r {
            Ok(range) => names_range(part@, range),
            Err(e) => part_fault(part@, e),
        },
{
    let all = chars_of(part);
    let n: usize = all.len();
    let mut dash: usize = n;
    for i in 0..n
        invariant
            n == all@.len(),
            dash == n ==> forall|j: int| 0 <= j < i ==> #[trigger] all@[j] != '-',
            dash < n ==> dash_at(all@, dash as int),
            dash <= n,
    {
        if dash == n && all[i] == '-' {
            dash = i;
        }
    }
    let (from, to): (&[char], &[char]) = if dash < n {
        (slice_subrange(all.as_slice(), 0, dash), slice_subrange(all.as_slice(), dash + 1, n))
    } else {
        (all.as_slice(), all.as_slice())
    };
    assert(ends(part@, from@, to@)) by {
        if dash < n {
            assert(!no_dash(part@)) by {
                assert(part@[dash as int] == '-');
            }
            assert(dash_at(part@, dash as int));
        }
    }
    let start: u64 = match parse_number(from, 65535) {
        Some(v) => v,
        None => {
            return Err(PortRangeError::NotANumber(text_of(from)));
        },
    };
    let end: u64 = match parse_number(to, 65535) {
        Some(v) => v,
        None => {
            return Err(PortRangeError::NotANumber(text_of(to)));
        },
    };
    if start > end {
        return Err(PortRangeError::Reversed(part.to_string()));
    }
    Ok(PortRange { start: start as u16, end: end as u16 })
}

/// A part names a range.
pub open spec fn is_range(part: Seq<char>) -> bool {
    exists|r: PortRange| names_range(part, r)
}

proof fn parts_grow(pieces: Seq<Seq<char>>, k: int)
    requires
        0 <= k <= pieces.len(),
    ensures
        port_parts(pieces.subrange(0, k)).len() <= port_parts(pieces).len(),
        forall|i: int|
            0 <= i < port_parts(pieces.subrange(0, k)).len() ==> #[trigger] port_parts(pieces)[i]
                == port_parts(pieces.subrange(0, k))[i],
    decreases pieces.len(),
{
    if k == pieces.len() {
        assert(pieces.subrange(0, k) =~= pieces);
    } else {
        let front = pieces.drop_last();
        parts_grow(front, k);
        assert(front.subrange(0, k) =~= pieces.subrange(0, k));
        let before = port_parts(front);
        let all = port_parts(pieces);
        assert forall|i: int| 0 <= i < port_parts(pieces.subrange(0, k)).len() implies
            #[trigger] all[i] == port_parts(pieces.subrange(0, k))[i] by {
            assert(all[i] == before[i]);
        }
    }
}

/// Reads a list of ports and ranges of ports. The first part that is wrong is
/// told of.
pub fn parse_port_ranges(value: Option<String>) -> (r: Result<Vec<PortRange>, PortRangeError>)
    ensures
        value is None ==> r is Ok && r->Ok_0@.len() == 0,
        value is Some ==> ports_read(port_parts(split_at_char(value->0@, ',')), r),
{
    let text = match value {
        Some(v) => v,
        None => {
            return Ok(Vec::new());
        },
    };
    let chars = chars_of(text.as_str());
    let pieces = split_on(chars.as_slice(), ',');
    let ghost all = split_at_char(text@, ',');
    let mut list: Vec<PortRange> = Vec::new();
    let n: usize = pieces.len();
    let ghost mut parts = Seq::<Seq<char>>::empty();
    assert(all.subrange(0, 0) =~= Seq::<Seq<char>>::empty());
    for i in 0..n
        invariant
            n == pieces@.len(),
            n == all.len(),
            value == Some(text),
            all == split_at_char(text@, ','),
            forall|k: int| 0 <= k < n ==> (#[trigger] pieces@[k])@ == all[k],
            parts == port_parts(all.subrange(0, i as int)),
            list@.len() == parts.len(),
            forall|k: int| 0 <= k < parts.len() ==> names_range(#[trigger] parts[k], list@[k]),
    {
        let ghost before = parts;
        let ghost longer = all.subrange(0, i + 1);
        assert(longer.drop_last() =~= all.subrange(0, i as int));
        assert(longer.last() == all[i as int]);
        let piece = text_of(pieces[i].as_slice());
        let part = trim(piece.as_str());
        assert(pieces@[i as int]@ == all[i as int]);
        if !part.as_str().is_empty() {
            let ghost whole = port_parts(all);
            proof {
                parts_grow(all, i + 1);
                parts = before.push(part@);
                assert(port_parts(longer) == parts);
            }
            match parse_port_range(part.as_str()) {
                Ok(range) => {
                    list.push(range);
                    assert forall|k: int| 0 <= k < parts.len() implies names_range(
                        #[trigger] parts[k],
                        list@[k],
                    ) by {
                        if k < before.len() {
                            assert(parts[k] == before[k]);
                        }
                    }
                },
                Err(e) => {
                    proof {
                        let m = before.len() as int;
                        assert(whole[m] == parts[m]);
                        assert(part_fault(whole[m], e));
                        assert forall|j: int| 0 <= j < m implies is_range(#[trigger] whole[j]) by {
                            assert(whole[j] == parts[j]);
                            assert(parts[j] == before[j]);
                            assert(names_range(before[j], list@[j]));
                        }
                    }
                    return Err(e);
                },
            }
        }
    }
    assert(all.subrange(0, n as int) =~= all);
    Ok(list)
}

/// What comes of the parts of a list of ports.
pub open spec fn ports_read(
    parts: Seq<Seq<char>>,
    r: Result<Vec<PortRange>, PortRangeError>,
) -> bool {
    match r {
        Ok(list) => {
            &&& list@.len() == parts.len()
            &&& forall|i: int| 0 <= i < parts.len() ==> names_range(#[trigger] parts[i], list@[i])
        },
        Err(e) => exists|i: int|
            0 <= i < parts.len() && part_fault(#[trigger] parts[i], e) && forall|j: int|
                0 <= j < i ==> is_range(#[trigger] parts[j]),
    }
}

/// Takes what the command line says over the configuration, and tells whether
/// the configuration is to be kept.
pub fn apply_overrides(config: &mut EdgeConfig, supernode: Option<String>, tun: Option<String>) -> (save:
    bool)
    ensures
        overridden(*old(config), *final(config), opt_text(supernode), opt_text(tun), save),
{
    let mut save = false;
    let ghost was = *config;
    if let Some(s) = supernode {
        if !same_text(s.as_str(), config.default_supernode.as_str()) {
            if !list_has(&config.supernodes, s.as_str()) {
                config.supernodes.insert(0, s.clone());
                assert(texts(config.supernodes@) =~= seq![s@] + texts(was.supernodes@));
            }
            config.default_supernode = s;
            save = true;
        }
    }
    if let Some(t) = tun {
        if !same_text(t.as_str(), config.default_tun_name.as_str()) {
            config.default_tun_name = t;
            save = true;
        }
    }
    save
}

/// The supernodes with one at the front, unless it is among them.
pub fn with_primary(supernodes: Vec<SocketAddr>, primary: SocketAddr) -> (r: Vec<SocketAddr>)
    ensures
        r@ == led_by(supernodes@, primary),
{
    let n: usize = supernodes.len();
    for i in 0..n
        invariant
            n == supernodes@.len(),
            forall|k: int| 0 <= k < i ==> #[trigger] supernodes@[k] != primary,
    {
        if supernodes[i] == primary {
            assert(supernodes@[i as int] == primary);
            return supernodes;
        }
    }
    let mut r = supernodes;
    r.insert(0, primary);
    assert(r@ =~= seq![primary] + supernodes@);
    r
}

/// Which invitation is followed: the one of the history that is named by its number, or
/// the one that is given.
pub open spec fn invite_picked(
    index: Option<usize>,
    invite: Option<String>,
    history: Seq<Option<String>>,
    r: Result<String, PickError>,
) -> bool {
    match index {
        Some(i) => if i == 0 || i > history.len() {
            r == Err::<String, PickError>(PickError::NoSuchIndex)
        } else {
            match history[i - 1] {
                Some(code) => r is Ok && r->Ok_0@ == code@,
                None => r == Err::<String, PickError>(PickError::NoInvite),
            }
        },
        None => match invite {
            Some(code) => r == Ok::<String, PickError>(code),
            None => r == Err::<String, PickError>(PickError::Unspecified),
        },
    }
}

/// How long to wait before looking again whether the service is there, after so many
/// looks.
pub open spec fn wait_before_look(looks: int) -> Option<u64> {
    if looks < DAEMON_BOOT_WAIT_RETRIES {
        Some(DAEMON_BOOT_WAIT_INTERVAL_MS)
    } else {
        None
    }
}

/// In how many seconds an answer is due.
pub open spec fn answer_due(started: bool) -> u64 {
    if started {
        COLD_START_COMMAND_RESPONSE_TIMEOUT_SECS
    } else {
        COMMAND_RESPONSE_TIMEOUT_SECS
    }
}

/// What a configuration is with a supernode and a name that were given instead, and
/// whether it is to be saved.
pub open spec fn overridden(
    was: EdgeConfig,
    now: EdgeConfig,
    supernode: Option<Seq<char>>,
    tun: Option<Seq<char>>,
    save: bool,
) -> bool {
    let node = match supernode {
        Some(s) => s,
        None => was.default_supernode@,
    };
    let name = match tun {
        Some(s) => s,
        None => was.default_tun_name@,
    };
    &&& now.default_supernode@ == node
    &&& now.default_tun_name@ == name
    &&& texts(now.supernodes@) == if node != was.default_supernode@ && !texts(
        was.supernodes@,
    ).contains(node) {
        seq![node] + texts(was.supernodes@)
    } else {
        texts(was.supernodes@)
    }
    &&& save == (node != was.default_supernode@ || name != was.default_tun_name@)
    &&& now == (EdgeConfig {
        default_supernode: now.default_supernode,
        default_tun_name: now.default_tun_name,
        supernodes: now.supernodes,
        ..was
    })
}

/// The supernodes with the primary one among them.
pub open spec fn led_by(supernodes: Seq<SocketAddr>, primary: SocketAddr) -> Seq<SocketAddr> {
    if supernodes.contains(primary) {
        supernodes
    } else {
        seq![primary] + supernodes
    }
}

/// The entries of the history are numbered from one on; a number goes before an
/// invitation that is given as well.
pub proof fn history_is_numbered_from_one(
    index: Option<usize>,
    invite: Option<String>,
    history: Seq<Option<String>>,
    r: Result<String, PickError>,
    i: int,
)
    requires
        invite_picked(index, invite, history, r),
    ensures
        index is Some && index->0 == i && 1 <= i <= history.len() && history[i - 1] is Some ==> r
            is Ok && r->Ok_0@ == history[i - 1]->0@,
        index is Some && index->0 == i && 1 <= i <= history.len() && history[i - 1] is None ==> r
            == Err::<String, PickError>(PickError::NoInvite),
        index == Some(0usize) ==> r == Err::<String, PickError>(PickError::NoSuchIndex),
        index is Some && index->0 > history.len() ==> r == Err::<String, PickError>(
            PickError::NoSuchIndex,
        ),
        index is None && invite is Some ==> r is Ok && r->Ok_0 == invite->0,
        index is None && invite is None ==> r == Err::<String, PickError>(PickError::Unspecified),
{
}

/// The service is looked for fifteen times, a fifth of a second apart; an answer is waited
/// for ten seconds longer where the service had to be started.
pub proof fn waits_have_an_end(looks: int)
    requires
        looks >= 0,
    ensures
        wait_before_look(looks) is Some <==> looks < 15,
        looks < 15 ==> wait_before_look(looks) == Some(200u64),
        answer_due(false) == 30,
        answer_due(true) == 40,
{
}

/// A supernode that is given is the default one from then on and on the list; a name that is
/// given is the name from then on. The configuration is saved if it changed; the rest of it
/// does not.
pub proof fn what_is_given_goes_first(
    was: EdgeConfig,
    now: EdgeConfig,
    supernode: Option<Seq<char>>,
    tun: Option<Seq<char>>,
    save: bool,
    t: Seq<char>,
)
    requires
        overridden(was, now, supernode, tun, save),
    ensures
        supernode is Some ==> now.default_supernode@ == supernode->0,
        supernode is None ==> now.default_supernode@ == was.default_supernode@ && texts(
            now.supernodes@,
        ) == texts(was.supernodes@),
        tun is Some ==> now.default_tun_name@ == tun->0,
        tun is None ==> now.default_tun_name@ == was.default_tun_name@,
        supernode is Some && supernode->0 != was.default_supernode@ ==> texts(
            now.supernodes@,
        ).contains(supernode->0),
        texts(was.supernodes@).contains(t) ==> texts(now.supernodes@).contains(t),
        save <==> now.default_supernode@ != was.default_supernode@ || now.default_tun_name@
            != was.default_tun_name@,
        now.node_id == was.node_id && now.private_key == was.private_key && now.tun_mtu
            == was.tun_mtu && now.traffic_policy == was.traffic_policy,
{
    let before = texts(was.supernodes@);
    let after = texts(now.supernodes@);
    if supernode is Some && supernode->0 != was.default_supernode@ && !before.contains(
        supernode->0,
    ) {
        assert(after[0] == supernode->0);
        if before.contains(t) {
            assert(after[before.index_of(t) + 1] == t);
        }
    }
}

/// The primary supernode is on the list, once it was led by it; the others stay.
pub proof fn the_primary_one_is_listed(supernodes: Seq<SocketAddr>, primary: SocketAddr, a: SocketAddr)
    ensures
        led_by(supernodes, primary).contains(primary),
        led_by(supernodes, primary).contains(a) <==> a == primary || supernodes.contains(a),
        supernodes.no_duplicates() ==> led_by(supernodes, primary).no_duplicates(),
        !supernodes.contains(primary) ==> led_by(supernodes, primary)[0] == primary,
{
    let all = led_by(supernodes, primary);
    if !supernodes.contains(primary) {
        assert(all[0] == primary);
        if supernodes.contains(a) {
            assert(all[supernodes.index_of(a) + 1] == a);
        }
        if all.contains(a) {
            let k = all.index_of(a);
            if k > 0 {
                assert(supernodes[k - 1] == a);
            }
        }
        if supernodes.no_duplicates() {
            assert forall|i: int, j: int| 0 <= i < all.len() && 0 <= j < all.len() && i != j implies all[i]
                != all[j] by {
                if i > 0 && j > 0 {
                    assert(supernodes[i - 1] != supernodes[j - 1]);
                } else if i > 0 {
                    assert(supernodes[i - 1] == all[i]);
                } else {
                    assert(supernodes[j - 1] == all[j]);
                }
            }
        }
    }
}

/// A range of ports runs from its first to its last one; a number alone is a range of one.
pub proof fn ranges_do_not_run_backwards(part: Seq<char>, r: PortRange, n: nat)
    requires
        names_range(part, r),
    ensures
        r.start <= r.end,
        no_dash(part) && number(part, 65535) == Some(n) ==> r.start == n && r.end == n,
{
    let (a, b) = choose|a: Seq<char>, b: Seq<char>| #[trigger]
        ends(part, a, b) && number(a, 65535) == Some(r.start as nat) && number(b, 65535) == Some(
            r.end as nat,
        ) && r.start <= r.end;
    assert(ends(part, a, b));
}

/// The two ends of a range stand on both sides of its first dash.
pub proof fn ranges_are_read_at_the_dash(a: Seq<char>, b: Seq<char>, r: PortRange)
    requires
        no_dash(a),
        number(a, 65535) == Some(r.start as nat),
        number(b, 65535) == Some(r.end as nat),
        r.start <= r.end,
    ensures
        names_range(a + seq!['-'] + b, r),
{
    let part = a + seq!['-'] + b;
    let i = a.len() as int;
    assert(part[i] == '-');
    assert forall|j: int| 0 <= j < i implies #[trigger] part[j] != '-' by {
        assert(part[j] == a[j]);
    }
    assert(dash_at(part, i));
    assert(part.subrange(0, i) =~= a);
    assert(part.subrange(i + 1, part.len() as int) =~= b);
    assert(!no_dash(part));
    assert(ends(part, a, b));
}

/// The parts of a list of ports are its pieces without the blanks around them; blank pieces
/// are none.
pub proof fn blank_pieces_are_no_parts(pieces: Seq<Seq<char>>, t: Seq<char>)
    ensures
        port_parts(pieces).contains(t) <==> t.len() > 0 && exists|i: int|
            0 <= i < pieces.len() && trimmed(#[trigger] pieces[i]) == t,
    decreases pieces.len(),
{
    if pieces.len() > 0 {
        let short = pieces.drop_last();
        blank_pieces_are_no_parts(short, t);
        let before = port_parts(short);
        let all = port_parts(pieces);
        if all.contains(t) {
            let k = all.index_of(t);
            if k < before.len() {
                assert(before[k] == t);
                let i = choose|i: int| 0 <= i < short.len() && trimmed(#[trigger] short[i]) == t;
                assert(pieces[i] == short[i]);
            } else {
                assert(trimmed(pieces[pieces.len() - 1]) == t);
            }
        }
        if t.len() > 0 && exists|i: int|
            0 <= i < pieces.len() && trimmed(#[trigger] pieces[i]) == t {
            let i = choose|i: int| 0 <= i < pieces.len() && trimmed(#[trigger] pieces[i]) == t;
            if i < short.len() {
                assert(short[i] == pieces[i]);
                assert(all[before.index_of(t)] == t);
            } else {
                assert(all[all.len() - 1] == t);
            }
        }
    }
}

/// Commands ask for what they are named after; those that are dealt with on the spot ask for
/// nothing.
pub proof fn commands_ask_for_what_they_say(c: Commands, name: String)
    ensures
        request_of(Commands::Room { action: RoomCommands::Create { name } }) == Some(
            RequestView::Create { name: name@ },
        ),
        request_of(Commands::Room { action: RoomCommands::Leave }) == Some(RequestView::Leave),
        request_of(Commands::Room { action: RoomCommands::List }) == Some(RequestView::Peers),
        request_of(Commands::Room { action: RoomCommands::History }) == Some(RequestView::History),
        request_of(Commands::Room { action: RoomCommands::Active }) == Some(RequestView::Active),
        request_of(Commands::Stop) == Some(RequestView::Stop),
        request_of(Commands::Status) == Some(RequestView::Status),
        request_of(Commands::Metrics) == Some(RequestView::Metrics),
        request_of(Commands::Doctor) == request_of(Commands::Diagnose),
        request_of(Commands::Rules { action: RulesCommands::Enable }) == Some(
            RequestView::RulesEnable { enabled: true },
        ),
        request_of(Commands::Rules { action: RulesCommands::Disable }) == Some(
            RequestView::RulesEnable { enabled: false },
        ),
        request_of(Commands::Rules { action: RulesCommands::Remove { id: name } }) == Some(
            RequestView::RulesRemove { id: name@ },
        ),
        request_of(Commands::Supernode { action: SupernodeCommands::Switch { addr: name } }) == Some(
            RequestView::SwitchSupernode { supernode: name@ },
        ),
        request_of(c) is None ==> c is Daemon || c is Room,
{
}

/// A list of ports is read whole or not at all: each part gives one range, which does not run
/// backwards, in the order of the parts, and a part without a dash names a single port.
pub proof fn ports_are_read_part_by_part(
    parts: Seq<Seq<char>>,
    r: Result<Vec<PortRange>, PortRangeError>,
    i: int,
)
    requires
        ports_read(parts, r),
    ensures
        r is Ok ==> r->Ok_0@.len() == parts.len(),
        r is Ok && 0 <= i < parts.len() ==> r->Ok_0@[i].start <= r->Ok_0@[i].end,
        r is Ok && 0 <= i < parts.len() && (forall|k: int|
            0 <= k < parts[i].len() ==> parts[i][k] != '-') ==> number(parts[i], 65535) == Some(
            r->Ok_0@[i].start as nat,
        ) && r->Ok_0@[i].start == r->Ok_0@[i].end,
        parts.len() == 0 ==> r is Ok,
{
    if r is Ok && 0 <= i < parts.len() {
        assert(names_range(parts[i], r->Ok_0@[i]));
    }
}

} // verus!
