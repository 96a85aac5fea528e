//! What a local client may ask of the edge, and what it is told.

use crate::common::{dotted, NodeId, RoomId};
use crate::dataplane::{DataPlane, DataPlaneView};
use crate::edge::{Edge, EdgeView, PeerStateView, RuntimeView};
use crate::history::{kept, ordered_history, without_room, HistoryItem};
use crate::invite::{copy_opt, copy_texts};
use crate::json::{
    json_fault, json_fault_of, json_flag, json_flag_of, json_list, json_list_of, json_text,
    json_text_of, opt_texts,
};
use crate::metrics::{known, MetricsRegistry, PeerView};
use crate::policy::{TrafficPolicy, TrafficRule};
use crate::proto::views;
use crate::table::{at, has_key, lookup, viewed, viewed_lookup, Entry};
use crate::text::{hex_text, opt_text, same_text, texts, trim, trimmed};
use vstd::prelude::*;

verus! {

/// Where clients find the edge: where they are told to look, or else a place that
/// goes by the name of the user.
pub fn ipc_path(configured: Option<String>, user: Option<String>) -> (s: String)
    ensures
        s@ == socket_path(opt_text(configured), opt_text(user)),
{
    if let Some(path) = &configured {
        let t = trim(path.as_str());
        if !t.as_str().is_empty() {
            return t;
        }
    }
    let name = match user {
        Some(u) => u,
        None => "default".to_string(),
    };
    "/tmp/r2n_ipc_".to_string().concat(name.as_str()).concat(".sock")
}

/// What a client asks for.
#[derive(Debug)]
pub enum Request {
    Create { name: String },
    Join { invite: String },
    Leave,
    Stop,
    History,
    DeleteHistory { room_id: String },
    RenameHistory { room_id: String, name: String },
    SwitchSupernode { supernode: String },
    Active,
    Status,
    Peers,
    Metrics,
    Diagnose,
    RulesList,
    RulesAdd,
    RulesRemove { id: String },
    RulesEnable { enabled: bool },
    Supernodes,
    Routes,
    L2Table,
    RoomDetail,
    RegisterTunFd,
}

/// What a client asks for.
#[verifier::ext_equal]
pub enum RequestView {
    Create { name: Seq<char> },
    Join { invite: Seq<char> },
    Leave,
    Stop,
    History,
    DeleteHistory { room_id: Seq<char> },
    RenameHistory { room_id: Seq<char>, name: Seq<char> },
    SwitchSupernode { supernode: Seq<char> },
    Active,
    Status,
    Peers,
    Metrics,
    Diagnose,
    RulesList,
    RulesAdd,
    RulesRemove { id: Seq<char> },
    RulesEnable { enabled: bool },
    Supernodes,
    Routes,
    L2Table,
    RoomDetail,
    RegisterTunFd,
}

impl View for Request {
    type V = RequestView;

    open spec fn view(&self) -> RequestView {
        match *self {
            Request::Create { name } => RequestView::Create { name: name@ },
            Request::Join { invite } => RequestView::Join { invite: invite@ },
            Request::Leave => RequestView::Leave,
            Request::Stop => RequestView::Stop,
            Request::History => RequestView::History,
            Request::DeleteHistory { room_id } => RequestView::DeleteHistory { room_id: room_id@ },
            Request::RenameHistory { room_id, name } => RequestView::RenameHistory {
                room_id: room_id@,
                name: name@,
            },
            Request::SwitchSupernode { supernode } => RequestView::SwitchSupernode {
                supernode: supernode@,
            },
            Request::Active => RequestView::Active,
            Request::Status => RequestView::Status,
            Request::Peers => RequestView::Peers,
            Request::Metrics => RequestView::Metrics,
            Request::Diagnose => RequestView::Diagnose,
            Request::RulesList => RequestView::RulesList,
            Request::RulesAdd => RequestView::RulesAdd,
            Request::RulesRemove { id } => RequestView::RulesRemove { id: id@ },
            Request::RulesEnable { enabled } => RequestView::RulesEnable { enabled },
            Request::Supernodes => RequestView::Supernodes,
            Request::Routes => RequestView::Routes,
            Request::L2Table => RequestView::L2Table,
            Request::RoomDetail => RequestView::RoomDetail,
            Request::RegisterTunFd => RequestView::RegisterTunFd,
        }
    }
}

/// The fields that go with a request, as far as they are there.
#[derive(Debug)]
pub struct RequestFields {
    pub name: Option<String>,
    pub invite: Option<String>,
    pub room_id: Option<String>,
    pub supernode: Option<String>,
    pub id: Option<String>,
    pub enabled: Option<bool>,
}

/// The fields that go with a request.
#[verifier::ext_equal]
pub struct FieldsView {
    pub name: Option<Seq<char>>,
    pub invite: Option<Seq<char>>,
    pub room_id: Option<Seq<char>>,
    pub supernode: Option<Seq<char>>,
    pub id: Option<Seq<char>>,
    pub enabled: Option<bool>,
}

impl View for RequestFields {
    type V = FieldsView;

    open spec fn view(&self) -> FieldsView {
        FieldsView {
            name: opt_text(self.name),
            invite: opt_text(self.invite),
            room_id: opt_text(self.room_id),
            supernode: opt_text(self.supernode),
            id: opt_text(self.id),
            enabled: self.enabled,
        }
    }
}

/// No field at all.
pub open spec fn no_fields() -> FieldsView {
    FieldsView {
        name: None,
        invite: None,
        room_id: None,
        supernode: None,
        id: None,
        enabled: None,
    }
}

/// A text, or another one where there is none.
pub open spec fn text_or(t: Option<Seq<char>>, other: Seq<char>) -> Seq<char> {
    match t {
        Some(s) => s,
        None => other,
    }
}

/// The word that a request goes by.
pub open spec fn request_word(r: RequestView) -> Seq<char> {
    match r {
        RequestView::Create { .. } => "create"@,
        RequestView::Join { .. } => "join"@,
        RequestView::Leave => "leave"@,
        RequestView::Stop => "stop"@,
        RequestView::History => "history"@,
        RequestView::DeleteHistory { .. } => "delete_history"@,
        RequestView::RenameHistory { .. } => "update_history_name"@,
        RequestView::SwitchSupernode { .. } => "switch_supernode"@,
        RequestView::Active => "active"@,
        RequestView::Status => "status"@,
        RequestView::Peers => "peers"@,
        RequestView::Metrics => "metrics"@,
        RequestView::Diagnose => "diagnose"@,
        RequestView::RulesList => "rules_list"@,
        RequestView::RulesAdd => "rules_add"@,
        RequestView::RulesRemove { .. } => "rules_remove"@,
        RequestView::RulesEnable { .. } => "rules_enable"@,
        RequestView::Supernodes => "supernodes"@,
        RequestView::Routes => "routes"@,
        RequestView::L2Table => "l2_table"@,
        RequestView::RoomDetail => "room_detail"@,
        RequestView::RegisterTunFd => "register_tun_fd"@,
    }
}

/// The fields that go with a request.
pub open spec fn request_fields(r: RequestView) -> FieldsView {
    match r {
        RequestView::Create { name } => FieldsView { name: Some(name), ..no_fields() },
        RequestView::Join { invite } => FieldsView { invite: Some(invite), ..no_fields() },
        RequestView::DeleteHistory { room_id } => FieldsView {
            room_id: Some(room_id),
            ..no_fields()
        },
        RequestView::RenameHistory { room_id, name } => FieldsView {
            room_id: Some(room_id),
            name: Some(name),
            ..no_fields()
        },
        RequestView::SwitchSupernode { supernode } => FieldsView {
            supernode: Some(supernode),
            ..no_fields()
        },
        RequestView::RulesRemove { id } => FieldsView { id: Some(id), ..no_fields() },
        RequestView::RulesEnable { enabled } => FieldsView { enabled: Some(enabled), ..no_fields() },
        _ => no_fields(),
    }
}

/// What a word and some fields ask for. A field that is missing is empty, but a
/// room has a name then, and rules are switched on.
pub open spec fn request_read(word: Seq<char>, f: FieldsView) -> Option<RequestView> {
    let empty = Seq::<char>::empty();
    if word == "create"@ {
        Some(RequestView::Create { name: text_or(f.name, "Room"@) })
    } else if word == "join"@ {
        Some(RequestView::Join { invite: text_or(f.invite, empty) })
    } else if word == "leave"@ {
        Some(RequestView::Leave)
    } else if word == "stop"@ {
        Some(RequestView::Stop)
    } else if word == "history"@ {
        Some(RequestView::History)
    } else if word == "delete_history"@ {
        Some(RequestView::DeleteHistory { room_id: text_or(f.room_id, empty) })
    } else if word == "update_history_name"@ {
        Some(
            RequestView::RenameHistory {
                room_id: text_or(f.room_id, empty),
                name: text_or(f.name, empty),
            },
        )
    } else if word == "switch_supernode"@ {
        Some(RequestView::SwitchSupernode { supernode: text_or(f.supernode, empty) })
    } else if word == "active"@ {
        Some(RequestView::Active)
    } else if word == "status"@ {
        Some(RequestView::Status)
    } else if word == "peers"@ {
        Some(RequestView::Peers)
    } else if word == "metrics"@ {
        Some(RequestView::Metrics)
    } else if word == "diagnose"@ {
        Some(RequestView::Diagnose)
    } else if word == "rules_list"@ || word == "rules"@ {
        Some(RequestView::RulesList)
    } else if word == "rules_add"@ {
        Some(RequestView::RulesAdd)
    } else if word == "rules_remove"@ {
        Some(RequestView::RulesRemove { id: text_or(f.id, empty) })
    } else if word == "rules_enable"@ {
        Some(
            RequestView::RulesEnable {
                enabled: match f.enabled {
                    Some(b) => b,
                    None => true,
                },
            },
        )
    } else if word == "supernodes"@ {
        Some(RequestView::Supernodes)
    } else if word == "routes"@ {
        Some(RequestView::Routes)
    } else if word == "l2_table"@ {
        Some(RequestView::L2Table)
    } else if word == "room_detail"@ {
        Some(RequestView::RoomDetail)
    } else if word == "register_tun_fd"@ {
        Some(RequestView::RegisterTunFd)
    } else {
        None
    }
}

/// What a client asks for.
pub open spec fn request_view(r: Option<Request>) -> Option<RequestView> {
    match r {
        Some(r) => Some(r@),
        None => None,
    }
}

fn or_text(t: Option<String>, other: &str) -> (s: String)
    ensures
        s@ == text_or(opt_text(t), other@),
{
    match t {
        Some(s) => s,
        None => other.to_string(),
    }
}

fn or_empty(t: Option<String>) -> (s: String)
    ensures
        s@ == text_or(opt_text(t), Seq::<char>::empty()),
{
    match t {
        Some(s) => s,
        None => String::new(),
    }
}

/// Reads a request. A word that stands for none gives none.
pub fn read_request(word: &str, fields: RequestFields) -> (r: Option<Request>)
    ensures
        request_view(r) == request_read(word@, fields@),
{
    if same_text(word, "create") {
        Some(Request::Create { name: or_text(fields.name, "Room") })
    } else if same_text(word, "join") {
        Some(Request::Join { invite: or_empty(fields.invite) })
    } else if same_text(word, "leave") {
        Some(Request::Leave)
    } else if same_text(word, "stop") {
        Some(Request::Stop)
    } else if same_text(word, "history") {
        Some(Request::History)
    } else if same_text(word, "delete_history") {
        Some(Request::DeleteHistory { room_id: or_empty(fields.room_id) })
    } else if same_text(word, "update_history_name") {
        Some(
            Request::RenameHistory {
                room_id: or_empty(fields.room_id),
                name: or_empty(fields.name),
            },
        )
    } else if same_text(word, "switch_supernode") {
        Some(Request::SwitchSupernode { supernode: or_empty(fields.supernode) })
    } else if same_text(word, "active") {
        Some(Request::Active)
    } else if same_text(word, "status") {
        Some(Request::Status)
    } else if same_text(word, "peers") {
        Some(Request::Peers)
    } else if same_text(word, "metrics") {
        Some(Request::Metrics)
    } else if same_text(word, "diagnose") {
        Some(Request::Diagnose)
    } else if same_text(word, "rules_list") || same_text(word, "rules") {
        Some(Request::RulesList)
    } else if same_text(word, "rules_add") {
        Some(Request::RulesAdd)
    } else if same_text(word, "rules_remove") {
        Some(Request::RulesRemove { id: or_empty(fields.id) })
    } else if same_text(word, "rules_enable") {
        Some(
            Request::RulesEnable {
                enabled: match fields.enabled {
                    Some(b) => b,
                    None => true,
                },
            },
        )
    } else if same_text(word, "supernodes") {
        Some(Request::Supernodes)
    } else if same_text(word, "routes") {
        Some(Request::Routes)
    } else if same_text(word, "l2_table") {
        Some(Request::L2Table)
    } else if same_text(word, "room_detail") {
        Some(Request::RoomDetail)
    } else if same_text(word, "register_tun_fd") {
        Some(Request::RegisterTunFd)
    } else {
        None
    }
}

/// The fields that a line of JSON gives for a request.
pub open spec fn line_fields(line: Seq<char>) -> FieldsView {
    FieldsView {
        name: json_text_of(line, "name"@),
        invite: json_text_of(line, "invite"@),
        room_id: json_text_of(line, "room_id"@),
        supernode: json_text_of(line, "supernode"@),
        id: json_text_of(line, "id"@),
        enabled: json_flag_of(line, "enabled"@),
    }
}

/// Reads a request from a line of JSON. A line that is no JSON, has no word under
/// `command` or a word that stands for no request gives none.
pub fn read_line(line: &str) -> (r: Option<Request>)
    ensures
        request_view(r) == match json_text_of(line@, "command"@) {
            Some(word) => request_read(word, line_fields(line@)),
            None => None,
        },
        r is Some ==> json_fault_of(line@) is None,
{
    let word = match json_text(line, "command") {
        Some(word) => word,
        None => {
            return None;
        },
    };
    let fields = RequestFields {
        name: json_text(line, "name"),
        invite: json_text(line, "invite"),
        room_id: json_text(line, "room_id"),
        supernode: json_text(line, "supernode"),
        id: json_text(line, "id"),
        enabled: json_flag(line, "enabled"),
    };
    assert(fields@ =~= line_fields(line@));
    read_request(word.as_str(), fields)
}

/// Whether an edge did what it was asked, by the line that it answered with. If
/// not, the reason is what is wrong with a line that is no JSON, or what an answer
/// with the status `error` says under `error`, if it says anything.
pub fn read_answer(line: &str) -> (r: Result<(), String>)
    ensures
        r is Err <==> json_fault_of(line@) is Some || json_text_of(line@, "status"@) == Some(
            "error"@,
        ),
        r is Err ==> r->Err_0@ == match json_fault_of(line@) {
            Some(fault) => fault,
            None => text_or(json_text_of(line@, "error"@), "local daemon command failed"@),
        },
{
    if let Some(fault) = json_fault(line) {
        return Err(fault);
    }
    match json_text(line, "status") {
        Some(status) => {
            if same_text(status.as_str(), "error") {
                return Err(or_text(json_text(line, "error"), "local daemon command failed"));
            }
            Ok(())
        },
        None => Ok(()),
    }
}

/// The invitations of the rooms that an edge remembers, by the line that it
/// answered with, if that lists rooms.
pub fn answered_invites(line: &str) -> (r: Option<Vec<Option<String>>>)
    ensures
        r is Some <==> json_list_of(line@, "history"@, "invite_code"@) is Some,
        r is Some ==> opt_texts(r->0@) == json_list_of(line@, "history"@, "invite_code"@)->0,
{
    json_list(line, "history", "invite_code")
}

impl Request {
    /// The word that the request goes by.
    pub fn word(&self) -> (s: &'static str)
        ensures
            s@ == request_word(self@),
    {
        match self {
            Request::Create { .. } => "create",
            Request::Join { .. } => "join",
            Request::Leave => "leave",
            Request::Stop => "stop",
            Request::History => "history",
            Request::DeleteHistory { .. } => "delete_history",
            Request::RenameHistory { .. } => "update_history_name",
            Request::SwitchSupernode { .. } => "switch_supernode",
            Request::Active => "active",
            Request::Status => "status",
            Request::Peers => "peers",
            Request::Metrics => "metrics",
            Request::Diagnose => "diagnose",
            Request::RulesList => "rules_list",
            Request::RulesAdd => "rules_add",
            Request::RulesRemove { .. } => "rules_remove",
            Request::RulesEnable { .. } => "rules_enable",
            Request::Supernodes => "supernodes",
            Request::Routes => "routes",
            Request::L2Table => "l2_table",
            Request::RoomDetail => "room_detail",
            Request::RegisterTunFd => "register_tun_fd",
        }
    }

    /// The fields that go with the request.
    pub fn fields(&self) -> (f: RequestFields)
        ensures
            f@ == request_fields(self@),
    {
        let mut f = RequestFields {
            name: None,
            invite: None,
            room_id: None,
            supernode: None,
            id: None,
            enabled: None,
        };
        match self {
            Request::Create { name } => {
                f.name = Some(name.clone());
            },
            Request::Join { invite } => {
                f.invite = Some(invite.clone());
            },
            Request::DeleteHistory { room_id } => {
                f.room_id = Some(room_id.clone());
            },
            Request::RenameHistory { room_id, name } => {
                f.room_id = Some(room_id.clone());
                f.name = Some(name.clone());
            },
            Request::SwitchSupernode { supernode } => {
                f.supernode = Some(supernode.clone());
            },
            Request::RulesRemove { id } => {
                f.id = Some(id.clone());
            },
            Request::RulesEnable { enabled } => {
                f.enabled = Some(*enabled);
            },
            _ => {},
        }
        f
    }
}

/// A request that was written is read as what it was.
pub proof fn requests_survive(r: RequestView)
    ensures
        request_read(request_word(r), request_fields(r)) == Some(r),
{
    reveal_strlit("create");
    reveal_strlit("join");
    reveal_strlit("leave");
    reveal_strlit("stop");
    reveal_strlit("history");
    reveal_strlit("delete_history");
    reveal_strlit("update_history_name");
    reveal_strlit("switch_supernode");
    reveal_strlit("active");
    reveal_strlit("status");
    reveal_strlit("peers");
    reveal_strlit("metrics");
    reveal_strlit("diagnose");
    reveal_strlit("rules_list");
    reveal_strlit("rules");
    reveal_strlit("rules_add");
    reveal_strlit("rules_remove");
    reveal_strlit("rules_enable");
    reveal_strlit("supernodes");
    reveal_strlit("routes");
    reveal_strlit("l2_table");
    reveal_strlit("room_detail");
    reveal_strlit("register_tun_fd");
    assert("create"@.len() == 6);
    assert("join"@.len() == 4);
    assert("leave"@.len() == 5);
    assert("stop"@.len() == 4);
    assert("history"@.len() == 7);
    assert("delete_history"@.len() == 14);
    assert("update_history_name"@.len() == 19);
    assert("switch_supernode"@.len() == 16);
    assert("active"@.len() == 6);
    assert("status"@.len() == 6);
    assert("peers"@.len() == 5);
    assert("metrics"@.len() == 7);
    assert("diagnose"@.len() == 8);
    assert("rules_list"@.len() == 10);
    assert("rules"@.len() == 5);
    assert("rules_add"@.len() == 9);
    assert("rules_remove"@.len() == 12);
    assert("rules_enable"@.len() == 12);
    assert("supernodes"@.len() == 10);
    assert("routes"@.len() == 6);
    assert("l2_table"@.len() == 8);
    assert("room_detail"@.len() == 11);
    assert("register_tun_fd"@.len() == 15);
    assert("create"@[0] == 'c' && "active"@[0] == 'a' && "status"@[0] == 's' && "routes"@[0]
        == 'r');
    assert("join"@[0] == 'j' && "stop"@[0] == 's');
    assert("leave"@[0] == 'l' && "peers"@[0] == 'p' && "rules"@[0] == 'r');
    assert("history"@[0] == 'h' && "metrics"@[0] == 'm');
    assert("diagnose"@[0] == 'd' && "l2_table"@[0] == 'l');
    assert("rules_list"@[0] == 'r' && "supernodes"@[0] == 's');
    assert("rules_remove"@[6] == 'r' && "rules_enable"@[6] == 'e');
}

/// The history without a room, if the room was in it.
pub fn delete_history(history: Vec<HistoryItem>, room_id: &str) -> (r: Option<Vec<HistoryItem>>)
    ensures
        r is Some <==> without_room(history@, room_id@).len() < history@.len(),
        r is Some ==> r->0@ == kept(without_room(history@, room_id@)),
{
    let ghost all = history@;
    let before: usize = history.len();
    let mut rest = history;
    let mut left: Vec<HistoryItem> = Vec::new();
    assert(all.subrange(0, 0) =~= Seq::<HistoryItem>::empty());
    assert(rest@ =~= all.subrange(0, before as int));
    let mut i: usize = 0;
    while i < before
        invariant
            before == all.len(),
            i <= before,
            rest@ == all.subrange(i as int, before as int),
            left@ == without_room(all.subrange(0, i as int), room_id@),
        decreases before - i,
    {
        let item = rest.remove(0);
        assert(item == all[i as int]);
        assert(rest@ =~= all.subrange(i + 1, before as int));
        assert(all.subrange(0, i + 1).drop_last() =~= all.subrange(0, i as int));
        assert(all.subrange(0, i + 1).last() == all[i as int]);
        if !same_text(item.room_id.as_str(), room_id) {
            left.push(item);
        }
        i = i + 1;
    }
    assert(all.subrange(0, before as int) =~= all);
    if left.len() < before {
        Some(ordered_history(left))
    } else {
        None
    }
}

/// A room is the first of its kind in a list.
pub open spec fn first_room(list: Seq<HistoryItem>, room_id: Seq<char>, i: int) -> bool {
    &&& 0 <= i < list.len()
    &&& list[i].room_id@ == room_id
    &&& forall|j: int| 0 <= j < i ==> (#[trigger] list[j]).room_id@ != room_id
}

/// The history with another name for a room, if the room is in it.
pub fn rename_history(history: Vec<HistoryItem>, room_id: &str, name: String) -> (r: Option<
    Vec<HistoryItem>,
>)
    ensures
        renamed(history@, room_id@, name, r),
{
    let mut list = history;
    let n: usize = list.len();
    for i in 0..n
        invariant
            n == list@.len(),
            list@ == history@,
            forall|k: int| 0 <= k < i ==> (#[trigger] list@[k]).room_id@ != room_id@,
    {
        if same_text(list[i].room_id.as_str(), room_id) {
            assert(first_room(history@, room_id@, i as int));
            list[i].name = name;
            assert(list@ =~= history@.update(
                i as int,
                HistoryItem { name, ..history@[i as int] },
            ));
            return Some(ordered_history(list));
        }
    }
    None
}

/// Some rule has the name.
pub open spec fn has_rule(rules: Seq<TrafficRule>, id: Seq<char>) -> bool {
    exists|i: int| 0 <= i < rules.len() && (#[trigger] rules[i]).id@ == id
}

/// The rules but for those with a name.
pub open spec fn rules_without(rules: Seq<TrafficRule>, id: Seq<char>) -> Seq<TrafficRule>
    decreases rules.len(),
{
    if rules.len() == 0 {
        Seq::empty()
    } else {
        let before = rules_without(rules.drop_last(), id);
        if rules.last().id@ != id {
            before.push(rules.last())
        } else {
            before
        }
    }
}

/// Only the rules of a data plane changed.
pub open spec fn only_rules(before: DataPlane, after: DataPlane) -> bool {
    after == (DataPlane { traffic_policy: after.traffic_policy, ..before })
}

impl DataPlane {
    /// Adds a rule, unless there is one with its name.
    pub fn add_rule(&mut self, rule: TrafficRule) -> (r: Result<(), String>)
        requires
            old(self).wf(),
            rule.wf(),
        ensures
            final(self).wf(),
            only_rules(*old(self), *final(self)),
            match r {
                Ok(_) => {
                    &&& !has_rule(old(self).traffic_policy.rules@, rule.id@)
                    &&& final(self).traffic_policy.rules@ == old(self).traffic_policy.rules@.push(
                        rule,
                    )
                    &&& final(self).traffic_policy.enabled == old(self).traffic_policy.enabled
                    &&& final(self).traffic_policy.default_action == old(
                        self,
                    ).traffic_policy.default_action
                },
                Err(e) => {
                    &&& has_rule(old(self).traffic_policy.rules@, rule.id@)
                    &&& e@ == "rule id already exists: "@ + rule.id@
                    &&& *final(self) == *old(self)
                },
            },
    {
        let n: usize = self.traffic_policy.rules.len();
        for i in 0..n
            invariant
                *self == *old(self),
                self.wf(),
                n == self.traffic_policy.rules@.len(),
                forall|k: int|
                    0 <= k < i ==> (#[trigger] self.traffic_policy.rules@[k]).id@ != rule.id@,
        {
            if same_text(self.traffic_policy.rules[i].id.as_str(), rule.id.as_str()) {
                assert(self.traffic_policy.rules@[i as int].id@ == rule.id@);
                return Err("rule id already exists: ".to_string().concat(rule.id.as_str()));
            }
        }
        self.traffic_policy.rules.push(rule);
        Ok(())
    }

    /// Removes the rules with a name, and tells whether there were any.
    pub fn remove_rule(&mut self, id: &str) -> (found: bool)
        requires
            old(self).wf(),
        ensures
            final(self).wf(),
            only_rules(*old(self), *final(self)),
            found == (rules_without(old(self).traffic_policy.rules@, id@).len() < old(
                self,
            ).traffic_policy.rules@.len()),
            final(self).traffic_policy.rules@ == rules_without(
                old(self).traffic_policy.rules@,
                id@,
            ),
            final(self).traffic_policy.enabled == old(self).traffic_policy.enabled,
            final(self).traffic_policy.default_action == old(self).traffic_policy.default_action,
    {
        let ghost all = self.traffic_policy.rules@;
        let ghost start = *self;
        let before: usize = self.traffic_policy.rules.len();
        let mut left: Vec<TrafficRule> = Vec::new();
        assert(all.subrange(0, 0) =~= Seq::<TrafficRule>::empty());
        assert(self.traffic_policy.rules@ =~= all.subrange(0, before as int));
        let mut i: usize = 0;
        while i < before
            invariant
                before == all.len(),
                i <= before,
                start == *old(self),
                all == start.traffic_policy.rules@,
                start.traffic_policy.wf(),
                only_rules(start, *self),
                self.traffic_policy.enabled == start.traffic_policy.enabled,
                self.traffic_policy.default_action == start.traffic_policy.default_action,
                self.traffic_policy.rules@ == all.subrange(i as int, before as int),
                left@ == rules_without(all.subrange(0, i as int), id@),
                forall|k: int| 0 <= k < left@.len() ==> (#[trigger] left@[k]).wf(),
            decreases before - i,
        {
            let rule = self.traffic_policy.rules.remove(0);
            assert(rule == all[i as int]);
            assert(rule.wf());
            assert(self.traffic_policy.rules@ =~= all.subrange(i + 1, before as int));
            assert(all.subrange(0, i + 1).drop_last() =~= all.subrange(0, i as int));
            assert(all.subrange(0, i + 1).last() == all[i as int]);
            if !same_text(rule.id.as_str(), id) {
                left.push(rule);
            }
            i = i + 1;
        }
        assert(all.subrange(0, before as int) =~= all);
        let found = left.len() < before;
        self.traffic_policy.rules = left;
        found
    }

    /// Switches the rules on or off.
    pub fn enable_rules(&mut self, enabled: bool)
        requires
            old(self).wf(),
        ensures
            final(self).wf(),
            only_rules(*old(self), *final(self)),
            final(self).traffic_policy == (TrafficPolicy { enabled, ..old(self).traffic_policy }),
    {
        self.traffic_policy.enabled = enabled;
    }
}

/// Where the service is to be found: where it is configured to be, or in a place of the
/// user's own.
pub open spec fn socket_path(configured: Option<Seq<char>>, user: Option<Seq<char>>) -> Seq<char> {
    if configured is Some && trimmed(configured->0).len() > 0 {
        trimmed(configured->0)
    } else {
        "/tmp/r2n_ipc_"@ + (match user {
            Some(u) => u,
            None => "default"@,
        }) + ".sock"@
    }
}

/// What comes of giving a room of the history another name.
pub open spec fn renamed(
    history: Seq<HistoryItem>,
    room_id: Seq<char>,
    name: String,
    r: Option<Vec<HistoryItem>>,
) -> bool {
    match r {
        Some(list) => exists|i: int| #[trigger]
            first_room(history, room_id, i) && list@ == kept(
                history.update(i, HistoryItem { name, ..history[i] }),
            ),
        None => forall|i: int|
            0 <= i < history.len() ==> (#[trigger] history[i]).room_id@ != room_id,
    }
}

/// Two users have services of their own, unless one place is configured for both.
pub proof fn users_have_services_of_their_own(
    configured: Option<Seq<char>>,
    a: Seq<char>,
    b: Seq<char>,
)
    ensures
        configured is None && a != b ==> socket_path(configured, Some(a)) != socket_path(
            configured,
            Some(b),
        ),
        configured is Some && trimmed(configured->0).len() > 0 ==> socket_path(configured, Some(a))
            == trimmed(configured->0),
        configured is Some && trimmed(configured->0).len() == 0 ==> socket_path(configured, Some(a))
            == socket_path(None, Some(a)),
        socket_path(None, None) == socket_path(None, Some("default"@)),
{
    let front = "/tmp/r2n_ipc_"@;
    let back = ".sock"@;
    let x = front + a + back;
    let y = front + b + back;
    if x == y {
        let n = front.len() as int;
        assert(x.len() == n + a.len() + back.len());
        assert(y.len() == n + b.len() + back.len());
        assert(a =~= x.subrange(n, n + a.len()));
        assert(b =~= y.subrange(n, n + b.len()));
    }
}

/// A room of the history that is given another name has it then, and is otherwise what it
/// was; the other rooms are not touched. Nothing comes of it where the room is unknown.
pub proof fn one_room_gets_another_name(
    history: Seq<HistoryItem>,
    room_id: Seq<char>,
    name: String,
    r: Option<Vec<HistoryItem>>,
    item: HistoryItem,
)
    requires
        renamed(history, room_id, name, r),
        history.len() <= 20,
    ensures
        r is Some <==> exists|i: int|
            0 <= i < history.len() && (#[trigger] history[i]).room_id@ == room_id,
        r is Some ==> r->0@.len() == history.len(),
        r is Some ==> exists|k: int|
            0 <= k < r->0@.len() && (#[trigger] r->0@[k]).room_id@ == room_id && r->0@[k].name
                == name,
        r is Some && history.contains(item) && item.room_id@ != room_id ==> r->0@.contains(item),
{
    if r is Some {
        let i = choose|i: int| #[trigger]
            first_room(history, room_id, i) && r->0@ == kept(
                history.update(i, HistoryItem { name, ..history[i] }),
            );
        let new = HistoryItem { name, ..history[i] };
        let list = history.update(i, new);
        assert(history[i].room_id@ == room_id);
        crate::sort::by_rank_orders(list);
        crate::sort::by_rank_keeps_items(list, new);
        crate::sort::by_rank_keeps_items(list, item);
        assert(list[i] == new);
        let all = r->0@;
        assert(all == crate::sort::by_rank(list));
        let k = all.index_of(new);
        assert(all[k] == new);
        if history.contains(item) && item.room_id@ != room_id {
            let m = history.index_of(item);
            assert(list[m] == item);
        }
    }
}

/// A request that leaves something out is read with what goes without saying: a room is
/// called `Room`, and rules are enabled. Words that are none are not read.
pub proof fn what_goes_without_saying_is_filled_in(f: FieldsView, word: Seq<char>)
    ensures
        f.name is None ==> request_read("create"@, f) == Some(
            RequestView::Create { name: "Room"@ },
        ),
        f.name is Some ==> request_read("create"@, f) == Some(RequestView::Create { name: f.name->0 }),
        f.enabled is None ==> request_read("rules_enable"@, f) == Some(
            RequestView::RulesEnable { enabled: true },
        ),
        f.enabled is Some ==> request_read("rules_enable"@, f) == Some(
            RequestView::RulesEnable { enabled: f.enabled->0 },
        ),
        request_read("rules"@, f) == request_read("rules_list"@, f),
        request_read(word, f) is Some && word != "rules"@ ==> request_word(
            request_read(word, f)->0,
        ) == word,
{
    requests_survive(RequestView::Create { name: "Room"@ });
    requests_survive(RequestView::RulesEnable { enabled: true });
    requests_survive(RequestView::RulesList);
    words_differ();
}

proof fn words_differ()
    ensures
        "rules_enable"@.len() == 12,
        "create"@.len() == 6,
        "rules"@.len() == 5,
        "rules_list"@.len() == 10,
        "join"@.len() == 4,
        "leave"@.len() == 5,
        "stop"@.len() == 4,
        "history"@.len() == 7,
        "delete_history"@.len() == 14,
        "update_history_name"@.len() == 19,
        "switch_supernode"@.len() == 16,
        "active"@.len() == 6,
        "status"@.len() == 6,
        "peers"@.len() == 5,
        "metrics"@.len() == 7,
        "diagnose"@.len() == 8,
        "rules_add"@.len() == 9,
        "rules_remove"@.len() == 12,
        "rules_enable"@[6] == 'e',
        "rules_remove"@[6] == 'r',
        "leave"@[0] == 'l',
        "peers"@[0] == 'p',
        "rules"@[0] == 'r',
{
    reveal_strlit("rules_enable");
    reveal_strlit("create");
    reveal_strlit("rules");
    reveal_strlit("rules_list");
    reveal_strlit("join");
    reveal_strlit("leave");
    reveal_strlit("stop");
    reveal_strlit("history");
    reveal_strlit("delete_history");
    reveal_strlit("update_history_name");
    reveal_strlit("switch_supernode");
    reveal_strlit("active");
    reveal_strlit("status");
    reveal_strlit("peers");
    reveal_strlit("metrics");
    reveal_strlit("diagnose");
    reveal_strlit("rules_add");
    reveal_strlit("rules_remove");
}

/// A rule that is removed is gone, with every other of its name; the others stay in their
/// order.
pub proof fn removed_rules_are_gone(rules: Seq<TrafficRule>, id: Seq<char>, r: TrafficRule)
    ensures
        rules_without(rules, id).contains(r) <==> rules.contains(r) && r.id@ != id,
        !has_rule(rules_without(rules, id), id),
        rules_without(rules, id).len() == rules.len() <==> !has_rule(rules, id),
        !has_rule(rules, id) ==> rules_without(rules, id) == rules,
        rules_without(rules, id).len() <= rules.len(),
    decreases rules.len(),
{
    if rules.len() > 0 {
        let short = rules.drop_last();
        removed_rules_are_gone(short, id, r);
        let before = rules_without(short, id);
        let all = rules_without(rules, id);
        if all.contains(r) {
            let k = all.index_of(r);
            if k < before.len() {
                assert(before[k] == r);
                assert(rules[short.index_of(r)] == r);
            } else {
                assert(rules[rules.len() - 1] == r);
            }
        }
        if rules.contains(r) && r.id@ != id {
            let k = rules.index_of(r);
            if k < short.len() {
                assert(short[k] == r);
                assert(all[before.index_of(r)] == r);
            } else {
                assert(all[all.len() - 1] == r);
            }
        }
        if has_rule(all, id) {
            let k = choose|k: int| 0 <= k < all.len() && (#[trigger] all[k]).id@ == id;
            if k < before.len() {
                assert(before[k].id@ == id);
            }
        }
        if has_rule(rules, id) {
            let k = choose|k: int| 0 <= k < rules.len() && (#[trigger] rules[k]).id@ == id;
            if k < short.len() {
                assert(short[k].id@ == id);
            }
        } else {
            if has_rule(short, id) {
                let k = choose|k: int| 0 <= k < short.len() && (#[trigger] short[k]).id@ == id;
                assert(rules[k].id@ == id);
            }
            assert(rules[rules.len() - 1].id@ != id);
            assert(all =~= rules);
        }
    }
}

} // verus!
