//! The rooms that were joined before.

use crate::proto::views;
use crate::sort::{by_rank, by_rank_orders, descending, sort_by_rank, Ranked};
use crate::text::same_text;
use vstd::prelude::*;

verus! {

/// How many rooms are kept.
pub const HISTORY_LIMIT: usize = 20;

/// A room that was joined; the time is in seconds.
#[derive(Debug)]
pub struct HistoryItem {
    pub room_id: String,
    pub name: String,
    pub invite_code: String,
    pub last_joined: u64,
}

/// What is kept of a room.
#[verifier::ext_equal]
pub struct HistoryView {
    pub room_id: Seq<char>,
    pub name: Seq<char>,
    pub invite_code: Seq<char>,
    pub last_joined: u64,
}

impl View for HistoryItem {
    type V = HistoryView;

    open spec fn view(&self) -> HistoryView {
        HistoryView {
            room_id: self.room_id@,
            name: self.name@,
            invite_code: self.invite_code@,
            last_joined: self.last_joined,
        }
    }
}

/// The later a room was joined, the higher it ranks.
impl Ranked for HistoryItem {
    open spec fn rank(self) -> u64 {
        self.last_joined
    }

    fn rank_value(&self) -> (r: u64) {
        self.last_joined
    }
}

/// The rooms that are kept: the last ones joined, latest first.
pub open spec fn kept(list: Seq<HistoryItem>) -> Seq<HistoryItem> {
    let sorted = by_rank(list);
    if sorted.len() > HISTORY_LIMIT {
        sorted.subrange(0, HISTORY_LIMIT as int)
    } else {
        sorted
    }
}

/// The rooms but for one.
pub open spec fn without_room(list: Seq<HistoryItem>, room_id: Seq<char>) -> Seq<HistoryItem>
    decreases list.len(),
{
    if list.len() == 0 {
        Seq::empty()
    } else {
        let before = without_room(list.drop_last(), room_id);
        if list.last().room_id@ != room_id {
            before.push(list.last())
        } else {
            before
        }
    }
}

/// The name of the first room that an invitation led to.
pub open spec fn name_by_invite(list: Seq<HistoryItem>, invite: Seq<char>) -> Option<Seq<char>>
    decreases list.len(),
{
    if list.len() == 0 {
        None
    } else if list[0].invite_code@ == invite {
        Some(list[0].name@)
    } else {
        name_by_invite(list.subrange(1, list.len() as int), invite)
    }
}

/// Orders the rooms for keeping, and drops those that are too many.
pub fn ordered_history(history: Vec<HistoryItem>) -> (r: Vec<HistoryItem>)
    ensures
        r@ == kept(history@),
{
    let mut r = sort_by_rank(history);
    if r.len() > HISTORY_LIMIT {
        r.truncate(HISTORY_LIMIT);
    }
    r
}

/// Adds a room that was joined now. An earlier entry of it goes.
pub fn add_to_history(
    history: Vec<HistoryItem>,
    room_id: String,
    name: String,
    invite_code: String,
    now_secs: u64,
) -> (r: Vec<HistoryItem>)
    ensures
        exists|item: HistoryItem|
            item.room_id == room_id && item.name == name && item.invite_code == invite_code
                && item.last_joined == now_secs && r@ == kept(
                #[trigger] without_room(history@, room_id@).push(item),
            ),
{
    let ghost all = history@;
    let mut left: Vec<HistoryItem> = Vec::new();
    let mut rest = history;
    let n: usize = rest.len();
    assert(all.subrange(0, 0) =~= Seq::<HistoryItem>::empty());
    assert(rest@ =~= all.subrange(0, n as int));
    let mut i: usize = 0;
    while i < n
        invariant
            n == all.len(),
            i <= n,
            rest@ == all.subrange(i as int, n as int),
            left@ == without_room(all.subrange(0, i as int), room_id@),
        decreases n - i,
    {
        let ghost before = rest@;
        let item = rest.remove(0);
        assert(item == all[i as int]);
        assert(rest@ =~= all.subrange(i + 1, n as int));
        assert(all.subrange(0, i + 1).drop_last() =~= all.subrange(0, i as int));
        assert(all.subrange(0, i + 1).last() == all[i as int]);
        if !same_text(item.room_id.as_str(), room_id.as_str()) {
            left.push(item);
        }
        i = i + 1;
    }
    assert(all.subrange(0, n as int) =~= all);
    let item = HistoryItem { room_id, name, invite_code, last_joined: now_secs };
    let ghost added = without_room(all, room_id@).push(item);
    left.push(item);
    assert(left@ =~= added);
    ordered_history(left)
}

/// The name of the room that an invitation led to before.
pub fn name_for_invite(history: &Vec<HistoryItem>, invite: &str) -> (r: Option<String>)
    ensures
        crate::text::opt_text(r) == name_by_invite(history@, invite@),
{
    let n: usize = history.len();
    assert(history@.subrange(0, n as int) =~= history@);
    for i in 0..n
        invariant
            n == history@.len(),
            name_by_invite(history@, invite@) == name_by_invite(
                history@.subrange(i as int, n as int),
                invite@,
            ),
    {
        let ghost rest = history@.subrange(i as int, n as int);
        assert(rest[0] == history@[i as int]);
        assert(rest.subrange(1, rest.len() as int) =~= history@.subrange(i + 1, n as int));
        if same_text(history[i].invite_code.as_str(), invite) {
            return Some(history[i].name.clone());
        }
    }
    None
}

/// What is kept is in order, latest first, and not too much.
pub proof fn kept_is_ordered(list: Seq<HistoryItem>)
    ensures
        kept(list).len() <= HISTORY_LIMIT,
        descending(kept(list)),
        list.len() <= HISTORY_LIMIT ==> kept(list).to_multiset() == list.to_multiset(),
{
    by_rank_orders(list);
}

/// A room stands in the list once after it was joined: no older entry of it is
/// left.
pub proof fn older_entries_go(list: Seq<HistoryItem>, room_id: Seq<char>)
    ensures
        forall|i: int|
            0 <= i < without_room(list, room_id).len() ==> (#[trigger] without_room(
                list,
                room_id,
            )[i]).room_id@ != room_id,
    decreases list.len(),
{
    if list.len() > 0 {
        older_entries_go(list.drop_last(), room_id);
        let before = without_room(list.drop_last(), room_id);
        let all = without_room(list, room_id);
        assert forall|i: int| 0 <= i < all.len() implies (#[trigger] all[i]).room_id@
            != room_id by {
            if i < before.len() {
                assert(all[i] == before[i]);
            }
        }
    }
}

proof fn without_contains(list: Seq<HistoryItem>, room_id: Seq<char>, item: HistoryItem)
    ensures
        without_room(list, room_id).contains(item) <==> list.contains(item) && item.room_id@
            != room_id,
    decreases list.len(),
{
    if list.len() > 0 {
        let short = list.drop_last();
        without_contains(short, room_id, item);
        let before = without_room(short, room_id);
        let all = without_room(list, room_id);
        if all.contains(item) {
            let k = all.index_of(item);
            if k < before.len() {
                assert(before[k] == item);
                assert(list[short.index_of(item)] == item);
            } else {
                assert(list[list.len() - 1] == item);
            }
        }
        if list.contains(item) && item.room_id@ != room_id {
            let k = list.index_of(item);
            if k < short.len() {
                assert(short[k] == item);
                assert(all[before.index_of(item)] == item);
            } else {
                assert(all[all.len() - 1] == item);
            }
        }
    }
}

/// Of the rooms the twenty that were joined last are kept, the latest first; one that is
/// left out was joined no later than any that is kept.
pub proof fn the_latest_twenty_are_kept(list: Seq<HistoryItem>, item: HistoryItem, k: int)
    ensures
        kept(list).len() == if list.len() > 20 {
            20
        } else {
            list.len()
        },
        kept(list).contains(item) ==> list.contains(item),
        list.contains(item) && !kept(list).contains(item) && 0 <= k < kept(list).len()
            ==> item.last_joined <= kept(list)[k].last_joined,
        forall|i: int, j: int|
            0 <= i < j < kept(list).len() ==> (#[trigger] kept(list)[i]).last_joined >= (
            #[trigger] kept(list)[j]).last_joined,
{
    let sorted = by_rank(list);
    by_rank_orders(list);
    crate::sort::by_rank_keeps_items(list, item);
    let all = kept(list);
    assert forall|i: int, j: int| 0 <= i < j < all.len() implies (#[trigger] all[i]).last_joined >= (
    #[trigger] all[j]).last_joined by {
        assert(sorted[i].rank() >= sorted[j].rank());
    }
    if all.contains(item) {
        let i = all.index_of(item);
        assert(sorted[i] == item);
    }
    if list.contains(item) && !all.contains(item) && 0 <= k < all.len() {
        let i = sorted.index_of(item);
        assert(sorted[i] == item);
        if i < all.len() {
            assert(all[i] == item);
        }
        assert(sorted[k].rank() >= sorted[i].rank());
    }
}

/// A room that is joined again is kept once, as it is joined now; what was known of the
/// others stays.
pub proof fn a_room_is_kept_once(list: Seq<HistoryItem>, joined: HistoryItem, item: HistoryItem)
    requires
        list.len() < 20,
    ensures
        ({
            let all = kept(without_room(list, joined.room_id@).push(joined));
            &&& all.contains(joined)
            &&& item.room_id@ != joined.room_id@ ==> (all.contains(item) <==> list.contains(item))
            &&& item.room_id@ == joined.room_id@ && item != joined ==> !all.contains(item)
        }),
{
    let rest = without_room(list, joined.room_id@);
    let more = rest.push(joined);
    without_contains(list, joined.room_id@, item);
    without_is_shorter(list, joined.room_id@);
    crate::sort::by_rank_keeps_items(more, item);
    crate::sort::by_rank_keeps_items(more, joined);
    by_rank_orders(more);
    assert(more[rest.len() as int] == joined);
    assert(kept(more) == by_rank(more));
    if more.contains(item) && item != joined {
        let k = more.index_of(item);
        assert(rest[k] == item);
    }
    if rest.contains(item) {
        let k = rest.index_of(item);
        assert(more[k] == item);
    }
}

proof fn without_is_shorter(list: Seq<HistoryItem>, room_id: Seq<char>)
    ensures
        without_room(list, room_id).len() <= list.len(),
    decreases list.len(),
{
    if list.len() > 0 {
        without_is_shorter(list.drop_last(), room_id);
    }
}

/// An invitation is known by the name of the first room that was joined with it.
pub proof fn invitations_are_known_by_name(list: Seq<HistoryItem>, invite: Seq<char>, i: int)
    requires
        0 <= i <= list.len(),
        forall|j: int| 0 <= j < i ==> (#[trigger] list[j]).invite_code@ != invite,
        i < list.len() ==> list[i].invite_code@ == invite,
    ensures
        i < list.len() ==> name_by_invite(list, invite) == Some(list[i].name@),
        i == list.len() ==> name_by_invite(list, invite) is None,
    decreases list.len(),
{
    if list.len() > 0 && i > 0 {
        assert(list[0].invite_code@ != invite);
        let rest = list.subrange(1, list.len() as int);
        assert forall|j: int| 0 <= j < i - 1 implies (#[trigger] rest[j]).invite_code@ != invite by {
            assert(list[j + 1].invite_code@ != invite);
        }
        invitations_are_known_by_name(rest, invite, i - 1);
    }
}

} // verus!
