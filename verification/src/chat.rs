use vstd::prelude::*;
use vstd::string::*;

use crate::cap::{
    cache_stokens, has_live_entry, live_entry_at, CapCache, CapCheck, CapEntryView, CACHE_CAPACITY,
};
use crate::chat_types::{
    Event, EventView, Message, MessageData, MessageDataView, MessageView, ReplyChain,
    ReplyChainView, Room, RoomView, ServerInfo, User, UserView,
};
use crate::auth::distinct_seq;
use crate::errors::ErrorCode;
use crate::text::str_eq;

verus! {

/// The state of one chat server: members, the banned set, rooms, the
/// append-only message table, the event log, and the capability cache.
pub struct RealmChatServer {
    pub server_id: String,
    pub domain: String,
    pub port: u16,
    pub users: Vec<User>,
    pub banned: Vec<String>,
    pub rooms: Vec<Room>,
    pub messages: Vec<Message>,
    pub events: Vec<(u32, Event)>,
    pub cache: CapCache,
    pub typing_users: Vec<(String, String)>,
    pub next_user_id: i64,
    pub next_room_id: i64,
}

/// The mathematical shape of a chat server.
#[verifier::ext_equal]
pub ghost struct ChatServerView {
    pub server_id: Seq<char>,
    pub domain: Seq<char>,
    pub port: u16,
    pub users: Seq<UserView>,
    pub banned: Seq<Seq<char>>,
    pub rooms: Seq<RoomView>,
    pub messages: Seq<MessageView>,
    pub events: Seq<(u32, EventView)>,
    pub cache: Seq<CapEntryView>,
    pub typing_users: Seq<(Seq<char>, Seq<char>)>,
    pub next_user_id: int,
    pub next_room_id: int,
}

impl View for RealmChatServer {
    type V = ChatServerView;

    open spec fn view(&self) -> ChatServerView {
        ChatServerView {
            server_id: self.server_id@,
            domain: self.domain@,
            port: self.port,
            users: Seq::new(self.users@.len(), |i: int| self.users@[i]@),
            banned: self.banned.deep_view(),
            rooms: Seq::new(self.rooms@.len(), |i: int| self.rooms@[i]@),
            messages: Seq::new(self.messages@.len(), |i: int| self.messages@[i]@),
            events: Seq::new(
                self.events@.len(),
                |i: int| (self.events@[i].0, self.events@[i].1@),
            ),
            cache: self.cache@,
            typing_users: Seq::new(
                self.typing_users@.len(),
                |i: int| (self.typing_users@[i].0@, self.typing_users@[i].1@),
            ),
            next_user_id: self.next_user_id as int,
            next_room_id: self.next_room_id as int,
        }
    }
}

/// Some member carries this userid.
pub open spec fn is_member(users: Seq<UserView>, userid: Seq<char>) -> bool {
    exists|i: int| 0 <= i < users.len() && users[i].userid == userid
}

/// The index of the member carrying this userid; meaningful only when one
/// exists (well-formedness makes it unique).
pub open spec fn member_at(users: Seq<UserView>, userid: Seq<char>) -> int {
    choose|i: int| 0 <= i < users.len() && users[i].userid == userid
}

/// This userid belongs to a member who is an admin.
pub open spec fn member_is_admin(users: Seq<UserView>, userid: Seq<char>) -> bool {
    is_member(users, userid) && users[member_at(users, userid)].admin
}

/// This userid belongs to the member who owns the server.
pub open spec fn member_is_owner(users: Seq<UserView>, userid: Seq<char>) -> bool {
    is_member(users, userid) && users[member_at(users, userid)].owner
}

/// Some room carries this id.
pub open spec fn room_with_id(rooms: Seq<RoomView>, id: int) -> bool {
    exists|j: int| 0 <= j < rooms.len() && rooms[j].id == id
}

/// Some room carries this room name.
pub open spec fn roomid_taken(rooms: Seq<RoomView>, roomid: Seq<char>) -> bool {
    exists|j: int| 0 <= j < rooms.len() && rooms[j].roomid == roomid
}

/// The index of the room carrying this room name; meaningful only when one
/// exists.
pub open spec fn room_at(rooms: Seq<RoomView>, roomid: Seq<char>) -> int {
    choose|j: int| 0 <= j < rooms.len() && rooms[j].roomid == roomid
}

/// A stored message may be shown to a caller: its room still exists, and a
/// room marked admin-only-view is shown to admins alone.
pub open spec fn visible_msg(rooms: Seq<RoomView>, admin: bool, m: MessageView) -> bool {
    room_with_id(rooms, m.room.id) && (admin || !m.room.admin_only_view)
}

/// How many members own the server.
pub open spec fn owner_count(users: Seq<UserView>) -> int
    decreases users.len(),
{
    if users.len() == 0 {
        0
    } else {
        owner_count(users.drop_last()) + if users.last().owner {
            1int
        } else {
            0int
        }
    }
}

impl ChatServerView {
    /// The store invariant. Members have unique ids and userids, at most one
    /// owner, and owners are admins; rooms have unique ids and names; message
    /// ids are dense from one, their references point strictly backwards, a
    /// stored edit was sent by the sender of the message it revises, a stored
    /// redaction additionally by an admin; a room that still exists agrees
    /// with every snapshot of it; event indexes are dense from one; the
    /// banned set and the capability cache keep set semantics.
    pub open spec fn wf(self) -> bool {
        &&& 0 < self.next_user_id
        &&& 0 < self.next_room_id
        &&& forall|i: int|
            0 <= i < self.users.len() ==> 0 < (#[trigger] self.users[i]).id < self.next_user_id
        &&& forall|i: int, j: int|
            0 <= i < j < self.users.len() ==> (#[trigger] self.users[i]).id != (
            #[trigger] self.users[j]).id
        &&& forall|i: int, j: int|
            0 <= i < j < self.users.len() ==> (#[trigger] self.users[i]).userid != (
            #[trigger] self.users[j]).userid
        &&& forall|i: int, j: int|
            0 <= i < j < self.users.len() ==> !((#[trigger] self.users[i]).owner && (
            #[trigger] self.users[j]).owner)
        &&& forall|i: int|
            0 <= i < self.users.len() ==> ((#[trigger] self.users[i]).owner ==> self.users[i].admin)
        &&& distinct_seq(self.banned)
        &&& forall|j: int|
            0 <= j < self.rooms.len() ==> 0 < (#[trigger] self.rooms[j]).id < self.next_room_id
        &&& forall|i: int, j: int|
            0 <= i < j < self.rooms.len() ==> (#[trigger] self.rooms[i]).id != (
            #[trigger] self.rooms[j]).id
        &&& forall|i: int, j: int|
            0 <= i < j < self.rooms.len() ==> (#[trigger] self.rooms[i]).roomid != (
            #[trigger] self.rooms[j]).roomid
        &&& forall|i: int|
            0 <= i < self.messages.len() ==> (#[trigger] self.messages[i]).id == i + 1
        &&& forall|i: int|
            0 <= i < self.messages.len() ==> 0 < (#[trigger] self.messages[i]).room.id
                < self.next_room_id
        &&& forall|i: int|
            0 <= i < self.messages.len() ==> match (#[trigger] self.messages[i]).data.references() {
                Some(rid) => 1 <= rid < self.messages[i].id,
                None => true,
            }
        &&& forall|i: int|
            0 <= i < self.messages.len() ==> ((#[trigger] self.messages[i]).data matches
            MessageDataView::Edit { referencing_id, .. } ==> self.messages[referencing_id
                - 1].user.userid == self.messages[i].user.userid)
        &&& forall|i: int|
            0 <= i < self.messages.len() ==> ((#[trigger] self.messages[i]).data matches
            MessageDataView::Redaction { referencing_id } ==> self.messages[referencing_id
                - 1].user.userid == self.messages[i].user.userid && self.messages[i].user.admin)
        &&& forall|i: int, j: int|
            0 <= i < self.messages.len() && 0 <= j < self.rooms.len() && (
            #[trigger] self.rooms[j]).id == (#[trigger] self.messages[i]).room.id
                ==> self.rooms[j] == self.messages[i].room
        &&& self.events.len() <= 0xffff_ffff
        &&& forall|i: int|
            0 <= i < self.events.len() ==> (#[trigger] self.events[i]).0 as int == i + 1
        &&& self.cache.len() <= CACHE_CAPACITY
        &&& distinct_seq(cache_stokens(self.cache))
        &&& distinct_seq(self.typing_users)
    }
}

/// With unique userids, `member_at` names the one index carrying a userid.
pub proof fn lemma_member_at(users: Seq<UserView>, userid: Seq<char>, i: int)
    requires
        forall|p: int, q: int|
            0 <= p < q < users.len() ==> (#[trigger] users[p]).userid != (
            #[trigger] users[q]).userid,
        0 <= i < users.len(),
        users[i].userid == userid,
    ensures
        member_at(users, userid) == i,
        is_member(users, userid),
{
    let j = member_at(users, userid);
    if j != i {
        if j < i {
            assert(users[j].userid != users[i].userid);
        } else {
            assert(users[i].userid != users[j].userid);
        }
    }
}

/// With unique room names, `room_at` names the one index carrying a name.
pub proof fn lemma_room_at(rooms: Seq<RoomView>, roomid: Seq<char>, j: int)
    requires
        forall|p: int, q: int|
            0 <= p < q < rooms.len() ==> (#[trigger] rooms[p]).roomid != (
            #[trigger] rooms[q]).roomid,
        0 <= j < rooms.len(),
        rooms[j].roomid == roomid,
    ensures
        room_at(rooms, roomid) == j,
        roomid_taken(rooms, roomid),
{
    let k = room_at(rooms, roomid);
    if k != j {
        if k < j {
            assert(rooms[k].roomid != rooms[j].roomid);
        } else {
            assert(rooms[j].roomid != rooms[k].roomid);
        }
    }
}

/// Appending an element splits a filter into the filtered prefix and the
/// element, kept or dropped by the predicate.
pub proof fn lemma_filter_push<A>(s: Seq<A>, pred: spec_fn(A) -> bool, x: A)
    ensures
        s.push(x).filter(pred) == if pred(x) {
            s.filter(pred).push(x)
        } else {
            s.filter(pred)
        },
{
    reveal(Seq::filter);
    assert(s.push(x).drop_last() =~= s);
    assert(s.push(x).last() == x);
}

impl RealmChatServer {
    /// An empty chat server for the given identity and endpoint.
    pub fn new(server_id: String, domain: String, port: u16) -> (r: RealmChatServer)
        ensures
            r@.wf(),
            r@.server_id == server_id@,
            r@.domain == domain@,
            r@.port == port,
            r@.users.len() == 0,
            r@.rooms.len() == 0,
            r@.messages.len() == 0,
            r@.events.len() == 0,
            r@.banned.len() == 0,
            r@.cache.len() == 0,
            r@.next_user_id == 1,
            r@.next_room_id == 1,
            r@.typing_users.len() == 0,
    {
        RealmChatServer {
            server_id,
            domain,
            port,
            users: Vec::new(),
            banned: Vec::new(),
            rooms: Vec::new(),
            messages: Vec::new(),
            events: Vec::new(),
            cache: CapCache::new(),
            typing_users: Vec::new(),
            next_user_id: 1,
            next_room_id: 1,
        }
    }

    /// What this server tells any caller about itself.
    pub fn get_info(&self) -> (r: ServerInfo)
        ensures
            r.server_id@ == self@.server_id,
    {
        ServerInfo { server_id: self.server_id.clone() }
    }

    /// The index of the member carrying this userid, if any.
    fn find_member(&self, userid: &str) -> (r: Option<usize>)
        ensures
            match r {
                Some(i) => i < self@.users.len() && self@.users[i as int].userid == userid@,
                None => !is_member(self@.users, userid@),
            },
    {
        let mut i: usize = 0;
        while i < self.users.len()
            invariant
                i <= self@.users.len(),
                self@.users.len() == self.users@.len(),
                forall|j: int| 0 <= j < i ==> (#[trigger] self@.users[j]).userid != userid@,
            decreases self.users@.len() - i,
        {
            if str_eq(self.users[i].userid.as_str(), userid) {
                return Some(i);
            }
            i = i + 1;
        }
        None
    }

    /// The index of the room carrying this room name, if any.
    fn find_room(&self, roomid: &str) -> (r: Option<usize>)
        ensures
            match r {
                Some(j) => j < self@.rooms.len() && self@.rooms[j as int].roomid == roomid@,
                None => !roomid_taken(self@.rooms, roomid@),
            },
    {
        let mut j: usize = 0;
        while j < self.rooms.len()
            invariant
                j <= self@.rooms.len(),
                self@.rooms.len() == self.rooms@.len(),
                forall|k: int| 0 <= k < j ==> (#[trigger] self@.rooms[k]).roomid != roomid@,
            decreases self.rooms@.len() - j,
        {
            if str_eq(self.rooms[j].roomid.as_str(), roomid) {
                return Some(j);
            }
            j = j + 1;
        }
        None
    }

    /// Whether any room carries this id.
    fn room_exists(&self, id: i64) -> (r: bool)
        ensures
            r == room_with_id(self@.rooms, id as int),
    {
        let mut j: usize = 0;
        while j < self.rooms.len()
            invariant
                j <= self@.rooms.len(),
                self@.rooms.len() == self.rooms@.len(),
                forall|k: int| 0 <= k < j ==> (#[trigger] self@.rooms[k]).id != id as int,
            decreases self.rooms@.len() - j,
        {
            if self.rooms[j].id == id {
                proof {
                    assert(self@.rooms[j as int].id == id as int);
                    assert(room_with_id(self@.rooms, id as int));
                }
                return true;
            }
            j = j + 1;
        }
        false
    }

    /// Whether this userid is an admin of this server.
    pub fn internal_is_user_admin(&self, userid: &str) -> (r: bool)
        requires
            self@.wf(),
        ensures
            r == member_is_admin(self@.users, userid@),
    {
        match self.find_member(userid) {
            Some(i) => {
                proof {
                    lemma_member_at(self@.users, userid@, i as int);
                }
                self.users[i].admin
            },
            None => false,
        }
    }

    /// Whether this userid owns this server.
    pub fn internal_is_user_owner(&self, userid: &str) -> (r: bool)
        requires
            self@.wf(),
        ensures
            r == member_is_owner(self@.users, userid@),
    {
        match self.find_member(userid) {
            Some(i) => {
                proof {
                    lemma_member_at(self@.users, userid@, i as int);
                }
                self.users[i].owner
            },
            None => false,
        }
    }

    /// Whether this userid is currently a member.
    pub fn is_user_in_server(&self, userid: &str) -> (r: bool)
        ensures
            r == is_member(self@.users, userid@),
    {
        match self.find_member(userid) {
            Some(i) => {
                proof {
                    assert(is_member(self@.users, userid@));
                }
                true
            },
            None => false,
        }
    }

    /// One member's record, for anyone who asks.
    pub fn get_user(&self, userid: &str) -> (r: Result<User, ErrorCode>)
        requires
            self@.wf(),
        ensures
            match r {
                Ok(u) => is_member(self@.users, userid@) && u@ == self@.users[member_at(
                    self@.users,
                    userid@,
                )],
                Err(e) => e == ErrorCode::UserNotFound && !is_member(self@.users, userid@),
            },
    {
        match self.find_member(userid) {
            Some(i) => {
                proof {
                    lemma_member_at(self@.users, userid@, i as int);
                }
                Ok(self.users[i].clone())
            },
            None => Err(ErrorCode::UserNotFound),
        }
    }

    /// Every member's record, in join order.
    pub fn get_users(&self) -> (r: Result<Vec<User>, ErrorCode>)
        ensures
            r is Ok && r->Ok_0.deep_view() == self@.users,
    {
        let mut out: Vec<User> = Vec::new();
        proof {
            assert(out.deep_view() =~= self@.users.take(0));
        }
        let mut i: usize = 0;
        while i < self.users.len()
            invariant
                i <= self@.users.len(),
                self@.users.len() == self.users@.len(),
                out.deep_view() == self@.users.take(i as int),
            decreases self.users@.len() - i,
        {
            let ghost pre = out.deep_view();
            out.push(self.users[i].clone());
            proof {
                assert(out.deep_view() =~= pre.push(self@.users[i as int]));
            }
            i = i + 1;
            proof {
                assert(out.deep_view() =~= self@.users.take(i as int));
            }
        }
        proof {
            assert(out.deep_view() =~= self@.users);
        }
        Ok(out)
    }

    /// One room, by name; a room marked admin-only-view does not exist for a
    /// caller who is not an admin.
    pub fn get_room(&self, stoken_valid: bool, userid: &str, roomid: &str) -> (r: Result<
        Room,
        ErrorCode,
    >)
        requires
            self@.wf(),
        ensures
            match r {
                Ok(room) => ({
                    let admin = member_is_admin(self@.users, userid@);
                    &&& stoken_valid
                    &&& roomid_taken(self@.rooms, roomid@)
                    &&& room@ == self@.rooms[room_at(self@.rooms, roomid@)]
                    &&& (admin || !room@.admin_only_view)
                }),
                Err(e) => if !stoken_valid {
                    e == ErrorCode::Unauthorized
                } else {
                    e == ErrorCode::RoomNotFound && (!roomid_taken(self@.rooms, roomid@)
                        || (self@.rooms[room_at(self@.rooms, roomid@)].admin_only_view
                        && !member_is_admin(self@.users, userid@)))
                },
            },
    {
        if !stoken_valid {
            return Err(ErrorCode::Unauthorized);
        }
        let is_admin = self.internal_is_user_admin(userid);
        match self.find_room(roomid) {
            Some(j) => {
                proof {
                    lemma_room_at(self@.rooms, roomid@, j as int);
                }
                if self.rooms[j].admin_only_view && !is_admin {
                    Err(ErrorCode::RoomNotFound)
                } else {
                    Ok(self.rooms[j].clone())
                }
            },
            None => Err(ErrorCode::RoomNotFound),
        }
    }

    /// Every room the caller may see: all of them for an admin, the rooms
    /// not marked admin-only-view for anyone else.
    pub fn get_rooms(&self, stoken_valid: bool, userid: &str) -> (r: Result<Vec<Room>, ErrorCode>)
        requires
            self@.wf(),
        ensures
            match r {
                Ok(rooms) => ({
                    let admin = member_is_admin(self@.users, userid@);
                    &&& stoken_valid
                    &&& rooms.deep_view() == self@.rooms.filter(
                        |room: RoomView| admin || !room.admin_only_view,
                    )
                }),
                Err(e) => e == ErrorCode::Unauthorized && !stoken_valid,
            },
    {
        if !stoken_valid {
            return Err(ErrorCode::Unauthorized);
        }
        let is_admin = self.internal_is_user_admin(userid);
        let ghost pred = |room: RoomView| member_is_admin(self@.users, userid@)
            || !room.admin_only_view;
        let mut out: Vec<Room> = Vec::new();
        proof {
            reveal(Seq::filter);
            assert(out.deep_view() =~= self@.rooms.take(0).filter(pred));
        }
        let mut j: usize = 0;
        while j < self.rooms.len()
            invariant
                j <= self@.rooms.len(),
                self@.rooms.len() == self.rooms@.len(),
                is_admin == member_is_admin(self@.users, userid@),
                pred == (|room: RoomView| member_is_admin(self@.users, userid@)
                    || !room.admin_only_view),
                out.deep_view() == self@.rooms.take(j as int).filter(pred),
            decreases self.rooms@.len() - j,
        {
            let ghost pre = out.deep_view();
            if is_admin || !self.rooms[j].admin_only_view {
                out.push(self.rooms[j].clone());
                proof {
                    assert(out.deep_view() =~= pre.push(self@.rooms[j as int]));
                }
            }
            proof {
                lemma_filter_push(self@.rooms.take(j as int), pred, self@.rooms[j as int]);
                assert(self@.rooms.take(j as int).push(self@.rooms[j as int]) =~= self@.rooms.take(
                    j as int + 1,
                ));
            }
            j = j + 1;
        }
        proof {
            assert(self@.rooms.take(self@.rooms.len() as int) =~= self@.rooms);
        }
        Ok(out)
    }

    /// The tail of the event log past a client's last-seen index: every entry
    /// whose index exceeds it, in order.
    pub fn poll_events_since(&self, index: u32) -> (r: Vec<(u32, Event)>)
        requires
            self@.wf(),
        ensures
            events_view(r@) == self@.events.skip(
                if index as int <= self@.events.len() {
                    index as int
                } else {
                    self@.events.len() as int
                },
            ),
    {
        let len = self.events.len();
        let start: usize = if (index as usize) < len {
            index as usize
        } else {
            len
        };
        let mut out: Vec<(u32, Event)> = Vec::new();
        proof {
            assert(events_view(out@) =~= self@.events.skip(start as int).take(0));
        }
        let mut i: usize = start;
        while i < len
            invariant
                start <= i <= len,
                len == self.events@.len(),
                events_view(out@) == self@.events.skip(start as int).take(i - start),
            decreases len - i,
        {
            let ghost pre = events_view(out@);
            let entry = (self.events[i].0, self.events[i].1.clone());
            out.push(entry);
            i = i + 1;
            proof {
                assert(events_view(out@) =~= pre.push(self@.events[i - 1]));
                assert(events_view(out@) =~= self@.events.skip(start as int).take(i - start));
            }
        }
        proof {
            assert(self@.events.skip(start as int).take(len - start) =~= self@.events.skip(
                start as int,
            ));
        }
        out
    }

    /// Consults the capability cache for a claimed (capability, userid)
    /// pair. `Unknown` obliges the caller to ask the user's home Auth
    /// Service and report the answer through `record_validation`; a cached
    /// entry for another userid is refused outright, which defeats token
    /// substitution.
    pub fn check_capability(&mut self, stoken: &str, userid: &str, now: u64) -> (r: CapCheck)
        requires
            old(self)@.wf(),
        ensures
            final(self)@.wf(),
            final(self)@ == (ChatServerView { cache: final(self)@.cache, ..old(self)@ }),
            match r {
                CapCheck::Valid => ({
                    let t = live_entry_at(old(self)@.cache, stoken@, now);
                    &&& has_live_entry(old(self)@.cache, stoken@, now)
                    &&& old(self)@.cache[t].userid == userid@
                    &&& final(self)@.cache == old(self)@.cache.update(
                        t,
                        CapEntryView { last_used: now, ..old(self)@.cache[t] },
                    )
                }),
                CapCheck::Mismatch => has_live_entry(old(self)@.cache, stoken@, now) && old(self)@.cache[live_entry_at(old(self)@.cache, stoken@, now)].userid != userid@ && final(self)@.cache == old(self)@.cache,
                CapCheck::Unknown => !has_live_entry(old(self)@.cache, stoken@, now) && final(self)@.cache == old(self)@.cache,
            },
    {
        let r = self.cache.check(stoken, userid, now);
        proof {
            assert(self@ =~= ChatServerView { cache: self@.cache, ..old(self)@ });
        }
        r
    }

    /// Records what the home Auth Service answered about a capability; only
    /// a positive answer is cached.
    pub fn record_validation(&mut self, stoken: &str, userid: &str, valid: bool, now: u64)
        requires
            old(self)@.wf(),
        ensures
            final(self)@.wf(),
            final(self)@ == (ChatServerView { cache: final(self)@.cache, ..old(self)@ }),
            !valid ==> final(self)@.cache == old(self)@.cache,
            valid ==> has_live_entry(final(self)@.cache, stoken@, now) && final(self)@.cache[live_entry_at(final(self)@.cache, stoken@, now)].userid == userid@,
    {
        self.cache.record_validation(stoken, userid, valid, now);
        proof {
            assert(self@ =~= ChatServerView { cache: self@.cache, ..old(self)@ });
        }
    }
}

/// The member a join inserts: the first joiner becomes owner and admin,
/// later joiners plain members; the display name starts as the userid.
pub open spec fn join_member(s: ChatServerView, userid: Seq<char>) -> UserView {
    UserView {
        id: s.next_user_id,
        userid: userid,
        name: userid,
        owner: s.users.len() == 0,
        admin: s.users.len() == 0,
    }
}

/// The event entry appended at the current end of a log.
pub open spec fn next_event(events: Seq<(u32, EventView)>, e: EventView) -> (u32, EventView) {
    (((events.len() + 1) as u32), e)
}

/// Replacing one member with a member of the same identity and ownership
/// keeps the store well-formed.
proof fn lemma_wf_update_member(s: ChatServerView, i: int, u: UserView)
    requires
        s.wf(),
        0 <= i < s.users.len(),
        u.id == s.users[i].id,
        u.userid == s.users[i].userid,
        u.owner == s.users[i].owner,
        u.owner ==> u.admin,
    ensures
        (ChatServerView { users: s.users.update(i, u), ..s }).wf(),
{
}

/// Removing a member keeps the store well-formed.
proof fn lemma_wf_remove_member(s: ChatServerView, i: int)
    requires
        s.wf(),
        0 <= i < s.users.len(),
    ensures
        (ChatServerView { users: s.users.remove(i), ..s }).wf(),
{
    s.users.remove_ensures(i);
    let users = s.users.remove(i);
    assert forall|p: int, q: int| 0 <= p < q < users.len() implies (#[trigger] users[p]).id != (
    #[trigger] users[q]).id && users[p].userid != users[q].userid && !(users[p].owner
        && users[q].owner) by {
        let p0 = if p < i { p } else { p + 1 };
        let q0 = if q < i { q } else { q + 1 };
        assert(users[p] == s.users[p0]);
        assert(users[q] == s.users[q0]);
    }
}

/// Removing a room keeps the store well-formed.
proof fn lemma_wf_remove_room(s: ChatServerView, j: int)
    requires
        s.wf(),
        0 <= j < s.rooms.len(),
    ensures
        (ChatServerView { rooms: s.rooms.remove(j), ..s }).wf(),
{
    s.rooms.remove_ensures(j);
    let rooms = s.rooms.remove(j);
    assert forall|p: int, q: int| 0 <= p < q < rooms.len() implies (#[trigger] rooms[p]).id != (
    #[trigger] rooms[q]).id && rooms[p].roomid != rooms[q].roomid by {
        let p0 = if p < j { p } else { p + 1 };
        let q0 = if q < j { q } else { q + 1 };
        assert(rooms[p] == s.rooms[p0]);
        assert(rooms[q] == s.rooms[q0]);
    }
    assert forall|p: int, q: int|
        0 <= p < s.messages.len() && 0 <= q < rooms.len() && (#[trigger] rooms[q]).id == (
        #[trigger] s.messages[p]).room.id implies rooms[q] == s.messages[p].room by {
        let q0 = if q < j { q } else { q + 1 };
        assert(rooms[q] == s.rooms[q0]);
    }
}

impl RealmChatServer {
    /// Appends one event at the next dense index.
    fn push_event(&mut self, event: Event)
        requires
            old(self)@.events.len() < 0xffff_ffff,
        ensures
            final(self)@ == (ChatServerView {
                events: old(self)@.events.push(next_event(old(self)@.events, event@)),
                ..old(self)@
            }),
    {
        let idx = (self.events.len() as u32) + 1;
        self.events.push((idx, event));
        proof {
            assert(self@.events =~= old(self)@.events.push(
                next_event(old(self)@.events, event@),
            ));
            assert(self@ =~~= (ChatServerView {
                events: old(self)@.events.push(next_event(old(self)@.events, event@)),
                ..old(self)@
            }));
        }
    }

    /// Admission: a validated caller who is neither a member already nor
    /// banned joins; the first joiner becomes owner and admin. Emits a
    /// user-joined event.
    pub fn join_server(&mut self, stoken_valid: bool, userid: &str) -> (r: Result<User, ErrorCode>)
        requires
            old(self)@.wf(),
            old(self).next_user_id < i64::MAX,
            old(self)@.events.len() < 0xffff_ffff,
        ensures
            final(self)@.wf(),
            match r {
                Ok(u) => {
                    &&& stoken_valid
                    &&& !is_member(old(self)@.users, userid@)
                    &&& !old(self)@.banned.contains(userid@)
                    &&& u@ == join_member(old(self)@, userid@)
                    &&& final(self)@ == (ChatServerView {
                        users: old(self)@.users.push(join_member(old(self)@, userid@)),
                        next_user_id: old(self)@.next_user_id + 1,
                        events: old(self)@.events.push(
                            next_event(
                                old(self)@.events,
                                EventView::UserJoined { user: join_member(old(self)@, userid@) },
                            ),
                        ),
                        ..old(self)@
                    })
                },
                Err(e) => final(self)@ == old(self)@ && (if !stoken_valid {
                    e == ErrorCode::Unauthorized
                } else if is_member(old(self)@.users, userid@) {
                    e == ErrorCode::AlreadyJoinedServer
                } else {
                    e == ErrorCode::Unauthorized && old(self)@.banned.contains(userid@)
                }),
            },
    {
        if !stoken_valid {
            return Err(ErrorCode::Unauthorized);
        }
        if self.is_user_in_server(userid) {
            return Err(ErrorCode::AlreadyJoinedServer);
        }
        match crate::auth::find_str(&self.banned, userid) {
            Some(_) => {
                return Err(ErrorCode::Unauthorized);
            },
            None => {},
        }
        let is_owner = self.users.len() == 0;
        let member = User {
            id: self.next_user_id,
            userid: userid.to_owned(),
            name: userid.to_owned(),
            owner: is_owner,
            admin: is_owner,
        };
        let out = member.clone();
        self.next_user_id = self.next_user_id + 1;
        self.users.push(member);
        let ghost s1 = self@;
        proof {
            assert(s1 =~= (ChatServerView {
                users: old(self)@.users.push(join_member(old(self)@, userid@)),
                next_user_id: old(self)@.next_user_id + 1,
                ..old(self)@
            }));
        }
        self.push_event(Event::UserJoined(out.clone()));
        proof {
            assert(self@ =~~= (ChatServerView {
                users: old(self)@.users.push(join_member(old(self)@, userid@)),
                next_user_id: old(self)@.next_user_id + 1,
                events: old(self)@.events.push(
                    next_event(
                        old(self)@.events,
                        EventView::UserJoined { user: join_member(old(self)@, userid@) },
                    ),
                ),
                ..old(self)@
            }));
        }
        Ok(out)
    }

    /// A validated member leaves; the member row goes away and a user-left
    /// event is emitted.
    pub fn leave_server(&mut self, stoken_valid: bool, userid: &str) -> (r: Result<(), ErrorCode>)
        requires
            old(self)@.wf(),
            old(self)@.events.len() < 0xffff_ffff,
        ensures
            final(self)@.wf(),
            match r {
                Ok(_) => ({
                    let t = member_at(old(self)@.users, userid@);
                    &&& stoken_valid
                    &&& is_member(old(self)@.users, userid@)
                    &&& final(self)@ == (ChatServerView {
                        users: old(self)@.users.remove(t),
                        events: old(self)@.events.push(
                            next_event(
                                old(self)@.events,
                                EventView::UserLeft { user: old(self)@.users[t] },
                            ),
                        ),
                        ..old(self)@
                    })
                }),
                Err(e) => final(self)@ == old(self)@ && (if !stoken_valid {
                    e == ErrorCode::Unauthorized
                } else {
                    e == ErrorCode::NotInServer && !is_member(old(self)@.users, userid@)
                }),
            },
    {
        if !stoken_valid {
            return Err(ErrorCode::Unauthorized);
        }
        let idx = match self.find_member(userid) {
            Some(i) => i,
            None => {
                return Err(ErrorCode::NotInServer);
            },
        };
        proof {
            lemma_member_at(self@.users, userid@, idx as int);
        }
        let member = self.users.remove(idx);
        let ghost s1 = self@;
        proof {
            assert(s1 =~= (ChatServerView {
                users: old(self)@.users.remove(idx as int),
                ..old(self)@
            }));
            lemma_wf_remove_member(old(self)@, idx as int);
        }
        self.push_event(Event::UserLeft(member));
        proof {
            assert(self@ =~~= (ChatServerView {
                users: old(self)@.users.remove(idx as int),
                events: old(self)@.events.push(
                    next_event(
                        old(self)@.events,
                        EventView::UserLeft { user: old(self)@.users[idx as int] },
                    ),
                ),
                ..old(self)@
            }));
        }
        Ok(())
    }

    /// The owner grants admin to a member. Emits a promoted event.
    pub fn promote_user(&mut self, stoken_valid: bool, admin_userid: &str, userid: &str) -> (r:
        Result<(), ErrorCode>)
        requires
            old(self)@.wf(),
            old(self)@.events.len() < 0xffff_ffff,
        ensures
            final(self)@.wf(),
            match r {
                Ok(_) => ({
                    let t = member_at(old(self)@.users, userid@);
                    &&& stoken_valid
                    &&& member_is_owner(old(self)@.users, admin_userid@)
                    &&& is_member(old(self)@.users, userid@)
                    &&& final(self)@ == (ChatServerView {
                        users: old(self)@.users.update(
                            t,
                            UserView { admin: true, ..old(self)@.users[t] },
                        ),
                        events: old(self)@.events.push(
                            next_event(
                                old(self)@.events,
                                EventView::Promoted { userid: userid@ },
                            ),
                        ),
                        ..old(self)@
                    })
                }),
                Err(e) => final(self)@ == old(self)@ && (if !stoken_valid {
                    e == ErrorCode::Unauthorized
                } else if !member_is_owner(old(self)@.users, admin_userid@) {
                    e == ErrorCode::Unauthorized
                } else {
                    e == ErrorCode::UserNotFound && !is_member(old(self)@.users, userid@)
                }),
            },
    {
        if !stoken_valid {
            return Err(ErrorCode::Unauthorized);
        }
        if !self.internal_is_user_owner(admin_userid) {
            return Err(ErrorCode::Unauthorized);
        }
        let idx = match self.find_member(userid) {
            Some(i) => i,
            None => {
                return Err(ErrorCode::UserNotFound);
            },
        };
        proof {
            lemma_member_at(self@.users, userid@, idx as int);
        }
        self.users[idx].admin = true;
        let ghost s1 = self@;
        proof {
            let u2 = UserView { admin: true, ..old(self)@.users[idx as int] };
            assert(s1.users =~= old(self)@.users.update(idx as int, u2));
            assert(s1 =~= (ChatServerView {
                users: old(self)@.users.update(idx as int, u2),
                ..old(self)@
            }));
            lemma_wf_update_member(old(self)@, idx as int, u2);
        }
        self.push_event(Event::Promoted(userid.to_owned()));
        proof {
            assert(self@ =~~= (ChatServerView {
                users: old(self)@.users.update(
                    idx as int,
                    UserView { admin: true, ..old(self)@.users[idx as int] },
                ),
                events: old(self)@.events.push(
                    next_event(old(self)@.events, EventView::Promoted { userid: userid@ }),
                ),
                ..old(self)@
            }));
        }
        Ok(())
    }

    /// The owner withdraws admin from a member; the owner cannot be demoted.
    /// Emits a demoted event.
    pub fn demote_user(&mut self, stoken_valid: bool, owner_userid: &str, userid: &str) -> (r:
        Result<(), ErrorCode>)
        requires
            old(self)@.wf(),
            old(self)@.events.len() < 0xffff_ffff,
        ensures
            final(self)@.wf(),
            match r {
                Ok(_) => ({
                    let t = member_at(old(self)@.users, userid@);
                    &&& stoken_valid
                    &&& member_is_owner(old(self)@.users, owner_userid@)
                    &&& is_member(old(self)@.users, userid@)
                    &&& !old(self)@.users[t].owner
                    &&& final(self)@ == (ChatServerView {
                        users: old(self)@.users.update(
                            t,
                            UserView { admin: false, ..old(self)@.users[t] },
                        ),
                        events: old(self)@.events.push(
                            next_event(old(self)@.events, EventView::Demoted { userid: userid@ }),
                        ),
                        ..old(self)@
                    })
                }),
                Err(e) => final(self)@ == old(self)@ && (if !stoken_valid {
                    e == ErrorCode::Unauthorized
                } else if !member_is_owner(old(self)@.users, owner_userid@) {
                    e == ErrorCode::Unauthorized
                } else if !is_member(old(self)@.users, userid@) {
                    e == ErrorCode::UserNotFound
                } else {
                    e == ErrorCode::Unauthorized && old(self)@.users[member_at(
                        old(self)@.users,
                        userid@,
                    )].owner
                }),
            },
    {
        if !stoken_valid {
            return Err(ErrorCode::Unauthorized);
        }
        if !self.internal_is_user_owner(owner_userid) {
            return Err(ErrorCode::Unauthorized);
        }
        let idx = match self.find_member(userid) {
            Some(i) => i,
            None => {
                return Err(ErrorCode::UserNotFound);
            },
        };
        proof {
            lemma_member_at(self@.users, userid@, idx as int);
        }
        if self.users[idx].owner {
            return Err(ErrorCode::Unauthorized);
        }
        self.users[idx].admin = false;
        let ghost s1 = self@;
        proof {
            let u2 = UserView { admin: false, ..old(self)@.users[idx as int] };
            assert(s1.users =~= old(self)@.users.update(idx as int, u2));
            assert(s1 =~= (ChatServerView {
                users: old(self)@.users.update(idx as int, u2),
                ..old(self)@
            }));
            lemma_wf_update_member(old(self)@, idx as int, u2);
        }
        self.push_event(Event::Demoted(userid.to_owned()));
        proof {
            assert(self@ =~~= (ChatServerView {
                users: old(self)@.users.update(
                    idx as int,
                    UserView { admin: false, ..old(self)@.users[idx as int] },
                ),
                events: old(self)@.events.push(
                    next_event(old(self)@.events, EventView::Demoted { userid: userid@ }),
                ),
                ..old(self)@
            }));
        }
        Ok(())
    }

    /// An admin removes a member. Emits a kicked event.
    pub fn kick_user(&mut self, stoken_valid: bool, admin_userid: &str, userid: &str) -> (r: Result<
        (),
        ErrorCode,
    >)
        requires
            old(self)@.wf(),
            old(self)@.events.len() < 0xffff_ffff,
        ensures
            final(self)@.wf(),
            match r {
                Ok(_) => ({
                    let t = member_at(old(self)@.users, userid@);
                    &&& stoken_valid
                    &&& member_is_admin(old(self)@.users, admin_userid@)
                    &&& is_member(old(self)@.users, userid@)
                    &&& final(self)@ == (ChatServerView {
                        users: old(self)@.users.remove(t),
                        events: old(self)@.events.push(
                            next_event(old(self)@.events, EventView::Kicked { userid: userid@ }),
                        ),
                        ..old(self)@
                    })
                }),
                Err(e) => final(self)@ == old(self)@ && (if !stoken_valid {
                    e == ErrorCode::Unauthorized
                } else if !member_is_admin(old(self)@.users, admin_userid@) {
                    e == ErrorCode::Unauthorized
                } else {
                    e == ErrorCode::UserNotFound && !is_member(old(self)@.users, userid@)
                }),
            },
    {
        if !stoken_valid {
            return Err(ErrorCode::Unauthorized);
        }
        if !self.internal_is_user_admin(admin_userid) {
            return Err(ErrorCode::Unauthorized);
        }
        let idx = match self.find_member(userid) {
            Some(i) => i,
            None => {
                return Err(ErrorCode::UserNotFound);
            },
        };
        proof {
            lemma_member_at(self@.users, userid@, idx as int);
        }
        let _removed = self.users.remove(idx);
        let ghost s1 = self@;
        proof {
            assert(s1 =~= (ChatServerView {
                users: old(self)@.users.remove(idx as int),
                ..old(self)@
            }));
            lemma_wf_remove_member(old(self)@, idx as int);
        }
        self.push_event(Event::Kicked(userid.to_owned()));
        proof {
            assert(self@ =~~= (ChatServerView {
                users: old(self)@.users.remove(idx as int),
                events: old(self)@.events.push(
                    next_event(old(self)@.events, EventView::Kicked { userid: userid@ }),
                ),
                ..old(self)@
            }));
        }
        Ok(())
    }

    /// An admin bans a userid: any member row goes away and the userid may
    /// not rejoin until pardoned. Banning is idempotent. Emits a banned
    /// event.
    pub fn ban_user(&mut self, stoken_valid: bool, admin_userid: &str, userid: &str) -> (r: Result<
        (),
        ErrorCode,
    >)
        requires
            old(self)@.wf(),
            old(self)@.events.len() < 0xffff_ffff,
        ensures
            final(self)@.wf(),
            match r {
                Ok(_) => {
                    &&& stoken_valid
                    &&& member_is_admin(old(self)@.users, admin_userid@)
                    &&& final(self)@ == (ChatServerView {
                        users: if is_member(old(self)@.users, userid@) {
                            old(self)@.users.remove(member_at(old(self)@.users, userid@))
                        } else {
                            old(self)@.users
                        },
                        banned: if old(self)@.banned.contains(userid@) {
                            old(self)@.banned
                        } else {
                            old(self)@.banned.push(userid@)
                        },
                        events: old(self)@.events.push(
                            next_event(old(self)@.events, EventView::Banned { userid: userid@ }),
                        ),
                        ..old(self)@
                    })
                },
                Err(e) => final(self)@ == old(self)@ && (if !stoken_valid {
                    e == ErrorCode::Unauthorized
                } else {
                    e == ErrorCode::Unauthorized && !member_is_admin(
                        old(self)@.users,
                        admin_userid@,
                    )
                }),
            },
    {
        if !stoken_valid {
            return Err(ErrorCode::Unauthorized);
        }
        if !self.internal_is_user_admin(admin_userid) {
            return Err(ErrorCode::Unauthorized);
        }
        match self.find_member(userid) {
            Some(i) => {
                proof {
                    lemma_member_at(self@.users, userid@, i as int);
                }
                let _removed = self.users.remove(i);
                proof {
                    assert(self@ =~= (ChatServerView {
                        users: old(self)@.users.remove(i as int),
                        ..old(self)@
                    }));
                    lemma_wf_remove_member(old(self)@, i as int);
                }
            },
            None => {},
        }
        let ghost s1 = self@;
        match crate::auth::find_str(&self.banned, userid) {
            Some(_) => {
                proof {
                    assert(old(self)@.banned.contains(userid@));
                }
            },
            None => {
                self.banned.push(userid.to_owned());
                proof {
                    assert(self@.banned =~= s1.banned.push(userid@));
                    assert(self@ =~= (ChatServerView { banned: s1.banned.push(userid@), ..s1 }));
                }
            },
        }
        let ghost s2 = self@;
        self.push_event(Event::Banned(userid.to_owned()));
        proof {
            assert(self@ =~~= (ChatServerView {
                users: if is_member(old(self)@.users, userid@) {
                    old(self)@.users.remove(member_at(old(self)@.users, userid@))
                } else {
                    old(self)@.users
                },
                banned: if old(self)@.banned.contains(userid@) {
                    old(self)@.banned
                } else {
                    old(self)@.banned.push(userid@)
                },
                events: old(self)@.events.push(
                    next_event(old(self)@.events, EventView::Banned { userid: userid@ }),
                ),
                ..old(self)@
            }));
        }
        Ok(())
    }

    /// An admin lifts a ban. Pardoning a userid that was not banned changes
    /// nothing.
    pub fn pardon_user(&mut self, stoken_valid: bool, admin_userid: &str, userid: &str) -> (r:
        Result<(), ErrorCode>)
        requires
            old(self)@.wf(),
        ensures
            final(self)@.wf(),
            match r {
                Ok(_) => {
                    &&& stoken_valid
                    &&& member_is_admin(old(self)@.users, admin_userid@)
                    &&& final(self)@ == (ChatServerView {
                        banned: if old(self)@.banned.contains(userid@) {
                            old(self)@.banned.remove(old(self)@.banned.index_of(userid@))
                        } else {
                            old(self)@.banned
                        },
                        ..old(self)@
                    })
                },
                Err(e) => final(self)@ == old(self)@ && (if !stoken_valid {
                    e == ErrorCode::Unauthorized
                } else {
                    e == ErrorCode::Unauthorized && !member_is_admin(
                        old(self)@.users,
                        admin_userid@,
                    )
                }),
            },
    {
        if !stoken_valid {
            return Err(ErrorCode::Unauthorized);
        }
        if !self.internal_is_user_admin(admin_userid) {
            return Err(ErrorCode::Unauthorized);
        }
        match crate::auth::find_str(&self.banned, userid) {
            Some(j) => {
                proof {
                    crate::auth::lemma_distinct_index_of(self@.banned, userid@, j as int);
                }
                let _removed = self.banned.remove(j);
                proof {
                    crate::auth::lemma_distinct_remove(old(self)@.banned, j as int);
                    assert(self@.banned =~= old(self)@.banned.remove(j as int));
                    assert(self@ =~~= (ChatServerView {
                        banned: old(self)@.banned.remove(old(self)@.banned.index_of(userid@)),
                        ..old(self)@
                    }));
                }
                Ok(())
            },
            None => {
                proof {
                    assert(self@ =~~= (ChatServerView { banned: old(self)@.banned, ..old(self)@ }));
                }
                Ok(())
            },
        }
    }
}

/// Why a reference from a new message is refused: the referenced message
/// must exist and be one its sender may see.
pub open spec fn ref_check(s: ChatServerView, sender: UserView, rid: int) -> Option<ErrorCode> {
    if !(1 <= rid <= s.messages.len()) {
        Some(ErrorCode::MessageNotFound)
    } else if !visible_msg(s.rooms, sender.admin, s.messages[rid - 1]) {
        Some(ErrorCode::MessageNotFound)
    } else {
        None
    }
}

/// Why a send is refused, checked in order: unknown sender, unknown or
/// hidden room, an admin-only-send room for a plain member, a reserved
/// attachment, a bad reference, or an edit or redaction of someone else's
/// message; `None` when the send goes through.
pub open spec fn send_err(s: ChatServerView, m: MessageView) -> Option<ErrorCode> {
    if !is_member(s.users, m.user.userid) {
        Some(ErrorCode::UserNotFound)
    } else {
        let sender = s.users[member_at(s.users, m.user.userid)];
        if !roomid_taken(s.rooms, m.room.roomid) {
            Some(ErrorCode::RoomNotFound)
        } else {
            let room = s.rooms[room_at(s.rooms, m.room.roomid)];
            if room.admin_only_view && !sender.admin {
                Some(ErrorCode::RoomNotFound)
            } else if room.admin_only_send && !sender.admin {
                Some(ErrorCode::Unauthorized)
            } else {
                match m.data {
                    MessageDataView::Text { .. } => None,
                    MessageDataView::Attachment => Some(ErrorCode::Error),
                    MessageDataView::Reply { referencing_id, .. } => ref_check(
                        s,
                        sender,
                        referencing_id,
                    ),
                    MessageDataView::Reaction { referencing_id, .. } => ref_check(
                        s,
                        sender,
                        referencing_id,
                    ),
                    MessageDataView::Edit { referencing_id, .. } => match ref_check(
                        s,
                        sender,
                        referencing_id,
                    ) {
                        Some(e) => Some(e),
                        None => if s.messages[referencing_id - 1].user.userid != sender.userid {
                            Some(ErrorCode::Unauthorized)
                        } else {
                            None
                        },
                    },
                    MessageDataView::Redaction { referencing_id } => match ref_check(
                        s,
                        sender,
                        referencing_id,
                    ) {
                        Some(e) => Some(e),
                        None => if s.messages[referencing_id - 1].user.userid != sender.userid
                            || !sender.admin {
                            Some(ErrorCode::Unauthorized)
                        } else {
                            None
                        },
                    },
                }
            }
        }
    }
}

/// The message as stored: server-assigned dense id, server-assigned
/// instant, and the sender and room re-read from the store in place of the
/// client's untrusted copies.
pub open spec fn canonical_msg(s: ChatServerView, m: MessageView, now: int) -> MessageView {
    MessageView {
        id: s.messages.len() as int + 1,
        timestamp: now,
        user: s.users[member_at(s.users, m.user.userid)],
        room: s.rooms[room_at(s.rooms, m.room.roomid)],
        data: m.data,
    }
}

/// The store after a successful send: the canonical message appended and a
/// new-message event at the next index.
pub open spec fn send_post(s: ChatServerView, m: MessageView, now: int) -> ChatServerView {
    ChatServerView {
        messages: s.messages.push(canonical_msg(s, m, now)),
        events: s.events.push(
            next_event(s.events, EventView::NewMessage { message: canonical_msg(s, m, now) }),
        ),
        ..s
    }
}

/// The room as stored by a create: server-assigned id, the rest from the
/// request.
pub open spec fn canonical_room(s: ChatServerView, room: RoomView) -> RoomView {
    RoomView {
        id: s.next_room_id,
        roomid: room.roomid,
        admin_only_send: room.admin_only_send,
        admin_only_view: room.admin_only_view,
    }
}

/// The direct replies a caller may see: every visible stored message whose
/// payload references the head.
pub open spec fn direct_replies(s: ChatServerView, admin: bool, head_id: int) -> Seq<MessageView> {
    s.messages.filter(
        |m: MessageView| m.data.references() == Some(head_id) && visible_msg(s.rooms, admin, m),
    )
}

/// The reply tree below a head at a given remaining depth: at depth zero,
/// or with no visible direct replies, a leaf; otherwise one subtree per
/// direct reply with one level less to spend.
pub open spec fn chain_spec(
    s: ChatServerView,
    admin: bool,
    head: MessageView,
    depth: int,
) -> ReplyChainView
    decreases depth,
{
    let replies = direct_replies(s, admin, head.id);
    if depth <= 0 || replies.len() == 0 {
        ReplyChainView { message: head, replies: None }
    } else {
        ReplyChainView {
            message: head,
            replies: Some(
                Seq::new(replies.len(), |i: int| chain_spec(s, admin, replies[i], depth - 1)),
            ),
        }
    }
}

/// The mathematical shape of a built reply chain.
pub open spec fn chain_view(c: ReplyChain) -> ReplyChainView
    decreases c,
    via chain_view_decreases
{
    ReplyChainView {
        message: c.message@,
        replies: match c.replies {
            Some(v) => Some(
                Seq::new(
                    v@.len(),
                    |i: int|
                        if 0 <= i < v@.len() {
                            chain_view(v@[i])
                        } else {
                            ReplyChainView { message: c.message@, replies: None }
                        },
                ),
            ),
            None => None,
        },
    }
}

#[via_fn]
proof fn chain_view_decreases(c: ReplyChain) {
    broadcast use vstd::std_specs::vec::group_vec_axioms;

}

impl RealmChatServer {
    /// The payload's reference, if it carries one.
    fn references_of(data: &MessageData) -> (r: Option<i64>)
        ensures
            match r {
                Some(rid) => data@.references() == Some(rid as int),
                None => data@.references() is None,
            },
    {
        match data {
            MessageData::Text(_) => None,
            MessageData::Attachment(_) => None,
            MessageData::Reply(rp) => Some(rp.referencing_id),
            MessageData::Edit(e) => Some(e.referencing_id),
            MessageData::Reaction(rc) => Some(rc.referencing_id),
            MessageData::Redaction(rd) => Some(rd.referencing_id),
        }
    }

    /// Send: validate the capability against the claimed sender, re-read
    /// sender and room from the store, gate admin-only rooms, hold edits and
    /// redactions to their ownership rules, then insert with a server
    /// -assigned id and instant and emit a new-message event.
    pub fn send_message(&mut self, stoken_valid: bool, message: &Message, now: i64) -> (r: Result<
        Message,
        ErrorCode,
    >)
        requires
            old(self)@.wf(),
            old(self)@.messages.len() < 0x7fff_ffff_ffff_ffff,
            old(self)@.events.len() < 0xffff_ffff,
        ensures
            final(self)@.wf(),
            match r {
                Ok(out) => {
                    &&& stoken_valid
                    &&& send_err(old(self)@, message@) is None
                    &&& out@ == canonical_msg(old(self)@, message@, now as int)
                    &&& final(self)@ == send_post(old(self)@, message@, now as int)
                },
                Err(e) => final(self)@ == old(self)@ && (if !stoken_valid {
                    e == ErrorCode::Unauthorized
                } else {
                    send_err(old(self)@, message@) == Some(e)
                }),
            },
    {
        if !stoken_valid {
            return Err(ErrorCode::Unauthorized);
        }
        let sidx = match self.find_member(message.user.userid.as_str()) {
            Some(i) => i,
            None => {
                return Err(ErrorCode::UserNotFound);
            },
        };
        proof {
            lemma_member_at(self@.users, message@.user.userid, sidx as int);
        }
        let ridx = match self.find_room(message.room.roomid.as_str()) {
            Some(j) => j,
            None => {
                return Err(ErrorCode::RoomNotFound);
            },
        };
        proof {
            lemma_room_at(self@.rooms, message@.room.roomid, ridx as int);
        }
        let sender_admin = self.users[sidx].admin;
        if self.rooms[ridx].admin_only_view && !sender_admin {
            return Err(ErrorCode::RoomNotFound);
        }
        if self.rooms[ridx].admin_only_send && !sender_admin {
            return Err(ErrorCode::Unauthorized);
        }
        match &message.data {
            MessageData::Attachment(_) => {
                return Err(ErrorCode::Error);
            },
            _ => {},
        }
        match Self::references_of(&message.data) {
            Some(rid) => {
                if rid < 1 || rid > self.messages.len() as i64 {
                    return Err(ErrorCode::MessageNotFound);
                }
                let at = (rid - 1) as usize;
                if !self.room_exists(self.messages[at].room.id) {
                    return Err(ErrorCode::MessageNotFound);
                }
                if self.messages[at].room.admin_only_view && !sender_admin {
                    return Err(ErrorCode::MessageNotFound);
                }
                match &message.data {
                    MessageData::Edit(_) => {
                        if !str_eq(
                            self.messages[at].user.userid.as_str(),
                            message.user.userid.as_str(),
                        ) {
                            return Err(ErrorCode::Unauthorized);
                        }
                    },
                    MessageData::Redaction(_) => {
                        if !str_eq(
                            self.messages[at].user.userid.as_str(),
                            message.user.userid.as_str(),
                        ) || !sender_admin {
                            return Err(ErrorCode::Unauthorized);
                        }
                    },
                    _ => {},
                }
            },
            None => {},
        }
        let canonical = Message {
            id: self.messages.len() as i64 + 1,
            timestamp: now,
            user: self.users[sidx].clone(),
            room: self.rooms[ridx].clone(),
            data: message.data.clone(),
        };
        let out = canonical.clone();
        proof {
            assert(canonical@ == canonical_msg(old(self)@, message@, now as int));
        }
        self.messages.push(canonical);
        let ghost s1 = self@;
        proof {
            assert(s1 =~= (ChatServerView {
                messages: old(self)@.messages.push(
                    canonical_msg(old(self)@, message@, now as int),
                ),
                ..old(self)@
            }));
        }
        self.push_event(Event::NewMessage(out.clone()));
        proof {
            assert(self@ =~~= send_post(old(self)@, message@, now as int));
        }
        Ok(out)
    }

    /// One stored message by id; absent, deleted-room and admin-only-view
    /// rows are indistinguishable from missing for a caller they are hidden
    /// from.
    /// One stored message by id, as the store serves it to a caller of the
    /// given admin standing.
    fn lookup_message(&self, admin: bool, id: i64) -> (r: Result<Message, ErrorCode>)
        ensures
            match r {
                Ok(m) => 1 <= id <= self@.messages.len() && visible_msg(
                    self@.rooms,
                    admin,
                    self@.messages[id - 1],
                ) && m@ == self@.messages[id - 1],
                Err(e) => e == ErrorCode::MessageNotFound && (id < 1 || id
                    > self@.messages.len() || !visible_msg(
                    self@.rooms,
                    admin,
                    self@.messages[id - 1],
                )),
            },
    {
        if id < 1 {
            return Err(ErrorCode::MessageNotFound);
        }
        if id as u64 > self.messages.len() as u64 {
            return Err(ErrorCode::MessageNotFound);
        }
        let at = (id - 1) as usize;
        if !self.room_exists(self.messages[at].room.id) {
            return Err(ErrorCode::MessageNotFound);
        }
        if self.messages[at].room.admin_only_view && !admin {
            return Err(ErrorCode::MessageNotFound);
        }
        Ok(self.messages[at].clone())
    }

    /// One stored message by id; absent, deleted-room and admin-only-view
    /// rows are indistinguishable from missing for a caller they are hidden
    /// from.
    pub fn get_message(&self, stoken_valid: bool, userid: &str, id: i64) -> (r: Result<
        Message,
        ErrorCode,
    >)
        requires
            self@.wf(),
        ensures
            match r {
                Ok(m) => ({
                    let admin = member_is_admin(self@.users, userid@);
                    &&& stoken_valid
                    &&& 1 <= id <= self@.messages.len()
                    &&& visible_msg(self@.rooms, admin, self@.messages[id - 1])
                    &&& m@ == self@.messages[id - 1]
                }),
                Err(e) => if !stoken_valid {
                    e == ErrorCode::Unauthorized
                } else {
                    e == ErrorCode::MessageNotFound && (id < 1 || id > self@.messages.len()
                        || !visible_msg(
                        self@.rooms,
                        member_is_admin(self@.users, userid@),
                        self@.messages[id - 1],
                    ))
                },
            },
    {
        if !stoken_valid {
            return Err(ErrorCode::Unauthorized);
        }
        let admin = self.internal_is_user_admin(userid);
        self.lookup_message(admin, id)
    }

    /// Every stored message with an id past the caller's watermark that the
    /// caller may see, in id order.
    pub fn get_messages_since(&self, stoken_valid: bool, userid: &str, id: i64) -> (r: Result<
        Vec<Message>,
        ErrorCode,
    >)
        requires
            self@.wf(),
        ensures
            match r {
                Ok(msgs) => ({
                    let admin = member_is_admin(self@.users, userid@);
                    &&& stoken_valid
                    &&& msgs.deep_view() == self@.messages.filter(
                        |m: MessageView| m.id > id && visible_msg(self@.rooms, admin, m),
                    )
                }),
                Err(e) => e == ErrorCode::Unauthorized && !stoken_valid,
            },
    {
        if !stoken_valid {
            return Err(ErrorCode::Unauthorized);
        }
        let admin = self.internal_is_user_admin(userid);
        let ghost pred = |m: MessageView| m.id > id && visible_msg(
            self@.rooms,
            member_is_admin(self@.users, userid@),
            m,
        );
        let mut out: Vec<Message> = Vec::new();
        proof {
            reveal(Seq::filter);
            assert(out.deep_view() =~= self@.messages.take(0).filter(pred));
        }
        let mut i: usize = 0;
        while i < self.messages.len()
            invariant
                i <= self@.messages.len(),
                self@.messages.len() == self.messages@.len(),
                self@.wf(),
                admin == member_is_admin(self@.users, userid@),
                pred == (|m: MessageView| m.id > id && visible_msg(
                    self@.rooms,
                    member_is_admin(self@.users, userid@),
                    m,
                )),
                out.deep_view() == self@.messages.take(i as int).filter(pred),
            decreases self.messages@.len() - i,
        {
            let ghost pre = out.deep_view();
            let keep = self.messages[i].id > id && self.room_exists(self.messages[i].room.id) && (
            admin || !self.messages[i].room.admin_only_view);
            if keep {
                out.push(self.messages[i].clone());
                proof {
                    assert(out.deep_view() =~= pre.push(self@.messages[i as int]));
                }
            }
            proof {
                lemma_filter_push(
                    self@.messages.take(i as int),
                    pred,
                    self@.messages[i as int],
                );
                assert(self@.messages.take(i as int).push(self@.messages[i as int])
                    =~= self@.messages.take(i as int + 1));
            }
            i = i + 1;
        }
        proof {
            assert(self@.messages.take(self@.messages.len() as int) =~= self@.messages);
        }
        Ok(out)
    }

    /// The visible direct replies to a head message, in id order.
    fn direct_replies_exec(&self, admin: bool, head_id: i64) -> (r: Vec<Message>)
        requires
            self@.wf(),
        ensures
            r.deep_view() == direct_replies(self@, admin, head_id as int),
    {
        let ghost pred = |m: MessageView| m.data.references() == Some(head_id as int)
            && visible_msg(self@.rooms, admin, m);
        let mut out: Vec<Message> = Vec::new();
        proof {
            reveal(Seq::filter);
            assert(out.deep_view() =~= self@.messages.take(0).filter(pred));
        }
        let mut i: usize = 0;
        while i < self.messages.len()
            invariant
                i <= self@.messages.len(),
                self@.messages.len() == self.messages@.len(),
                self@.wf(),
                pred == (|m: MessageView| m.data.references() == Some(head_id as int)
                    && visible_msg(self@.rooms, admin, m)),
                out.deep_view() == self@.messages.take(i as int).filter(pred),
            decreases self.messages@.len() - i,
        {
            let ghost pre = out.deep_view();
            let references_head = match Self::references_of(&self.messages[i].data) {
                Some(rid) => rid == head_id,
                None => false,
            };
            let keep = references_head && self.room_exists(self.messages[i].room.id) && (admin
                || !self.messages[i].room.admin_only_view);
            if keep {
                out.push(self.messages[i].clone());
                proof {
                    assert(out.deep_view() =~= pre.push(self@.messages[i as int]));
                }
            }
            proof {
                lemma_filter_push(
                    self@.messages.take(i as int),
                    pred,
                    self@.messages[i as int],
                );
                assert(self@.messages.take(i as int).push(self@.messages[i as int])
                    =~= self@.messages.take(i as int + 1));
            }
            i = i + 1;
        }
        proof {
            assert(self@.messages.take(self@.messages.len() as int) =~= self@.messages);
        }
        out
    }

    /// The visible direct replies to a head message, for a validated caller.
    pub fn get_all_direct_replies(&self, stoken_valid: bool, userid: &str, head: i64) -> (r: Result<
        Vec<Message>,
        ErrorCode,
    >)
        requires
            self@.wf(),
        ensures
            match r {
                Ok(msgs) => stoken_valid && msgs.deep_view() == direct_replies(
                    self@,
                    member_is_admin(self@.users, userid@),
                    head as int,
                ),
                Err(e) => e == ErrorCode::Unauthorized && !stoken_valid,
            },
    {
        if !stoken_valid {
            return Err(ErrorCode::Unauthorized);
        }
        let admin = self.internal_is_user_admin(userid);
        Ok(self.direct_replies_exec(admin, head))
    }

    /// The reply tree below a head, descending at most `depth` levels and
    /// never more than eight.
    pub fn get_reply_chain(&self, stoken_valid: bool, userid: &str, head: Message, depth: u8) -> (r:
        Result<ReplyChain, ErrorCode>)
        requires
            self@.wf(),
        ensures
            match r {
                Ok(chain) => stoken_valid && depth <= 8 && chain_view(chain) == chain_spec(
                    self@,
                    member_is_admin(self@.users, userid@),
                    head@,
                    depth as int,
                ),
                Err(e) => if !stoken_valid {
                    e == ErrorCode::Unauthorized
                } else {
                    e == ErrorCode::DepthTooLarge && depth > 8
                },
            },
    {
        if !stoken_valid {
            return Err(ErrorCode::Unauthorized);
        }
        if depth > 8 {
            return Err(ErrorCode::DepthTooLarge);
        }
        let admin = self.internal_is_user_admin(userid);
        Ok(self.build_chain(admin, head, depth))
    }

    /// Builds the reply tree below a head with `depth` levels left to spend.
    fn build_chain(&self, admin: bool, head: Message, depth: u8) -> (r: ReplyChain)
        requires
            self@.wf(),
        ensures
            chain_view(r) == chain_spec(self@, admin, head@, depth as int),
        decreases depth, 1int,
    {
        let replies = self.direct_replies_exec(admin, head.id);
        if depth == 0 || replies.len() == 0 {
            let leaf = ReplyChain { message: head, replies: None };
            proof {
                assert(chain_view(leaf) =~~= chain_spec(self@, admin, head@, depth as int));
            }
            leaf
        } else {
            let ghost reply_views = direct_replies(self@, admin, head@.id);
            let chains = self.build_children(admin, &replies, depth);
            let out = ReplyChain { message: head, replies: Some(chains) };
            proof {
                let built = chain_view(out);
                let want = chain_spec(self@, admin, head@, depth as int);
                assert(built.replies->Some_0 =~= want.replies->Some_0);
                assert(built =~~= want);
            }
            out
        }
    }

    /// Builds one subtree per direct reply, each with one level less to
    /// spend.
    fn build_children(&self, admin: bool, replies: &Vec<Message>, depth: u8) -> (r: Vec<ReplyChain>)
        requires
            self@.wf(),
            1 <= depth,
        ensures
            r@.len() == replies@.len(),
            forall|k: int|
                0 <= k < r@.len() ==> chain_view(#[trigger] r@[k]) == chain_spec(
                    self@,
                    admin,
                    replies.deep_view()[k],
                    depth as int - 1,
                ),
        decreases depth, 0int,
    {
        let mut chains: Vec<ReplyChain> = Vec::new();
        let mut i: usize = 0;
        while i < replies.len()
            invariant
                i <= replies@.len(),
                self@.wf(),
                1 <= depth,
                chains@.len() == i,
                forall|k: int|
                    0 <= k < i ==> chain_view(#[trigger] chains@[k]) == chain_spec(
                        self@,
                        admin,
                        replies.deep_view()[k],
                        depth as int - 1,
                    ),
            decreases replies@.len() - i,
        {
            let reply = replies[i].clone();
            let sub = self.build_chain(admin, reply, depth - 1);
            chains.push(sub);
            i = i + 1;
        }
        chains
    }

    /// An admin creates a room; a second room under the same name is
    /// refused. Emits a new-room event.
    pub fn create_room(&mut self, stoken_valid: bool, userid: &str, room: Room) -> (r: Result<
        Room,
        ErrorCode,
    >)
        requires
            old(self)@.wf(),
            old(self).next_room_id < i64::MAX,
            old(self)@.events.len() < 0xffff_ffff,
        ensures
            final(self)@.wf(),
            match r {
                Ok(out) => {
                    &&& stoken_valid
                    &&& member_is_admin(old(self)@.users, userid@)
                    &&& !roomid_taken(old(self)@.rooms, room@.roomid)
                    &&& out@ == canonical_room(old(self)@, room@)
                    &&& final(self)@ == (ChatServerView {
                        rooms: old(self)@.rooms.push(canonical_room(old(self)@, room@)),
                        next_room_id: old(self)@.next_room_id + 1,
                        events: old(self)@.events.push(
                            next_event(
                                old(self)@.events,
                                EventView::NewRoom { room: canonical_room(old(self)@, room@) },
                            ),
                        ),
                        ..old(self)@
                    })
                },
                Err(e) => final(self)@ == old(self)@ && (if !stoken_valid {
                    e == ErrorCode::Unauthorized
                } else if !member_is_admin(old(self)@.users, userid@) {
                    e == ErrorCode::Unauthorized
                } else {
                    e == ErrorCode::MalformedDBResponse && roomid_taken(
                        old(self)@.rooms,
                        room@.roomid,
                    )
                }),
            },
    {
        if !stoken_valid {
            return Err(ErrorCode::Unauthorized);
        }
        if !self.internal_is_user_admin(userid) {
            return Err(ErrorCode::Unauthorized);
        }
        match self.find_room(room.roomid.as_str()) {
            Some(_) => {
                proof {
                    assert(roomid_taken(self@.rooms, room@.roomid));
                }
                return Err(ErrorCode::MalformedDBResponse);
            },
            None => {},
        }
        let canonical = Room {
            id: self.next_room_id,
            roomid: room.roomid,
            admin_only_send: room.admin_only_send,
            admin_only_view: room.admin_only_view,
        };
        let out = canonical.clone();
        proof {
            assert(canonical@ == canonical_room(old(self)@, room@));
        }
        self.next_room_id = self.next_room_id + 1;
        self.rooms.push(canonical);
        let ghost s1 = self@;
        proof {
            assert(s1 =~= (ChatServerView {
                rooms: old(self)@.rooms.push(canonical_room(old(self)@, room@)),
                next_room_id: old(self)@.next_room_id + 1,
                ..old(self)@
            }));
        }
        self.push_event(Event::NewRoom(out.clone()));
        proof {
            assert(self@ =~~= (ChatServerView {
                rooms: old(self)@.rooms.push(canonical_room(old(self)@, room@)),
                next_room_id: old(self)@.next_room_id + 1,
                events: old(self)@.events.push(
                    next_event(
                        old(self)@.events,
                        EventView::NewRoom { room: canonical_room(old(self)@, room@) },
                    ),
                ),
                ..old(self)@
            }));
        }
        Ok(out)
    }

    /// An admin deletes a room; messages that referred to it stay stored but
    /// are no longer served. Emits a delete-room event.
    pub fn delete_room(&mut self, stoken_valid: bool, userid: &str, roomid: &str) -> (r: Result<
        (),
        ErrorCode,
    >)
        requires
            old(self)@.wf(),
            old(self)@.events.len() < 0xffff_ffff,
        ensures
            final(self)@.wf(),
            match r {
                Ok(_) => {
                    &&& stoken_valid
                    &&& member_is_admin(old(self)@.users, userid@)
                    &&& roomid_taken(old(self)@.rooms, roomid@)
                    &&& final(self)@ == (ChatServerView {
                        rooms: old(self)@.rooms.remove(room_at(old(self)@.rooms, roomid@)),
                        events: old(self)@.events.push(
                            next_event(
                                old(self)@.events,
                                EventView::DeleteRoom { roomid: roomid@ },
                            ),
                        ),
                        ..old(self)@
                    })
                },
                Err(e) => final(self)@ == old(self)@ && (if !stoken_valid {
                    e == ErrorCode::Unauthorized
                } else if !member_is_admin(old(self)@.users, userid@) {
                    e == ErrorCode::Unauthorized
                } else {
                    e == ErrorCode::RoomNotFound && !roomid_taken(old(self)@.rooms, roomid@)
                }),
            },
    {
        if !stoken_valid {
            return Err(ErrorCode::Unauthorized);
        }
        if !self.internal_is_user_admin(userid) {
            return Err(ErrorCode::Unauthorized);
        }
        let idx = match self.find_room(roomid) {
            Some(j) => j,
            None => {
                return Err(ErrorCode::RoomNotFound);
            },
        };
        proof {
            lemma_room_at(self@.rooms, roomid@, idx as int);
        }
        let _removed = self.rooms.remove(idx);
        let ghost s1 = self@;
        proof {
            assert(s1 =~= (ChatServerView {
                rooms: old(self)@.rooms.remove(idx as int),
                ..old(self)@
            }));
            lemma_wf_remove_room(old(self)@, idx as int);
        }
        self.push_event(Event::DeleteRoom(roomid.to_owned()));
        proof {
            assert(self@ =~~= (ChatServerView {
                rooms: old(self)@.rooms.remove(idx as int),
                events: old(self)@.events.push(
                    next_event(old(self)@.events, EventView::DeleteRoom { roomid: roomid@ }),
                ),
                ..old(self)@
            }));
        }
        Ok(())
    }

    /// The index of a typing entry, if present.
    fn find_typing(&self, userid: &str, roomid: &str) -> (r: Option<usize>)
        ensures
            match r {
                Some(j) => j < self@.typing_users.len() && self@.typing_users[j as int] == (
                    userid@,
                    roomid@,
                ),
                None => !self@.typing_users.contains((userid@, roomid@)),
            },
    {
        let mut j: usize = 0;
        while j < self.typing_users.len()
            invariant
                j <= self@.typing_users.len(),
                self@.typing_users.len() == self.typing_users@.len(),
                forall|k: int|
                    0 <= k < j ==> #[trigger] self@.typing_users[k] != (userid@, roomid@),
            decreases self.typing_users@.len() - j,
        {
            if str_eq(self.typing_users[j].0.as_str(), userid) && str_eq(
                self.typing_users[j].1.as_str(),
                roomid,
            ) {
                proof {
                    assert(self@.typing_users[j as int] == (userid@, roomid@));
                }
                return Some(j);
            }
            j = j + 1;
        }
        None
    }

    /// Marks a validated caller as typing in a room: a transient,
    /// best-effort signal with no bearing on the stored state.
    pub fn start_typing(&mut self, stoken_valid: bool, userid: &str, roomid: &str) -> (r: Result<
        (),
        ErrorCode,
    >)
        requires
            old(self)@.wf(),
        ensures
            final(self)@.wf(),
            match r {
                Ok(_) => stoken_valid && final(self)@ == (ChatServerView {
                    typing_users: if old(self)@.typing_users.contains((userid@, roomid@)) {
                        old(self)@.typing_users
                    } else {
                        old(self)@.typing_users.push((userid@, roomid@))
                    },
                    ..old(self)@
                }),
                Err(e) => e == ErrorCode::Unauthorized && !stoken_valid && final(self)@ == old(
                    self,
                )@,
            },
    {
        if !stoken_valid {
            return Err(ErrorCode::Unauthorized);
        }
        match self.find_typing(userid, roomid) {
            Some(_) => {
                proof {
                    assert(old(self)@.typing_users.contains((userid@, roomid@)));
                }
                Ok(())
            },
            None => {
                self.typing_users.push((userid.to_owned(), roomid.to_owned()));
                proof {
                    assert(self@.typing_users =~= old(self)@.typing_users.push(
                        (userid@, roomid@),
                    ));
                    assert(self@ =~~= (ChatServerView {
                        typing_users: old(self)@.typing_users.push((userid@, roomid@)),
                        ..old(self)@
                    }));
                }
                Ok(())
            },
        }
    }

    /// Renews a validated caller's typing signal; absent, it reappears.
    pub fn keep_typing(&mut self, stoken_valid: bool, userid: &str, roomid: &str) -> (r: Result<
        (),
        ErrorCode,
    >)
        requires
            old(self)@.wf(),
        ensures
            final(self)@.wf(),
            match r {
                Ok(_) => stoken_valid && final(self)@ == (ChatServerView {
                    typing_users: if old(self)@.typing_users.contains((userid@, roomid@)) {
                        old(self)@.typing_users
                    } else {
                        old(self)@.typing_users.push((userid@, roomid@))
                    },
                    ..old(self)@
                }),
                Err(e) => e == ErrorCode::Unauthorized && !stoken_valid && final(self)@ == old(
                    self,
                )@,
            },
    {
        self.start_typing(stoken_valid, userid, roomid)
    }

    /// Withdraws a validated caller's typing signal, if present.
    pub fn stop_typing(&mut self, stoken_valid: bool, userid: &str, roomid: &str) -> (r: Result<
        (),
        ErrorCode,
    >)
        requires
            old(self)@.wf(),
        ensures
            final(self)@.wf(),
            match r {
                Ok(_) => stoken_valid && final(self)@ == (ChatServerView {
                    typing_users: if old(self)@.typing_users.contains((userid@, roomid@)) {
                        old(self)@.typing_users.remove(
                            old(self)@.typing_users.index_of((userid@, roomid@)),
                        )
                    } else {
                        old(self)@.typing_users
                    },
                    ..old(self)@
                }),
                Err(e) => e == ErrorCode::Unauthorized && !stoken_valid && final(self)@ == old(
                    self,
                )@,
            },
    {
        if !stoken_valid {
            return Err(ErrorCode::Unauthorized);
        }
        match self.find_typing(userid, roomid) {
            Some(j) => {
                proof {
                    crate::auth::lemma_distinct_index_of(
                        self@.typing_users,
                        (userid@, roomid@),
                        j as int,
                    );
                }
                let _removed = self.typing_users.remove(j);
                proof {
                    crate::auth::lemma_distinct_remove(old(self)@.typing_users, j as int);
                    assert(self@.typing_users =~= old(self)@.typing_users.remove(j as int));
                    assert(self@ =~~= (ChatServerView {
                        typing_users: old(self)@.typing_users.remove(
                            old(self)@.typing_users.index_of((userid@, roomid@)),
                        ),
                        ..old(self)@
                    }));
                }
                Ok(())
            },
            None => {
                proof {
                    assert(self@ =~~= (ChatServerView {
                        typing_users: old(self)@.typing_users,
                        ..old(self)@
                    }));
                }
                Ok(())
            },
        }
    }
}

/// The views of a polled batch of events.
pub open spec fn events_view(s: Seq<(u32, Event)>) -> Seq<(u32, EventView)> {
    Seq::new(s.len(), |i: int| (s[i].0, s[i].1@))
}

} // verus!
