use vstd::prelude::*;

use crate::auth::{
    create_account_err, create_account_post, user_at, username_taken, validates_stoken,
    AuthServerView,
};
use crate::chat::{
    canonical_msg, chain_spec, direct_replies, join_member, member_at, owner_count, room_at,
    send_err, send_post, visible_msg, ChatServerView,
};
use crate::chat_types::{MessageDataView, MessageView, ReplyChainView, UserView};
use crate::crypto::stoken_of;
use crate::errors::ErrorCode;

verus! {

/// Username uniqueness: of two account creations under one username, at
/// most one succeeds — once the first has gone through, the second is
/// refused as taken, whatever email it brings.
pub proof fn lemma_username_uniqueness(
    s: AuthServerView,
    username: Seq<char>,
    email: Seq<char>,
    code: u32,
    email2: Seq<char>,
)
    requires
        s.wf(),
        create_account_err(s, username, email) is None,
    ensures
        create_account_err(create_account_post(s, username, email, code), username, email2)
            == Some(ErrorCode::UsernameTaken),
{
    let s2 = create_account_post(s, username, email, code);
    assert(s2.users[s.users.len() as int].username == username);
    assert(username_taken(s2.users, username));
}

/// Token scoping, the direction proof can reach: a capability derived from
/// a bearer in the user's active set validates for exactly the target it
/// was derived for. The converse — that a validating capability names a
/// bearer in the set — is the exact `exists` that `server_token_validation`
/// ensures; collapsing it to one bearer would assume the hash is
/// collision-free.
pub proof fn lemma_token_scoping(
    s: AuthServerView,
    username: Seq<char>,
    token: Seq<char>,
    server_id: Seq<char>,
    domain: Seq<char>,
    port: u16,
)
    requires
        s.wf(),
        username_taken(s.users, username),
        s.users[user_at(s.users, username)].tokens.contains(token),
    ensures
        validates_stoken(
            s.users[user_at(s.users, username)].tokens,
            stoken_of(token, server_id, domain, port),
            server_id,
            domain,
            port,
        ),
{
    let toks = s.users[user_at(s.users, username)].tokens;
    let i = choose|i: int| 0 <= i < toks.len() && toks[i] == token;
    assert(stoken_of(toks[i], server_id, domain, port) == stoken_of(
        token,
        server_id,
        domain,
        port,
    ));
}

/// Redaction authority: a redaction the store accepts references a stored
/// message sent by the redaction's own sender, and that sender is an admin
/// at the time of insert.
pub proof fn lemma_redaction_authority(s: ChatServerView, m: MessageView)
    requires
        s.wf(),
        send_err(s, m) is None,
        m.data matches MessageDataView::Redaction { .. },
    ensures
        ({
            let sender = s.users[member_at(s.users, m.user.userid)];
            let rid = m.data.references()->Some_0;
            &&& 1 <= rid <= s.messages.len()
            &&& s.messages[rid - 1].user.userid == sender.userid
            &&& sender.admin
        }),
{
}

/// Event index monotonicity and density: the batch served for a watermark
/// within the log carries exactly the consecutive indexes that continue it,
/// so indexes are strictly increasing with no gaps.
pub proof fn lemma_event_density(s: ChatServerView, index: u32)
    requires
        s.wf(),
        index as int <= s.events.len(),
    ensures
        forall|k: int|
            0 <= k < s.events.skip(index as int).len() ==> (#[trigger] s.events.skip(
                index as int,
            )[k]).0 as int == index + k + 1,
{
    assert forall|k: int| 0 <= k < s.events.skip(index as int).len() implies (
    #[trigger] s.events.skip(index as int)[k]).0 as int == index + k + 1 by {
        assert(s.events.skip(index as int)[k] == s.events[index + k]);
    }
}

/// A duplicate-free owner flag: with no two members owning at once, the
/// owner count is zero or one, and zero exactly when no member owns.
pub proof fn lemma_owner_count_at_most_one(users: Seq<UserView>)
    requires
        forall|i: int, j: int|
            0 <= i < j < users.len() ==> !((#[trigger] users[i]).owner && (
            #[trigger] users[j]).owner),
    ensures
        0 <= owner_count(users) <= 1,
        owner_count(users) == 0 <==> (forall|i: int|
            0 <= i < users.len() ==> !(#[trigger] users[i]).owner),
    decreases users.len(),
{
    if users.len() > 0 {
        let prefix = users.drop_last();
        lemma_owner_count_at_most_one(prefix);
        if users.last().owner {
            assert forall|i: int| 0 <= i < prefix.len() implies !(#[trigger] prefix[i]).owner by {
                assert(!(users[i].owner && users[users.len() - 1].owner));
            }
            assert(owner_count(prefix) == 0);
        }
        if owner_count(users) == 0 {
            assert forall|i: int| 0 <= i < users.len() implies !(#[trigger] users[i]).owner by {
                if i < users.len() - 1 {
                    assert(!prefix[i].owner);
                }
            }
        }
    }
}

/// Owner uniqueness: a well-formed chat server never has more than one
/// owner among its members.
pub proof fn lemma_owner_unique(s: ChatServerView)
    requires
        s.wf(),
    ensures
        owner_count(s.users) <= 1,
{
    lemma_owner_count_at_most_one(s.users);
}

/// Whenever some member owns the server, the owner count is exactly one.
pub proof fn lemma_owner_present(users: Seq<UserView>, i: int)
    requires
        forall|p: int, q: int|
            0 <= p < q < users.len() ==> !((#[trigger] users[p]).owner && (
            #[trigger] users[q]).owner),
        0 <= i < users.len(),
        users[i].owner,
    ensures
        owner_count(users) == 1,
{
    lemma_owner_count_at_most_one(users);
    if owner_count(users) == 0 {
        assert(!users[i].owner);
    }
}

/// The first joiner owns: admission into an empty server mints a member who
/// is owner and admin, and leaves the server with exactly one owner. (Once
/// the owner leaves or is removed, the member set can be non-empty with no
/// owner: no ownership transfer is defined.)
pub proof fn lemma_first_joiner_owns(s: ChatServerView, userid: Seq<char>)
    requires
        s.wf(),
        s.users.len() == 0,
    ensures
        join_member(s, userid).owner,
        join_member(s, userid).admin,
        owner_count(s.users.push(join_member(s, userid))) == 1,
{
    let joined = s.users.push(join_member(s, userid));
    assert(joined.drop_last() =~= s.users);
    assert(owner_count(s.users) == 0);
}

/// Admin-only-view filtering: what a non-admin is served past any watermark
/// never contains a message of a room marked admin-only-view.
pub proof fn lemma_admin_only_view_filtering(s: ChatServerView, watermark: int, k: int)
    requires
        0 <= k < s.messages.filter(
            |m: MessageView| m.id > watermark && visible_msg(s.rooms, false, m),
        ).len(),
    ensures
        !s.messages.filter(|m: MessageView| m.id > watermark && visible_msg(s.rooms, false, m))[k].room.admin_only_view,
{
    let pred = |m: MessageView| m.id > watermark && visible_msg(s.rooms, false, m);
    s.messages.lemma_filter_pred(pred, k);
}

/// Round trip: a message the store accepts is fetchable under its assigned
/// id by any caller its room is visible to, and comes back exactly as
/// stored — the sender's payload under the server-assigned id and instant
/// and the canonicalized sender and room.
pub proof fn lemma_send_get_round_trip(s: ChatServerView, m: MessageView, now: int, admin: bool)
    requires
        s.wf(),
        send_err(s, m) is None,
        admin || !s.rooms[room_at(s.rooms, m.room.roomid)].admin_only_view,
    ensures
        ({
            let s2 = send_post(s, m, now);
            let out = canonical_msg(s, m, now);
            &&& out.id == s.messages.len() + 1
            &&& 1 <= out.id <= s2.messages.len()
            &&& s2.messages[out.id - 1] == out
            &&& visible_msg(s2.rooms, admin, s2.messages[out.id - 1])
            &&& out.data == m.data
            &&& out.timestamp == now
        }),
{
    let s2 = send_post(s, m, now);
    let out = canonical_msg(s, m, now);
    assert(s2.messages[out.id - 1] == out);
    let j = room_at(s.rooms, m.room.roomid);
    assert(s2.rooms[j].id == out.room.id);
}

/// The reply tree never outgrows its budget: every path from the head of a
/// chain built with `depth` levels to spend visits at most `depth + 1`
/// nodes; the fetch operation caps `depth` at eight.
pub open spec fn height_at_most(c: ReplyChainView, h: int) -> bool
    decreases h,
{
    if h <= 0 {
        false
    } else {
        match c.replies {
            None => true,
            Some(rs) => forall|i: int| 0 <= i < rs.len() ==> height_at_most(#[trigger] rs[i], h - 1),
        }
    }
}

/// Reply-chain depth: the tree a fetch builds descends no further than the
/// requested depth, itself at most eight.
pub proof fn lemma_reply_chain_depth(
    s: ChatServerView,
    admin: bool,
    head: MessageView,
    depth: int,
)
    requires
        0 <= depth,
    ensures
        height_at_most(chain_spec(s, admin, head, depth), depth + 1),
    decreases depth,
{
    let c = chain_spec(s, admin, head, depth);
    let replies = direct_replies(s, admin, head.id);
    if depth > 0 && replies.len() > 0 {
        assert forall|i: int| 0 <= i < replies.len() implies height_at_most(
            #[trigger] c.replies->Some_0[i],
            depth,
        ) by {
            lemma_reply_chain_depth(s, admin, replies[i], depth - 1);
        }
    }
}

} // verus!
