use vstd::prelude::*;

verus! {

/// What a chat server tells any caller about itself.
#[derive(Debug)]
pub struct ServerInfo {
    pub server_id: String,
}

/// A user's representation within one chat server: a member, with a role.
/// Exactly one member owns the server while it has members and the owner
/// never left; owners are always admins.
#[derive(Debug)]
pub struct User {
    pub id: i64,
    pub userid: String,
    pub name: String,
    pub owner: bool,
    pub admin: bool,
}

/// The mathematical shape of a member.
#[verifier::ext_equal]
pub ghost struct UserView {
    pub id: int,
    pub userid: Seq<char>,
    pub name: Seq<char>,
    pub owner: bool,
    pub admin: bool,
}

impl View for User {
    type V = UserView;

    open spec fn view(&self) -> UserView {
        UserView {
            id: self.id as int,
            userid: self.userid@,
            name: self.name@,
            owner: self.owner,
            admin: self.admin,
        }
    }
}

impl DeepView for User {
    type V = UserView;

    open spec fn deep_view(&self) -> UserView {
        self@
    }
}

/// A message container within a chat server, optionally admin-gated for
/// sending and/or for being seen at all.
#[derive(Debug)]
pub struct Room {
    pub id: i64,
    pub roomid: String,
    pub admin_only_send: bool,
    pub admin_only_view: bool,
}

/// The mathematical shape of a room.
#[verifier::ext_equal]
pub ghost struct RoomView {
    pub id: int,
    pub roomid: Seq<char>,
    pub admin_only_send: bool,
    pub admin_only_view: bool,
}

impl View for Room {
    type V = RoomView;

    open spec fn view(&self) -> RoomView {
        RoomView {
            id: self.id as int,
            roomid: self.roomid@,
            admin_only_send: self.admin_only_send,
            admin_only_view: self.admin_only_view,
        }
    }
}

impl DeepView for Room {
    type V = RoomView;

    open spec fn deep_view(&self) -> RoomView {
        self@
    }
}

/// Reserved for file attachments; carries nothing yet.
#[derive(Debug)]
pub struct Attachment {}

/// A reply to an earlier message.
#[derive(Debug)]
pub struct Reply {
    pub referencing_id: i64,
    pub text: String,
}

/// A revision of an earlier message; only its own sender may edit it.
#[derive(Debug)]
pub struct Edit {
    pub referencing_id: i64,
    pub text: String,
}

/// An emoji reaction to an earlier message.
#[derive(Debug)]
pub struct Reaction {
    pub referencing_id: i64,
    pub emoji: String,
}

/// A record that hides an earlier message on render without erasing it; only
/// an admin who also sent the original may redact it.
#[derive(Debug)]
pub struct Redaction {
    pub referencing_id: i64,
}

/// The typed message payload: a tagged algebra, never modelled with
/// inheritance.
#[derive(Debug)]
pub enum MessageData {
    Text(String),
    Attachment(Attachment),
    Reply(Reply),
    Edit(Edit),
    Reaction(Reaction),
    Redaction(Redaction),
}

/// The mathematical shape of a payload.
#[verifier::ext_equal]
pub ghost enum MessageDataView {
    Text { text: Seq<char> },
    Attachment,
    Reply { referencing_id: int, text: Seq<char> },
    Edit { referencing_id: int, text: Seq<char> },
    Reaction { referencing_id: int, emoji: Seq<char> },
    Redaction { referencing_id: int },
}

impl View for MessageData {
    type V = MessageDataView;

    open spec fn view(&self) -> MessageDataView {
        match self {
            MessageData::Text(t) => MessageDataView::Text { text: t@ },
            MessageData::Attachment(_) => MessageDataView::Attachment,
            MessageData::Reply(r) => MessageDataView::Reply {
                referencing_id: r.referencing_id as int,
                text: r.text@,
            },
            MessageData::Edit(e) => MessageDataView::Edit {
                referencing_id: e.referencing_id as int,
                text: e.text@,
            },
            MessageData::Reaction(r) => MessageDataView::Reaction {
                referencing_id: r.referencing_id as int,
                emoji: r.emoji@,
            },
            MessageData::Redaction(r) => MessageDataView::Redaction {
                referencing_id: r.referencing_id as int,
            },
        }
    }
}

impl MessageDataView {
    /// The earlier message this payload points at, if it points at one.
    pub open spec fn references(self) -> Option<int> {
        match self {
            MessageDataView::Text { .. } => None,
            MessageDataView::Attachment => None,
            MessageDataView::Reply { referencing_id, .. } => Some(referencing_id),
            MessageDataView::Edit { referencing_id, .. } => Some(referencing_id),
            MessageDataView::Reaction { referencing_id, .. } => Some(referencing_id),
            MessageDataView::Redaction { referencing_id } => Some(referencing_id),
        }
    }
}

/// A stored message: the server-assigned id and instant, snapshots of the
/// sender and the room taken at insert, and the payload. Immutable once
/// inserted; never deleted.
#[derive(Debug)]
pub struct Message {
    pub id: i64,
    pub timestamp: i64,
    pub user: User,
    pub room: Room,
    pub data: MessageData,
}

/// The mathematical shape of a message.
#[verifier::ext_equal]
pub ghost struct MessageView {
    pub id: int,
    pub timestamp: int,
    pub user: UserView,
    pub room: RoomView,
    pub data: MessageDataView,
}

impl View for Message {
    type V = MessageView;

    open spec fn view(&self) -> MessageView {
        MessageView {
            id: self.id as int,
            timestamp: self.timestamp as int,
            user: self.user@,
            room: self.room@,
            data: self.data@,
        }
    }
}

impl DeepView for Message {
    type V = MessageView;

    open spec fn deep_view(&self) -> MessageView {
        self@
    }
}

/// The tree of messages reachable by following references from a head
/// message; leaves with no direct replies carry `None`.
#[derive(Debug)]
pub struct ReplyChain {
    pub message: Message,
    pub replies: Option<Vec<ReplyChain>>,
}

/// The mathematical shape of a reply chain.
#[verifier::ext_equal]
pub ghost struct ReplyChainView {
    pub message: MessageView,
    pub replies: Option<Seq<ReplyChainView>>,
}

/// One entry of the totally ordered event stream a chat server publishes to
/// its polling clients.
#[derive(Debug)]
pub enum Event {
    NewMessage(Message),
    NewRoom(Room),
    DeleteRoom(String),
    UserJoined(User),
    UserLeft(User),
    Promoted(String),
    Demoted(String),
    Kicked(String),
    Banned(String),
}

/// The mathematical shape of an event.
#[verifier::ext_equal]
pub ghost enum EventView {
    NewMessage { message: MessageView },
    NewRoom { room: RoomView },
    DeleteRoom { roomid: Seq<char> },
    UserJoined { user: UserView },
    UserLeft { user: UserView },
    Promoted { userid: Seq<char> },
    Demoted { userid: Seq<char> },
    Kicked { userid: Seq<char> },
    Banned { userid: Seq<char> },
}

impl View for Event {
    type V = EventView;

    open spec fn view(&self) -> EventView {
        match self {
            Event::NewMessage(m) => EventView::NewMessage { message: m@ },
            Event::NewRoom(r) => EventView::NewRoom { room: r@ },
            Event::DeleteRoom(roomid) => EventView::DeleteRoom { roomid: roomid@ },
            Event::UserJoined(u) => EventView::UserJoined { user: u@ },
            Event::UserLeft(u) => EventView::UserLeft { user: u@ },
            Event::Promoted(userid) => EventView::Promoted { userid: userid@ },
            Event::Demoted(userid) => EventView::Demoted { userid: userid@ },
            Event::Kicked(userid) => EventView::Kicked { userid: userid@ },
            Event::Banned(userid) => EventView::Banned { userid: userid@ },
        }
    }
}

impl Clone for User {
    fn clone(&self) -> (res: Self)
        ensures
            res == *self,
    {
        User {
            id: self.id,
            userid: self.userid.clone(),
            name: self.name.clone(),
            owner: self.owner,
            admin: self.admin,
        }
    }
}

impl Clone for Room {
    fn clone(&self) -> (res: Self)
        ensures
            res == *self,
    {
        Room {
            id: self.id,
            roomid: self.roomid.clone(),
            admin_only_send: self.admin_only_send,
            admin_only_view: self.admin_only_view,
        }
    }
}

impl Clone for MessageData {
    fn clone(&self) -> (res: Self)
        ensures
            res == *self,
    {
        match self {
            MessageData::Text(t) => MessageData::Text(t.clone()),
            MessageData::Attachment(_) => MessageData::Attachment(Attachment {  }),
            MessageData::Reply(r) => MessageData::Reply(
                Reply { referencing_id: r.referencing_id, text: r.text.clone() },
            ),
            MessageData::Edit(e) => MessageData::Edit(
                Edit { referencing_id: e.referencing_id, text: e.text.clone() },
            ),
            MessageData::Reaction(r) => MessageData::Reaction(
                Reaction { referencing_id: r.referencing_id, emoji: r.emoji.clone() },
            ),
            MessageData::Redaction(r) => MessageData::Redaction(
                Redaction { referencing_id: r.referencing_id },
            ),
        }
    }
}

impl Clone for Message {
    fn clone(&self) -> (res: Self)
        ensures
            res == *self,
    {
        Message {
            id: self.id,
            timestamp: self.timestamp,
            user: self.user.clone(),
            room: self.room.clone(),
            data: self.data.clone(),
        }
    }
}

impl Clone for Event {
    fn clone(&self) -> (res: Self)
        ensures
            res == *self,
    {
        match self {
            Event::NewMessage(m) => Event::NewMessage(m.clone()),
            Event::NewRoom(r) => Event::NewRoom(r.clone()),
            Event::DeleteRoom(roomid) => Event::DeleteRoom(roomid.clone()),
            Event::UserJoined(u) => Event::UserJoined(u.clone()),
            Event::UserLeft(u) => Event::UserLeft(u.clone()),
            Event::Promoted(userid) => Event::Promoted(userid.clone()),
            Event::Demoted(userid) => Event::Demoted(userid.clone()),
            Event::Kicked(userid) => Event::Kicked(userid.clone()),
            Event::Banned(userid) => Event::Banned(userid.clone()),
        }
    }
}

} // verus!
