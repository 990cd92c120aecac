//! Core of a federated chat system: an identity service that mints
//! per-session bearer tokens and records joined chat servers, a chat
//! service with a typed message algebra and an append-only event log,
//! and the server-scoped capability tokens that bind the two.

mod auth;
mod cap;
mod chat;
mod chat_types;
mod client;
mod crypto;
mod errors;
mod laws;
mod text;

pub use client::CUser;
pub use laws::{
    height_at_most, lemma_admin_only_view_filtering, lemma_event_density, lemma_first_joiner_owns,
    lemma_owner_count_at_most_one, lemma_owner_present, lemma_owner_unique, lemma_redaction_authority,
    lemma_reply_chain_depth, lemma_send_get_round_trip, lemma_token_scoping,
    lemma_username_uniqueness,
};

pub use chat::{
    events_view, is_member, member_at, member_is_admin, member_is_owner, owner_count, room_at,
    room_with_id, roomid_taken, visible_msg, ChatServerView, RealmChatServer,
};
pub use cap::{
    entry_live, AUTH_PORT, has_live_entry, live_entry_at, CapCache, CapCheck, CapEntry, CapEntryView,
    CACHE_CAPACITY, CACHE_IDLE_SECONDS, CACHE_LIFE_SECONDS,
};
pub use chat_types::{
    Attachment, Edit, Event, EventView, Message, MessageData, MessageDataView, MessageView,
    Reaction, Redaction, Reply, ReplyChain, ReplyChainView, Room, RoomView, ServerInfo, User,
    UserView,
};

pub use auth::{
    email_taken, user_at, username_taken, AuthEmail, AuthServerView, AuthUser, AuthUserView,
    MailTask, RealmAuthServer,
};

pub use crypto::{bearer_of, gen_login_code, hex_of, mint_bearer, sha3_256_of, stoken, stoken_of};
pub use errors::ErrorCode;
pub use text::{
    dec_of, dec_val, domain_of_userid, is_username_valid, parse_server_address, parse_u16,
    u64_to_string, valid_username,
};
