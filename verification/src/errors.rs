use vstd::prelude::*;

verus! {

/// The single flat error taxonomy carried in every fallible result of the
/// two services.
#[derive(Clone, Copy, Debug, PartialEq, Eq, Structural)]
pub enum ErrorCode {
    Error,
    Unauthorized,
    EmailTaken,
    UsernameTaken,
    InvalidLoginCode,
    InvalidImage,
    InvalidUsername,
    InvalidEmail,
    InvalidToken,
    UnableToConnectToMail,
    UnableToSendMail,
    AlreadyJoinedServer,
    NotInServer,
    MessageNotFound,
    RoomNotFound,
    UserNotFound,
    DepthTooLarge,
    MalformedDBResponse,
    RPCError,
}

} // verus!
