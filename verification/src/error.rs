//! The errors that a command can end in, and what the user is told of each.
use vstd::prelude::*;
use vstd::std_specs::convert::FromSpecImpl;
use vstd::string::StringExecFns;

verus! {

/// The JSON decoder's error. Nothing of it is read here: a frame that does
/// not decode is reported as `JsonParsingFailed`, whatever was wrong with it.
#[verifier::external_type_specification]
#[verifier::external_body]
pub struct ExJsonError(serde_json::Error);

/// The actor runtime's error for a message that its mailbox did not take.
/// Nothing of it is read here: it is reported as `MailBox`.
#[verifier::external_type_specification]
#[verifier::external_body]
pub struct ExMailboxError(actix::MailboxError);

/// Why a command failed. Each is answered to the peer that sent the command,
/// and to no one else; none of them ends the connection.
#[derive(Debug, PartialEq, Eq)]
pub enum IuroError {
    /// A game input came for a room in which no round is open.
    NoGameRunning,
    /// The command needs a room, and the session has joined none.
    MustJoinRoom,
    /// The frame is no command, or the input does not fit the open round.
    JsonParsingFailed,
    /// No room has this name.
    NoRoom(String),
    /// The room of this name has no place left.
    FullRoom(String),
    /// The hub knows no such connection where the command looked for it.
    AddrNotFound(usize),
    /// The hub's mailbox did not take the command.
    MailBox,
}

/// An error as the contracts see it: the room's name by its characters.
pub enum ErrorModel {
    NoGameRunning,
    MustJoinRoom,
    JsonParsingFailed,
    NoRoom(Seq<char>),
    FullRoom(Seq<char>),
    AddrNotFound(usize),
    MailBox,
}

impl ErrorModel {
    /// What the user reads. The detail of an internal fault is withheld.
    pub open spec fn message(self) -> Seq<char> {
        match self {
            ErrorModel::NoGameRunning => "No game currently running"@,
            ErrorModel::MustJoinRoom => "Must join room first"@,
            ErrorModel::JsonParsingFailed => "Unable to parse message"@,
            ErrorModel::NoRoom(room) => "Room `"@ + room + "` not found"@,
            ErrorModel::FullRoom(room) => "Room `"@ + room + "` is full"@,
            ErrorModel::AddrNotFound(_) => "Internal Server Error"@,
            ErrorModel::MailBox => "Internal Server Error"@,
        }
    }

    /// Whether the fault lies in the server, not in what the user sent.
    pub open spec fn is_internal(self) -> bool {
        self is AddrNotFound || self is MailBox
    }
}

impl View for IuroError {
    type V = ErrorModel;

    open spec fn view(&self) -> ErrorModel {
        match self {
            IuroError::NoGameRunning => ErrorModel::NoGameRunning,
            IuroError::MustJoinRoom => ErrorModel::MustJoinRoom,
            IuroError::JsonParsingFailed => ErrorModel::JsonParsingFailed,
            IuroError::NoRoom(room) => ErrorModel::NoRoom(room@),
            IuroError::FullRoom(room) => ErrorModel::FullRoom(room@),
            IuroError::AddrNotFound(id) => ErrorModel::AddrNotFound(*id),
            IuroError::MailBox => ErrorModel::MailBox,
        }
    }
}

impl Clone for IuroError {
    fn clone(&self) -> (copy: Self)
        ensures
            copy == *self,
    {
        match self {
            IuroError::NoGameRunning => IuroError::NoGameRunning,
            IuroError::MustJoinRoom => IuroError::MustJoinRoom,
            IuroError::JsonParsingFailed => IuroError::JsonParsingFailed,
            IuroError::NoRoom(room) => IuroError::NoRoom(room.clone()),
            IuroError::FullRoom(room) => IuroError::FullRoom(room.clone()),
            IuroError::AddrNotFound(id) => IuroError::AddrNotFound(*id),
            IuroError::MailBox => IuroError::MailBox,
        }
    }
}

/// The text shown to a user in place of the detail of an internal fault.
/// The detail is for the server's own record and is never sent.
pub fn internal_error<T: std::fmt::Debug>(error: T) -> (text: &'static str)
    ensures
        text@ == "Internal Server Error"@,
{
    "Internal Server Error"
}

impl IuroError {
    /// Whether the fault lies in the server, not in what the user sent. The
    /// detail of such a fault is for the server's own record.
    pub fn is_internal(&self) -> (internal: bool)
        ensures
            internal == self@.is_internal(),
    {
        match self {
            IuroError::AddrNotFound(_) => true,
            IuroError::MailBox => true,
            _ => false,
        }
    }

    /// What the user reads of this error.
    pub fn to_string(&self) -> (text: String)
        ensures
            text@ == self@.message(),
    {
        match self {
            IuroError::NoGameRunning => String::from_str("No game currently running"),
            IuroError::MustJoinRoom => String::from_str("Must join room first"),
            IuroError::JsonParsingFailed => String::from_str("Unable to parse message"),
            IuroError::NoRoom(room) => {
                let mut text = String::from_str("Room `");
                text.append(room.as_str());
                text.append("` not found");
                text
            },
            IuroError::FullRoom(room) => {
                let mut text = String::from_str("Room `");
                text.append(room.as_str());
                text.append("` is full");
                text
            },
            IuroError::AddrNotFound(id) => String::from_str(internal_error(*id)),
            IuroError::MailBox => String::from_str(internal_error("mailbox")),
        }
    }
}

impl From<serde_json::Error> for IuroError {
    fn from(error: serde_json::Error) -> (converted: Self) {
        IuroError::JsonParsingFailed
    }
}

impl FromSpecImpl<serde_json::Error> for IuroError {
    open spec fn obeys_from_spec() -> bool {
        true
    }

    open spec fn from_spec(error: serde_json::Error) -> Self {
        IuroError::JsonParsingFailed
    }
}

impl From<actix::MailboxError> for IuroError {
    fn from(error: actix::MailboxError) -> (converted: Self) {
        IuroError::MailBox
    }
}

impl FromSpecImpl<actix::MailboxError> for IuroError {
    open spec fn obeys_from_spec() -> bool {
        true
    }

    open spec fn from_spec(error: actix::MailboxError) -> Self {
        IuroError::MailBox
    }
}

} // verus!
