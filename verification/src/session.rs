//! One session per connection: what it keeps, how it tells a live peer
//! from a dead one, and what it makes of each frame and each answer.
use vstd::prelude::*;
use vstd::string::StringExecFns;
use crate::error::IuroError;
use crate::messages::{
    Answer, Broadcast, ChatMessage, Command, Connect, Disconnect, Join, ListRooms, Request,
    Response, SetUsername, UserGameInput,
};

verus! {

/// How often, in milliseconds, a session looks whether its peer is alive.
pub const HEARTBEAT_INTERVAL: u64 = 5_000;

/// How long, in milliseconds, a peer may stay silent before its session
/// gives it up.
pub const CLIENT_TIMEOUT: u64 = 10_000;

/// The byte that a peer sends, alone in a binary frame, to say that it is
/// alive.
pub const HEARTBEAT_BYTE: u8 = 0x09;

/// Where a session stands in its life.
#[derive(Debug, Clone, Copy, PartialEq, Eq, Structural)]
pub enum Phase {
    /// Made, and not yet known to the hub.
    Connecting,
    /// Known to the hub, and watched for signs of life.
    Active,
    /// On its way out: the hub has been told, or is about to be.
    Closing,
    /// Gone.
    Closed,
}

/// What a session keeps of its connection.
#[derive(Debug, PartialEq, Eq)]
pub struct IuroSession {
    /// The connection's id.
    pub id: usize,
    /// When the peer last said that it is alive, in milliseconds on the
    /// clock of whoever runs the session.
    pub heartbeat: u64,
    /// The room that the session believes its user is in. The hub knows
    /// better; this is only where the session sends chat and game inputs.
    pub room: Option<String>,
    /// Where the session stands in its life.
    pub phase: Phase,
}

/// A frame from the peer.
#[derive(Debug, PartialEq, Eq)]
pub enum Frame {
    Text(String),
    Binary(Vec<u8>),
    Close,
    Ping,
    Pong,
    Nop,
}

/// What a session does about a frame.
#[derive(Debug, PartialEq, Eq)]
pub enum FrameAction {
    /// Decode the text as a command and carry it out.
    Command(String),
    /// Put these bytes on record: they mean nothing. The session goes on.
    Unexpected(Vec<u8>),
    /// Stop.
    Stop,
    /// Nothing.
    Nothing,
}

/// Whether `raw` is the frame by which a peer says that it is alive.
pub open spec fn is_heartbeat(raw: Seq<u8>) -> bool {
    raw == seq![HEARTBEAT_BYTE]
}

/// Whether a peer that was last heard of at `heartbeat` has been silent
/// for too long at `now`.
pub open spec fn timed_out(heartbeat: u64, now: u64) -> bool {
    now - heartbeat > CLIENT_TIMEOUT
}

/// An id from the thread's random number generator, by `rand::random`.
/// Nothing is known of it: two connections get the same id with a chance
/// that is taken to be none.
#[verifier::external_body]
fn random_id() -> (id: usize) {
    rand::random()
}

impl IuroSession {
    /// The session of a connection that has just been made, under the given
    /// id.
    pub fn new(id: usize, now: u64) -> (session: Self)
        ensures
            session.id == id,
            session.heartbeat == now,
            session.room is None,
            session.phase == Phase::Connecting,
    {
        IuroSession { id, heartbeat: now, room: None, phase: Phase::Connecting }
    }

    /// The session of a connection that has just been made, under an id
    /// drawn at random.
    pub fn open(now: u64) -> (session: Self)
        ensures
            session.heartbeat == now,
            session.room is None,
            session.phase == Phase::Connecting,
    {
        IuroSession::new(random_id(), now)
    }

    /// The session starts: it is active from now on, and the hub is to be
    /// told of the connection.
    pub fn started(&mut self) -> (message: Connect)
        ensures
            message.id == old(self).id,
            *final(self) == (IuroSession { phase: Phase::Active, ..*old(self) }),
    {
        self.phase = Phase::Active;
        Connect { id: self.id }
    }

    /// The session stops: it is closed from now on, and the hub is to be
    /// told that the connection is gone.
    pub fn stopping(&mut self) -> (message: Disconnect)
        ensures
            message.id == old(self).id,
            *final(self) == (IuroSession { phase: Phase::Closed, ..*old(self) }),
    {
        self.phase = Phase::Closed;
        Disconnect { id: self.id }
    }

    /// Looks whether the peer is alive: it is not if it has been silent for
    /// more than `CLIENT_TIMEOUT`. A session that gives its peer up is on
    /// its way out, and the hub is to be told that the connection is gone.
    pub fn heartbeat(&mut self, now: u64) -> (message: Option<Disconnect>)
        ensures
            timed_out(old(self).heartbeat, now) ==> {
                &&& message matches Some(gone) && gone.id == old(self).id
                &&& *final(self) == (IuroSession { phase: Phase::Closing, ..*old(self) })
            },
            !timed_out(old(self).heartbeat, now) ==> message is None && *final(self) == *old(
                self,
            ),
    {
        if now > self.heartbeat && now - self.heartbeat > CLIENT_TIMEOUT {
            self.phase = Phase::Closing;
            Some(Disconnect { id: self.id })
        } else {
            None
        }
    }

    /// Takes a frame from the peer. A text frame is a command to decode. A
    /// binary frame that holds the heartbeat byte alone says that the peer
    /// is alive at `now`; any other binary frame is put on record and
    /// passed over. A close frame stops the session. Nothing else counts.
    pub fn handle(&mut self, frame: Frame, now: u64) -> (action: FrameAction)
        ensures
            match frame {
                Frame::Text(text) => {
                    &&& action == FrameAction::Command(text)
                    &&& *final(self) == *old(self)
                },
                Frame::Binary(raw) => if is_heartbeat(raw@) {
                    &&& action == FrameAction::Nothing
                    &&& *final(self) == (IuroSession { heartbeat: now, ..*old(self) })
                } else {
                    &&& action == FrameAction::Unexpected(raw)
                    &&& *final(self) == *old(self)
                },
                Frame::Close => {
                    &&& action == FrameAction::Stop
                    &&& *final(self) == (IuroSession { phase: Phase::Closing, ..*old(self) })
                },
                _ => action == FrameAction::Nothing && *final(self) == *old(self),
            },
    {
        match frame {
            Frame::Text(text) => FrameAction::Command(text),
            Frame::Binary(raw) => {
                if raw.len() == 1 && raw[0] == HEARTBEAT_BYTE {
                    assert(raw@ =~= seq![HEARTBEAT_BYTE]);
                    self.heartbeat = now;
                    FrameAction::Nothing
                } else {
                    FrameAction::Unexpected(raw)
                }
            },
            Frame::Close => {
                self.phase = Phase::Closing;
                FrameAction::Stop
            },
            Frame::Ping => FrameAction::Nothing,
            Frame::Pong => FrameAction::Nothing,
            Frame::Nop => FrameAction::Nothing,
        }
    }

    /// What the peer is sent for the hub's answer to its command, if
    /// anything. After a join, the session takes the room for its own. An
    /// error is put in words for the peer.
    pub fn reply(&mut self, answer: Result<Answer, IuroError>) -> (response: Option<Response>)
        ensures
            match answer {
                Ok(Answer::Rooms(names)) => {
                    &&& response == Some(Response::Rooms(names))
                    &&& *final(self) == *old(self)
                },
                Ok(Answer::Joined(room)) => {
                    &&& response matches Some(Response::Text(text)) && text@ == "Joined room"@
                    &&& *final(self) == (IuroSession { room: Some(room), ..*old(self) })
                },
                Ok(Answer::Nothing) => response is None && *final(self) == *old(self),
                Err(error) => {
                    &&& response matches Some(Response::Error(text)) && text@
                        == error@.message()
                    &&& *final(self) == *old(self)
                },
            },
    {
        match answer {
            Ok(Answer::Rooms(names)) => Some(Response::Rooms(names)),
            Ok(Answer::Joined(room)) => {
                self.room = Some(room);
                Some(Response::Text(String::from_str("Joined room")))
            },
            Ok(Answer::Nothing) => None,
            Err(error) => Some(Response::Error(error.to_string())),
        }
    }
}

/// What a peer is sent for a broadcast of the hub: the broadcast as it is.
pub fn relay(msg: Broadcast) -> (response: Response)
    ensures
        match msg {
            Broadcast::Text(text) => response == Response::Text(text),
            Broadcast::Literal(text) => response matches Response::Text(sent) && sent@ == text@,
            Broadcast::GameStarted(game) => response == Response::GameStarted(game),
            Broadcast::GameEnded(wins) => response == Response::GameEnded(wins),
        },
{
    match msg {
        Broadcast::Text(text) => Response::Text(text),
        Broadcast::Literal(text) => Response::Text(String::from_str(text)),
        Broadcast::GameStarted(game) => Response::GameStarted(game),
        Broadcast::GameEnded(wins) => Response::GameEnded(wins),
    }
}

/// What a session asks of the hub for a command of its peer. `decoded` is
/// the command, or why the frame could not be decoded. A frame that could
/// not be decoded fails as `JsonParsingFailed`. Chat and game inputs are for
/// the room that the session believes its user is in, and fail as
/// `MustJoinRoom` where it believes the user is in none. The session stays as
/// it is.
pub fn handle_text(decoded: Result<Command, serde_json::Error>, act: &IuroSession) -> (request:
    Result<Request, IuroError>)
    ensures
        match decoded {
            Err(_) => request == Err::<Request, IuroError>(IuroError::JsonParsingFailed),
            Ok(Command::ListRooms) => request == Ok::<Request, IuroError>(
                Request::ListRooms(ListRooms),
            ),
            Ok(Command::Join(room)) => request == Ok::<Request, IuroError>(
                Request::Join(Join { id: act.id, name: room }),
            ),
            Ok(Command::Name(name)) => request == Ok::<Request, IuroError>(
                Request::SetUsername(SetUsername { user_id: act.id, room: act.room, name }),
            ),
            Ok(Command::Message(msg)) => match act.room {
                Some(room) => request == Ok::<Request, IuroError>(
                    Request::ChatMessage(ChatMessage { id: act.id, msg, room }),
                ),
                None => request == Err::<Request, IuroError>(IuroError::MustJoinRoom),
            },
            Ok(Command::Game(input)) => match act.room {
                Some(room) => request == Ok::<Request, IuroError>(
                    Request::UserGameInput(UserGameInput { id: act.id, room, input }),
                ),
                None => request == Err::<Request, IuroError>(IuroError::MustJoinRoom),
            },
        },
{
    let command = match decoded {
        Ok(command) => command,
        Err(error) => {
            return Err(IuroError::from(error));
        },
    };
    match command {
        Command::ListRooms => Ok(Request::ListRooms(ListRooms)),
        Command::Join(room) => Ok(Request::Join(Join { id: act.id, name: room })),
        Command::Name(name) => Ok(
            Request::SetUsername(SetUsername { user_id: act.id, name, room: act.room.clone() }),
        ),
        Command::Message(msg) => match &act.room {
            Some(room) => Ok(
                Request::ChatMessage(ChatMessage { id: act.id, msg, room: room.clone() }),
            ),
            None => Err(IuroError::MustJoinRoom),
        },
        Command::Game(input) => match &act.room {
            Some(room) => Ok(
                Request::UserGameInput(UserGameInput { id: act.id, room: room.clone(), input }),
            ),
            None => Err(IuroError::MustJoinRoom),
        },
    }
}

} // verus!
