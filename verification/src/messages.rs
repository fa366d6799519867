//! What travels between a session and the hub, and from the hub to the
//! peers.
use vstd::prelude::*;
use crate::error::IuroError;
use crate::games::{Game, GameInput, GameModel};
use crate::room::board_view;

verus! {

/// What a peer is sent.
#[derive(Debug, PartialEq, Eq)]
pub enum Response {
    /// The names of the rooms.
    Rooms(Vec<String>),
    /// A line of chat, or a notice.
    Text(String),
    /// What went wrong with the peer's own command.
    Error(String),
    /// The game that has just started.
    GameStarted(Game),
    /// The names of the occupants, each with its wins.
    GameEnded(Vec<(String, usize)>),
}

/// What a peer asks for.
#[derive(Debug, PartialEq, Eq)]
pub enum Command {
    /// The names of the rooms.
    ListRooms,
    /// To be in the room of this name, which is made if there is none, and
    /// in no other.
    Join(String),
    /// To go by this name.
    Name(String),
    /// To say this to everyone in the room.
    Message(String),
    /// To play this in the round in play.
    Game(GameInput),
}

/// A game input with its sender and the room it is meant for.
#[derive(Debug, PartialEq, Eq)]
pub struct UserGameInput {
    pub id: usize,
    pub room: String,
    pub input: GameInput,
}

/// What the hub sends to everyone in a room.
#[derive(Debug, PartialEq, Eq)]
pub enum Broadcast {
    /// A line of chat.
    Text(String),
    /// A notice whose words are fixed.
    Literal(&'static str),
    /// The game that has just started.
    GameStarted(Game),
    /// The names of the occupants, each with its wins.
    GameEnded(Vec<(String, usize)>),
}

/// A broadcast as the contracts see it. A notice is text like any other.
pub enum BroadcastModel {
    Text(Seq<char>),
    GameStarted(GameModel),
    GameEnded(Seq<(Seq<char>, nat)>),
}

impl View for Broadcast {
    type V = BroadcastModel;

    open spec fn view(&self) -> BroadcastModel {
        match self {
            Broadcast::Text(text) => BroadcastModel::Text(text@),
            Broadcast::Literal(text) => BroadcastModel::Text(text@),
            Broadcast::GameStarted(game) => BroadcastModel::GameStarted(game@),
            Broadcast::GameEnded(board) => BroadcastModel::GameEnded(board_view(board@)),
        }
    }
}

/// A broadcast with the connections that it goes to, in the order in which
/// they are served. The hub decides on it; whoever holds the connections
/// sends it, and goes on to the next peer where one does not take it.
#[derive(Debug, PartialEq, Eq)]
pub struct Delivery {
    pub to: Vec<usize>,
    pub message: Broadcast,
}

/// A delivery as the contracts see it.
pub struct DeliveryModel {
    pub to: Seq<usize>,
    pub message: BroadcastModel,
}

impl View for Delivery {
    type V = DeliveryModel;

    open spec fn view(&self) -> DeliveryModel {
        DeliveryModel { to: self.to@, message: self.message@ }
    }
}

/// The views of `deliveries`, in their order.
pub open spec fn deliveries_view(deliveries: Seq<Delivery>) -> Seq<DeliveryModel> {
    Seq::new(deliveries.len(), |i: int| deliveries[i]@)
}

/// A connection has opened.
#[derive(Debug, PartialEq, Eq)]
pub struct Connect {
    pub id: usize,
}

/// A connection has closed.
#[derive(Debug, PartialEq, Eq)]
pub struct Disconnect {
    pub id: usize,
}

/// A user wants to go by another name. `room` is the room that the user's
/// session believes it is in.
#[derive(Debug, PartialEq, Eq)]
pub struct SetUsername {
    pub user_id: usize,
    pub room: Option<String>,
    pub name: String,
}

/// Someone wants the names of the rooms.
#[derive(Debug, PartialEq, Eq)]
pub struct ListRooms;

/// A line of chat for a room.
#[derive(Debug, PartialEq, Eq)]
pub struct ChatMessage {
    pub id: usize,
    pub msg: String,
    pub room: String,
}

/// A user wants to be in the room of this name, and in no other.
#[derive(Debug, PartialEq, Eq)]
pub struct Join {
    pub id: usize,
    pub name: String,
}

/// What a session asks of the hub on behalf of its peer.
#[derive(Debug, PartialEq, Eq)]
pub enum Request {
    ListRooms(ListRooms),
    Join(Join),
    SetUsername(SetUsername),
    ChatMessage(ChatMessage),
    UserGameInput(UserGameInput),
}

/// What the hub answers to the session that asked.
#[derive(Debug, PartialEq, Eq)]
pub enum Answer {
    /// The names of the rooms.
    Rooms(Vec<String>),
    /// The user is now in the room of this name.
    Joined(String),
    /// It is done, and there is nothing to say.
    Nothing,
}

/// What became of a request: the answer for the session that asked, and
/// what is to be sent to whom. A request that failed sends nothing.
#[derive(Debug, PartialEq, Eq)]
pub struct Handled {
    pub answer: Result<Answer, IuroError>,
    pub deliveries: Vec<Delivery>,
}

} // verus!
