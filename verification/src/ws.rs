use vstd::prelude::*;

use crate::model::{dto_matches, ProofError, StatementId, StatementTree, TreeStateDTO};

verus! {

/// Who a server event is delivered to. Error replies and direct answers go
/// only to the client that issued the command; state updates and the win
/// notification go to every session participant.
#[derive(Clone, Copy, PartialEq, Eq, Structural, Debug)]
pub enum Audience {
    /// Only the client whose command triggered the event.
    Sender,
    /// Every client of the session.
    Everyone,
}

/// The closed set of server-to-client events.
#[derive(Debug)]
pub enum ServerMessage {
    /// The id issued for a statement the sender just added.
    NewNodeId(StatementId),
    /// A full snapshot of the graph.
    GameState(TreeStateDTO),
    /// The outcome of a judging call on one statement.
    Comment { id: StatementId, comment: String, success: bool },
    /// The proof is complete.
    Win,
    /// The sender should expect to wait this long for a judging answer.
    AICooldown { seconds: u64 },
    /// A graph mutation was rejected.
    Error(ProofError),
}

/// The closed set of client-to-server commands.
#[derive(Debug)]
pub enum ClientMessage {
    GetGameState,
    Add { statement: String },
    Delete { id: StatementId },
    Edit { id: StatementId, statement: String },
    Link { premise: StatementId, conclusion: StatementId },
    Unlink { premise: StatementId, conclusion: StatementId },
    ProveDirect { id: StatementId },
    ProveImplication { id: StatementId },
}

/// Collects the events one command produces, each tagged with its
/// audience, in delivery order. The transport that actually writes them to
/// the clients' channels lives outside the core and drains `outbox`.
pub struct Messenger {
    pub outbox: Vec<(Audience, ServerMessage)>,
}

impl Messenger {
    pub fn new() -> (r: Self)
        ensures
            r.outbox@ == Seq::<(Audience, ServerMessage)>::empty(),
    {
        Messenger { outbox: Vec::new() }
    }

    /// Queue an event for every session participant.
    pub fn send(&mut self, msg: ServerMessage)
        ensures
            final(self).outbox@ == old(self).outbox@.push((Audience::Everyone, msg)),
    {
        self.outbox.push((Audience::Everyone, msg));
    }

    /// Tell the sender how long a judging answer may take.
    pub fn send_cooldown(&mut self, seconds: u64)
        ensures
            final(self).outbox@ == old(self).outbox@.push(
                (Audience::Sender, ServerMessage::AICooldown { seconds }),
            ),
    {
        self.reply(ServerMessage::AICooldown { seconds });
    }

    /// Broadcast a fresh snapshot of the graph to every participant.
    pub fn send_tree(&mut self, tree: &StatementTree)
        requires
            tree.wf(),
        ensures
            final(self).outbox@.len() == old(self).outbox@.len() + 1,
            forall|i: int| 0 <= i < old(self).outbox@.len()
                ==> final(self).outbox@[i] == old(self).outbox@[i],
            final(self).outbox@.last().0 == Audience::Everyone,
            final(self).outbox@.last().1 is GameState,
            dto_matches(*tree, final(self).outbox@.last().1->GameState_0),
    {
        let dto = tree.as_dto();
        self.send(ServerMessage::GameState(dto));
    }

    /// Report the outcome of a judging call on one statement to the sender.
    pub fn msg(&mut self, id: StatementId, comment: String, success: bool)
        ensures
            final(self).outbox@ == old(self).outbox@.push(
                (Audience::Sender, ServerMessage::Comment { id, comment, success }),
            ),
    {
        self.reply(ServerMessage::Comment { id, comment, success });
    }

    /// Tell every participant that the proof is complete.
    pub fn msg_win(&mut self)
        ensures
            final(self).outbox@ == old(self).outbox@.push(
                (Audience::Everyone, ServerMessage::Win),
            ),
    {
        self.send(ServerMessage::Win);
    }

    /// Queue an event for the sender only.
    pub fn reply(&mut self, msg: ServerMessage)
        ensures
            final(self).outbox@ == old(self).outbox@.push((Audience::Sender, msg)),
    {
        self.outbox.push((Audience::Sender, msg));
    }

    /// Answer the sender's state request with a snapshot of the graph.
    pub fn reply_tree(&mut self, tree: &StatementTree)
        requires
            tree.wf(),
        ensures
            final(self).outbox@.len() == old(self).outbox@.len() + 1,
            forall|i: int| 0 <= i < old(self).outbox@.len()
                ==> final(self).outbox@[i] == old(self).outbox@[i],
            final(self).outbox@.last().0 == Audience::Sender,
            final(self).outbox@.last().1 is GameState,
            dto_matches(*tree, final(self).outbox@.last().1->GameState_0),
    {
        let dto = tree.as_dto();
        self.reply(ServerMessage::GameState(dto));
    }

    /// Hand the queued events to the transport, in delivery order, leaving
    /// the outbox empty.
    pub fn drain(&mut self) -> (r: Vec<(Audience, ServerMessage)>)
        ensures
            r@ == old(self).outbox@,
            final(self).outbox@ == Seq::<(Audience, ServerMessage)>::empty(),
    {
        let mut taken: Vec<(Audience, ServerMessage)> = Vec::new();
        core::mem::swap(&mut taken, &mut self.outbox);
        taken
    }
}

} // verus!
