use vstd::prelude::*;

use crate::judge::{
    error_text, interpret_api_response, spec_response_verdict, AiError, OpenAi, OpenAiRequest,
    OpenAiResponse, ProofKind, Verdict,
};
use crate::model::{ProofError, ProofState, StatementId, StatementTree};
use crate::ws::{Audience, ClientMessage, Messenger, ServerMessage};

verus! {

/// A judging call the orchestrator has prepared but whose answer is still
/// outstanding. The surrounding transport sends `request` to the service
/// and hands the answer (or the transport failure) to `on_judge_result`.
pub struct PendingProve {
    pub id: StatementId,
    pub kind: ProofKind,
    pub request: OpenAiRequest,
}

/// The cooldown hint sent to the requester before a judging call.
pub open spec fn cooldown_event(seconds: u64) -> (Audience, ServerMessage) {
    (Audience::Sender, ServerMessage::AICooldown { seconds })
}

/// The events appended after a successful mutation: a broadcast snapshot
/// of `tree`, followed by a broadcast win notification iff the proof is
/// now complete.
pub open spec fn state_update_events(
    pre: Seq<(Audience, ServerMessage)>,
    post: Seq<(Audience, ServerMessage)>,
    tree: StatementTree,
) -> bool {
    &&& post.len() == pre.len() + (if tree.complete() { 2int } else { 1int })
    &&& (forall|i: int| 0 <= i < pre.len() ==> post[i] == pre[i])
    &&& post[pre.len() as int].0 == Audience::Everyone
    &&& post[pre.len() as int].1 is GameState
    &&& crate::model::dto_matches(tree, post[pre.len() as int].1->GameState_0)
    &&& (tree.complete() ==> post.last() == (Audience::Everyone, ServerMessage::Win))
}

/// The single failed comment appended when a judging call for `id` does
/// not end in an accepting verdict.
pub open spec fn failed_comment_event(
    pre: Seq<(Audience, ServerMessage)>,
    post: Seq<(Audience, ServerMessage)>,
    id: StatementId,
    text: Seq<char>,
) -> bool {
    &&& post.len() == pre.len() + 1
    &&& (forall|i: int| 0 <= i < pre.len() ==> post[i] == pre[i])
    &&& post.last().0 == Audience::Sender
    &&& (post.last().1 matches ServerMessage::Comment { id: cid, comment, success }
        && cid == id && comment@ == text && success == false)
}

/// One game session: the argument graph, the rate-limited judge client,
/// the cooldown hint, and the outbox of events to deliver. All commands of
/// a session are processed one at a time by its single owner, so the graph
/// needs no locking and every contract here speaks of one step.
pub struct GameState {
    pub tree: StatementTree,
    pub ai: OpenAi,
    pub max_ai_cooldown_seconds: u64,
    pub messenger: Messenger,
}

impl GameState {
    /// The session invariant: the graph and the token bucket are both
    /// well-formed.
    pub open spec fn wf(self) -> bool {
        &&& self.tree.wf()
        &&& self.ai.limiter.wf()
    }

    /// Start a session over a fresh graph holding only the root statement.
    pub fn new(
        root_statement: String,
        max_ai_cooldown_seconds: u64,
        ai: OpenAi,
        messenger: Messenger,
    ) -> (r: Self)
        requires
            ai.limiter.wf(),
        ensures
            r.wf(),
            r.max_ai_cooldown_seconds == max_ai_cooldown_seconds,
            r.ai == ai,
            r.messenger == messenger,
            r.tree.text_of(r.tree.root) == root_statement@,
            r.tree.state_of(r.tree.root) == ProofState::Unproven,
            r.tree.parents_of(r.tree.root) == Seq::<StatementId>::empty(),
            forall|id: StatementId| #[trigger] r.tree.valid(id) ==> id == r.tree.root,
    {
        GameState {
            tree: StatementTree::new(root_statement),
            ai,
            max_ai_cooldown_seconds,
            messenger,
        }
    }

    /// Broadcast the updated graph, and the win notification if the proof
    /// is now complete.
    fn push_state_update(&mut self)
        requires
            old(self).wf(),
        ensures
            final(self).wf(),
            final(self).tree == old(self).tree,
            final(self).ai == old(self).ai,
            final(self).max_ai_cooldown_seconds == old(self).max_ai_cooldown_seconds,
            state_update_events(
                old(self).messenger.outbox@,
                final(self).messenger.outbox@,
                old(self).tree,
            ),
    {
        let complete = self.tree.proof_complete();
        self.messenger.send_tree(&self.tree);
        if complete {
            self.messenger.msg_win();
        }
    }

    /// Ask the judging service whether the statement is factual on its
    /// own. The requester is told the cooldown first; an invalid id fails
    /// with `NotFound`; an empty token bucket yields a failed comment and
    /// sends nothing. Otherwise one token is consumed and the prepared
    /// request is handed back for the transport to send.
    pub fn prove_direct(&mut self, now_ms: u64, id: StatementId) -> (r: Result<
        Option<PendingProve>,
        ProofError,
    >)
        requires
            old(self).wf(),
            now_ms >= old(self).ai.limiter.last_request,
        ensures
            final(self).wf(),
            final(self).tree == old(self).tree,
            final(self).max_ai_cooldown_seconds == old(self).max_ai_cooldown_seconds,
            old(self).ai.same_config(final(self).ai),
            r is Err <==> !old(self).tree.valid(id),
            r is Err ==> r->Err_0 == ProofError::NotFound && final(self).ai == old(self).ai
                && final(self).messenger.outbox@ == old(self).messenger.outbox@.push(
                cooldown_event(old(self).max_ai_cooldown_seconds),
            ),
            r is Ok ==> ({
                let limited = old(self).ai.limiter.available(now_ms as int) < 1;
                let mid = old(self).messenger.outbox@.push(
                    cooldown_event(old(self).max_ai_cooldown_seconds),
                );
                if limited {
                    &&& r->Ok_0 is None
                    &&& final(self).ai == old(self).ai
                    &&& failed_comment_event(mid, final(self).messenger.outbox@, id,
                        error_text(AiError::Ratelimited))
                } else {
                    &&& r->Ok_0 is Some
                    &&& r->Ok_0->0.id == id
                    &&& r->Ok_0->0.kind == ProofKind::Fact
                    &&& r->Ok_0->0.request.model == old(self).ai.model
                    &&& r->Ok_0->0.request.messages@.len() == 2
                    &&& r->Ok_0->0.request.messages@[0].role == crate::judge::Role::System
                    &&& r->Ok_0->0.request.messages@[0].content@
                        == old(self).ai.system_message@
                    &&& r->Ok_0->0.request.messages@[1].role == crate::judge::Role::User
                    &&& r->Ok_0->0.request.messages@[1].content@ == old(self).tree.text_of(id)
                    &&& final(self).ai.limiter.tokens
                        == old(self).ai.limiter.available(now_ms as int) - 1
                    &&& final(self).ai.limiter.last_request == now_ms
                    &&& final(self).messenger.outbox@ == mid
                }
            }),
    {
        self.messenger.send_cooldown(self.max_ai_cooldown_seconds);
        let text = match self.tree.get_statement(id) {
            Ok(t) => t,
            Err(e) => {
                return Err(e);
            },
        };
        match self.ai.check_fact(now_ms, text) {
            Ok(request) => Ok(Some(PendingProve { id, kind: ProofKind::Fact, request })),
            Err(e) => {
                let note = e.message();
                self.messenger.msg(id, note, false);
                Ok(None)
            },
        }
    }

    /// Ask the judging service whether the statement's premises imply it.
    /// The requester is told the cooldown first; an invalid id fails with
    /// `NotFound`; a statement without premises is refused with an
    /// explanatory comment and no judge call; an empty token bucket yields
    /// a failed comment. Otherwise one token is consumed and the prepared
    /// request is handed back for the transport to send.
    pub fn prove_implication(&mut self, now_ms: u64, id: StatementId) -> (r: Result<
        Option<PendingProve>,
        ProofError,
    >)
        requires
            old(self).wf(),
            now_ms >= old(self).ai.limiter.last_request,
        ensures
            final(self).wf(),
            final(self).tree == old(self).tree,
            final(self).max_ai_cooldown_seconds == old(self).max_ai_cooldown_seconds,
            old(self).ai.same_config(final(self).ai),
            r is Err <==> !old(self).tree.valid(id),
            r is Err ==> r->Err_0 == ProofError::NotFound && final(self).ai == old(self).ai
                && final(self).messenger.outbox@ == old(self).messenger.outbox@.push(
                cooldown_event(old(self).max_ai_cooldown_seconds),
            ),
            r is Ok ==> ({
                let pre = old(self).tree;
                let limited = old(self).ai.limiter.available(now_ms as int) < 1;
                let mid = old(self).messenger.outbox@.push(
                    cooldown_event(old(self).max_ai_cooldown_seconds),
                );
                if pre.parents_of(id).len() == 0 {
                    &&& r->Ok_0 is None
                    &&& final(self).ai == old(self).ai
                    &&& failed_comment_event(mid, final(self).messenger.outbox@, id,
                        "You need to add at least one premise to prove an implication."@)
                } else if limited {
                    &&& r->Ok_0 is None
                    &&& final(self).ai == old(self).ai
                    &&& failed_comment_event(mid, final(self).messenger.outbox@, id,
                        error_text(AiError::Ratelimited))
                } else {
                    &&& r->Ok_0 is Some
                    &&& r->Ok_0->0.id == id
                    &&& r->Ok_0->0.kind == ProofKind::Implication
                    &&& r->Ok_0->0.request.model == old(self).ai.model
                    &&& r->Ok_0->0.request.messages@.len() == pre.parents_of(id).len() + 3
                    &&& r->Ok_0->0.request.messages@[0].role == crate::judge::Role::System
                    &&& r->Ok_0->0.request.messages@[0].content@
                        == old(self).ai.system_message@
                    &&& (forall|i: int| 0 <= i < pre.parents_of(id).len() ==> {
                        &&& (#[trigger] r->Ok_0->0.request.messages@[i + 1]).role
                            == crate::judge::Role::User
                        &&& r->Ok_0->0.request.messages@[i + 1].content@
                            == "- "@ + pre.text_of(pre.parents_of(id)[i])
                    })
                    &&& r->Ok_0->0.request.messages@[pre.parents_of(id).len() as int
                        + 1].content@ == old(self).ai.implication_mid@
                    &&& r->Ok_0->0.request.messages@[pre.parents_of(id).len() as int
                        + 2].content@ == "- "@ + pre.text_of(id)
                    &&& final(self).ai.limiter.tokens
                        == old(self).ai.limiter.available(now_ms as int) - 1
                    &&& final(self).ai.limiter.last_request == now_ms
                    &&& final(self).messenger.outbox@ == mid
                }
            }),
    {
        self.messenger.send_cooldown(self.max_ai_cooldown_seconds);
        let conclusion = match self.tree.get_statement(id) {
            Ok(t) => t,
            Err(e) => {
                return Err(e);
            },
        };
        let premises = match self.tree.get_premises(id) {
            Ok(p) => p,
            Err(e) => {
                return Err(e);
            },
        };
        if premises.len() == 0 {
            let note = String::from_str(
                "You need to add at least one premise to prove an implication.",
            );
            self.messenger.msg(id, note, false);
            return Ok(None);
        }
        match self.ai.check_implication(now_ms, premises, conclusion) {
            Ok(request) => Ok(Some(PendingProve { id, kind: ProofKind::Implication, request })),
            Err(e) => {
                let note = e.message();
                self.messenger.msg(id, note, false);
                Ok(None)
            },
        }
    }

    /// Apply the judging service's answer (or the transport's failure) to
    /// the pending prove request. An accepting verdict marks the statement
    /// proven, comments the success and broadcasts the updated graph (and
    /// the win, if the proof is now complete); every other outcome leaves
    /// the graph untouched and comments the failure to the requester.
    pub fn on_judge_result(
        &mut self,
        pending: PendingProve,
        outcome: Result<OpenAiResponse, AiError>,
    )
        requires
            old(self).wf(),
        ensures
            final(self).wf(),
            final(self).ai == old(self).ai,
            final(self).max_ai_cooldown_seconds == old(self).max_ai_cooldown_seconds,
            ({
                let v = (match outcome {
                    Ok(resp) => spec_response_verdict(resp),
                    Err(e) => Err(e),
                });
                match v {
                    Ok(Verdict::True) => {
                        let mid_tree = final(self).tree;
                        &&& final(self).tree.root == old(self).tree.root
                        &&& (old(self).tree.valid(pending.id) ==> {
                            &&& mid_tree.valid(pending.id)
                            &&& mid_tree.text_of(pending.id) == old(self).tree.text_of(pending.id)
                            &&& mid_tree.state_of(pending.id) == (match pending.kind {
                                ProofKind::Fact => ProofState::DirectlyProven,
                                ProofKind::Implication => ProofState::ImpliedProven,
                            })
                            &&& mid_tree.parents_of(pending.id)
                                == old(self).tree.parents_of(pending.id)
                            &&& mid_tree.children_of(pending.id)
                                == old(self).tree.children_of(pending.id)
                            &&& (forall|x: StatementId| x != pending.id
                                ==> old(self).tree.unchanged_at(mid_tree, x))
                        })
                        &&& (!old(self).tree.valid(pending.id)
                            ==> final(self).tree == old(self).tree)
                        &&& ({
                            let mid = old(self).messenger.outbox@.push(
                                (Audience::Sender, ServerMessage::Comment {
                                    id: pending.id,
                                    comment: outcome->Ok_0.choices@[0].message.content,
                                    success: true,
                                }),
                            );
                            state_update_events(mid, final(self).messenger.outbox@,
                                final(self).tree)
                        })
                    },
                    Ok(Verdict::False) => {
                        &&& final(self).tree == old(self).tree
                        &&& failed_comment_event(old(self).messenger.outbox@,
                            final(self).messenger.outbox@, pending.id,
                            outcome->Ok_0.choices@[0].message.content@)
                    },
                    Err(e) => {
                        &&& final(self).tree == old(self).tree
                        &&& failed_comment_event(old(self).messenger.outbox@,
                            final(self).messenger.outbox@, pending.id, error_text(e))
                    },
                }
            }),
    {
        match outcome {
            Err(e) => {
                let note = e.message();
                self.messenger.msg(pending.id, note, false);
            },
            Ok(resp) => {
                let verdict = interpret_api_response(&resp);
                match verdict {
                    Ok(Verdict::True) => {
                        let mut resp = resp;
                        let first = resp.choices.remove(0);
                        match pending.kind {
                            ProofKind::Fact => {
                                let _ = self.tree.set_directly_proven(pending.id);
                            },
                            ProofKind::Implication => {
                                let _ = self.tree.set_implied(pending.id);
                            },
                        }
                        self.messenger.msg(pending.id, first.message.content, true);
                        self.push_state_update();
                    },
                    Ok(Verdict::False) => {
                        let mut resp = resp;
                        let first = resp.choices.remove(0);
                        self.messenger.msg(pending.id, first.message.content, false);
                    },
                    Err(e) => {
                        let note = e.message();
                        self.messenger.msg(pending.id, note, false);
                    },
                }
            },
        }
    }

    /// Validate and apply one client command. Structural commands mutate
    /// the graph directly: on success the updated graph is broadcast (with
    /// the win notification if the proof is complete), on failure the
    /// error is reported to the sender alone and nothing changes. A prove
    /// command prepares a judging call and hands it back; the transport
    /// sends it and later feeds the answer to `on_judge_result`.
    pub fn on_incoming_message(&mut self, now_ms: u64, incoming_message: ClientMessage) -> (r:
        Option<PendingProve>)
        requires
            old(self).wf(),
            now_ms >= old(self).ai.limiter.last_request,
        ensures
            final(self).wf(),
            final(self).max_ai_cooldown_seconds == old(self).max_ai_cooldown_seconds,
            old(self).ai.same_config(final(self).ai),
            (match incoming_message {
                ClientMessage::GetGameState => {
                    &&& r is None
                    &&& final(self).tree == old(self).tree
                    &&& final(self).ai == old(self).ai
                    &&& final(self).messenger.outbox@.len()
                        == old(self).messenger.outbox@.len() + 1
                    &&& final(self).messenger.outbox@.last().0 == Audience::Sender
                    &&& final(self).messenger.outbox@.last().1 is GameState
                    &&& crate::model::dto_matches(old(self).tree,
                        final(self).messenger.outbox@.last().1->GameState_0)
                },
                ClientMessage::Add { statement } => {
                    &&& r is None
                    &&& final(self).ai == old(self).ai
                    &&& final(self).tree.root == old(self).tree.root
                    &&& (exists|nid: StatementId| {
                        &&& !old(self).tree.valid(nid)
                        &&& final(self).tree.valid(nid)
                        &&& final(self).tree.text_of(nid) == statement@
                        &&& final(self).tree.state_of(nid) == ProofState::Unproven
                        &&& final(self).tree.parents_of(nid) == Seq::<StatementId>::empty()
                        &&& (forall|x: StatementId| x != nid
                            ==> old(self).tree.unchanged_at(final(self).tree, x))
                        &&& state_update_events(
                            old(self).messenger.outbox@.push(
                                (Audience::Sender, ServerMessage::NewNodeId(nid)),
                            ),
                            final(self).messenger.outbox@,
                            final(self).tree,
                        )
                    })
                },
                ClientMessage::Edit { id, statement } => {
                    &&& r is None
                    &&& final(self).ai == old(self).ai
                    &&& (if old(self).tree.valid(id) {
                        &&& final(self).tree.root == old(self).tree.root
                        &&& final(self).tree.valid(id)
                        &&& final(self).tree.text_of(id) == statement@
                        &&& final(self).tree.state_of(id) == ProofState::Unproven
                        &&& final(self).tree.parents_of(id) == old(self).tree.parents_of(id)
                        &&& final(self).tree.children_of(id) == old(self).tree.children_of(id)
                        &&& (forall|x: StatementId| x != id
                            ==> old(self).tree.unchanged_at(final(self).tree, x))
                        &&& state_update_events(old(self).messenger.outbox@,
                            final(self).messenger.outbox@, final(self).tree)
                    } else {
                        &&& final(self).tree == old(self).tree
                        &&& final(self).messenger.outbox@ == old(self).messenger.outbox@.push(
                            (Audience::Sender, ServerMessage::Error(ProofError::NotFound)),
                        )
                    })
                },
                ClientMessage::Delete { id } => {
                    &&& r is None
                    &&& final(self).ai == old(self).ai
                    &&& (if !old(self).tree.valid(id) {
                        &&& final(self).tree == old(self).tree
                        &&& final(self).messenger.outbox@ == old(self).messenger.outbox@.push(
                            (Audience::Sender, ServerMessage::Error(ProofError::NotFound)),
                        )
                    } else if id == old(self).tree.root {
                        &&& final(self).tree == old(self).tree
                        &&& final(self).messenger.outbox@ == old(self).messenger.outbox@.push(
                            (Audience::Sender,
                            ServerMessage::Error(ProofError::CannotDeleteRoot)),
                        )
                    } else {
                        &&& final(self).tree.root == old(self).tree.root
                        &&& !final(self).tree.valid(id)
                        &&& (forall|x: StatementId| x != id
                            ==> #[trigger] final(self).tree.valid(x)
                                == old(self).tree.valid(x))
                        &&& (forall|x: StatementId| #[trigger] final(self).tree.valid(x)
                            ==> !final(self).tree.parents_of(x).contains(id)
                                && !final(self).tree.children_of(x).contains(id))
                        &&& state_update_events(old(self).messenger.outbox@,
                            final(self).messenger.outbox@, final(self).tree)
                    })
                },
                ClientMessage::Link { premise, conclusion } => {
                    &&& r is None
                    &&& final(self).ai == old(self).ai
                    &&& ({
                        let pre = old(self).tree;
                        if !pre.valid(premise) || !pre.valid(conclusion) {
                            &&& final(self).tree == pre
                            &&& final(self).messenger.outbox@
                                == old(self).messenger.outbox@.push(
                                (Audience::Sender,
                                ServerMessage::Error(ProofError::NotFound)),
                            )
                        } else if premise == conclusion {
                            &&& final(self).tree == pre
                            &&& final(self).messenger.outbox@
                                == old(self).messenger.outbox@.push(
                                (Audience::Sender,
                                ServerMessage::Error(ProofError::SelfLink)),
                            )
                        } else if pre.reachable(conclusion, premise) {
                            &&& final(self).tree == pre
                            &&& final(self).messenger.outbox@
                                == old(self).messenger.outbox@.push(
                                (Audience::Sender,
                                ServerMessage::Error(ProofError::WouldCreateCycle)),
                            )
                        } else {
                            &&& final(self).tree.root == old(self).tree.root
                            &&& final(self).tree.has_edge(premise, conclusion)
                            &&& final(self).tree.state_of(conclusion) == ProofState::Unproven
                            &&& (forall|x: StatementId| x != premise && x != conclusion
                                ==> pre.unchanged_at(final(self).tree, x))
                            &&& state_update_events(old(self).messenger.outbox@,
                                final(self).messenger.outbox@, final(self).tree)
                        }
                    })
                },
                ClientMessage::Unlink { premise, conclusion } => {
                    &&& r is None
                    &&& final(self).ai == old(self).ai
                    &&& ({
                        let pre = old(self).tree;
                        if !pre.valid(premise) || !pre.valid(conclusion) {
                            &&& final(self).tree == pre
                            &&& final(self).messenger.outbox@
                                == old(self).messenger.outbox@.push(
                                (Audience::Sender,
                                ServerMessage::Error(ProofError::NotFound)),
                            )
                        } else if !pre.parents_of(conclusion).contains(premise) {
                            &&& final(self).tree == pre
                            &&& final(self).messenger.outbox@
                                == old(self).messenger.outbox@.push(
                                (Audience::Sender,
                                ServerMessage::Error(ProofError::NotLinked)),
                            )
                        } else {
                            &&& final(self).tree.root == old(self).tree.root
                            &&& final(self).tree.valid(premise)
                            &&& final(self).tree.valid(conclusion)
                            &&& !final(self).tree.has_edge(premise, conclusion)
                            &&& final(self).tree.parents_of(conclusion)
                                == crate::model::remove_id(pre.parents_of(conclusion), premise)
                            &&& !final(self).tree.parents_of(conclusion).contains(premise)
                            &&& final(self).tree.children_of(premise)
                                == crate::model::remove_id(pre.children_of(premise), conclusion)
                            &&& !final(self).tree.children_of(premise).contains(conclusion)
                            &&& final(self).tree.state_of(conclusion) == ProofState::Unproven
                            &&& (forall|x: StatementId| x != premise && x != conclusion
                                ==> pre.unchanged_at(final(self).tree, x))
                            &&& state_update_events(old(self).messenger.outbox@,
                                final(self).messenger.outbox@, final(self).tree)
                        }
                    })
                },
                ClientMessage::ProveDirect { id } => {
                    &&& final(self).tree == old(self).tree
                    &&& (!old(self).tree.valid(id) ==> r is None
                        && final(self).ai == old(self).ai
                        && final(self).messenger.outbox@ == old(self).messenger.outbox@.push(
                            cooldown_event(old(self).max_ai_cooldown_seconds),
                        ).push(
                            (Audience::Sender, ServerMessage::Error(ProofError::NotFound)),
                        ))
                    &&& (old(self).tree.valid(id)
                        && old(self).ai.limiter.available(now_ms as int) >= 1 ==> r is Some
                        && r->0.id == id && r->0.kind == ProofKind::Fact
                        && r->0.request.messages@.len() == 2
                        && r->0.request.messages@[1].content@ == old(self).tree.text_of(id)
                        && final(self).ai.limiter.tokens
                            == old(self).ai.limiter.available(now_ms as int) - 1
                        && final(self).ai.limiter.last_request == now_ms
                        && final(self).messenger.outbox@ == old(self).messenger.outbox@.push(
                            cooldown_event(old(self).max_ai_cooldown_seconds),
                        ))
                    &&& (old(self).tree.valid(id)
                        && old(self).ai.limiter.available(now_ms as int) < 1 ==> r is None
                        && final(self).ai == old(self).ai
                        && failed_comment_event(
                            old(self).messenger.outbox@.push(
                                cooldown_event(old(self).max_ai_cooldown_seconds),
                            ),
                            final(self).messenger.outbox@,
                            id,
                            error_text(AiError::Ratelimited),
                        ))
                },
                ClientMessage::ProveImplication { id } => {
                    &&& final(self).tree == old(self).tree
                    &&& (!old(self).tree.valid(id) ==> r is None
                        && final(self).ai == old(self).ai
                        && final(self).messenger.outbox@ == old(self).messenger.outbox@.push(
                            cooldown_event(old(self).max_ai_cooldown_seconds),
                        ).push(
                            (Audience::Sender, ServerMessage::Error(ProofError::NotFound)),
                        ))
                    &&& (old(self).tree.valid(id)
                        && old(self).tree.parents_of(id).len() == 0 ==> r is None
                        && final(self).ai == old(self).ai
                        && failed_comment_event(
                            old(self).messenger.outbox@.push(
                                cooldown_event(old(self).max_ai_cooldown_seconds),
                            ),
                            final(self).messenger.outbox@,
                            id,
                            "You need to add at least one premise to prove an implication."@,
                        ))
                    &&& (old(self).tree.valid(id)
                        && old(self).tree.parents_of(id).len() > 0
                        && old(self).ai.limiter.available(now_ms as int) >= 1 ==> r is Some
                        && r->0.id == id && r->0.kind == ProofKind::Implication
                        && r->0.request.messages@.len()
                            == old(self).tree.parents_of(id).len() + 3
                        && final(self).ai.limiter.tokens
                            == old(self).ai.limiter.available(now_ms as int) - 1
                        && final(self).ai.limiter.last_request == now_ms
                        && final(self).messenger.outbox@ == old(self).messenger.outbox@.push(
                            cooldown_event(old(self).max_ai_cooldown_seconds),
                        ))
                },
            }),
    {
        match incoming_message {
            ClientMessage::Add { statement } => {
                let id = self.tree.add_node(statement);
                self.messenger.reply(ServerMessage::NewNodeId(id));
                self.push_state_update();
                None
            },
            ClientMessage::GetGameState => {
                self.messenger.reply_tree(&self.tree);
                None
            },
            ClientMessage::Link { premise, conclusion } => {
                match self.tree.link(premise, conclusion) {
                    Ok(()) => self.push_state_update(),
                    Err(e) => self.messenger.reply(ServerMessage::Error(e)),
                }
                None
            },
            ClientMessage::Unlink { premise, conclusion } => {
                match self.tree.unlink(premise, conclusion) {
                    Ok(()) => self.push_state_update(),
                    Err(e) => self.messenger.reply(ServerMessage::Error(e)),
                }
                None
            },
            ClientMessage::Delete { id } => {
                match self.tree.remove_node(id) {
                    Ok(()) => self.push_state_update(),
                    Err(e) => self.messenger.reply(ServerMessage::Error(e)),
                }
                None
            },
            ClientMessage::Edit { id, statement } => {
                match self.tree.change_node_statement(id, statement) {
                    Ok(()) => self.push_state_update(),
                    Err(e) => self.messenger.reply(ServerMessage::Error(e)),
                }
                None
            },
            ClientMessage::ProveDirect { id } => {
                match self.prove_direct(now_ms, id) {
                    Ok(p) => p,
                    Err(e) => {
                        self.messenger.reply(ServerMessage::Error(e));
                        None
                    },
                }
            },
            ClientMessage::ProveImplication { id } => {
                match self.prove_implication(now_ms, id) {
                    Ok(p) => p,
                    Err(e) => {
                        self.messenger.reply(ServerMessage::Error(e));
                        None
                    },
                }
            },
        }
    }
}

} // verus!
