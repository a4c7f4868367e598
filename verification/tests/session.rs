use argue::game::{GameState, PendingProve};
use argue::judge::{
    interpret_api_response, AiError, Choice, Message, OpenAi, OpenAiRequest, OpenAiResponse,
    ProofKind, Role, Verdict,
};
use argue::limiter::TokenLimiter;
use argue::model::{ProofState, StatementId};
use argue::ws::{Audience, ClientMessage, Messenger, ServerMessage};

fn test_ai(tokens: u64) -> OpenAi {
    let limiter = TokenLimiter::new(10, 0).inital_tokens(tokens).token_refresh_rate(1, 60_000);
    OpenAi::new(
        String::from("gpt-test"),
        String::from("SECRET-REDACTED"),
        String::from("https://judge.example/v1/chat/completions"),
        limiter,
        String::from("Answer [TRUE] or [FALSE]."),
        String::from("Therefore:"),
    )
}

fn session(root: &str, tokens: u64) -> GameState {
    GameState::new(String::from(root), 30, test_ai(tokens), Messenger::new())
}

fn answer(text: &str) -> OpenAiResponse {
    OpenAiResponse {
        choices: vec![Choice { message: Message::new(Role::User, String::from(text)) }],
    }
}

fn added_id(gs: &mut GameState, text: &str) -> StatementId {
    gs.on_incoming_message(0, ClientMessage::Add { statement: String::from(text) });
    let events = gs.messenger.drain();
    for (_, m) in events {
        if let ServerMessage::NewNodeId(id) = m {
            return id;
        }
    }
    panic!("no NewNodeId event");
}

fn count_wins(events: &[(Audience, ServerMessage)]) -> usize {
    events.iter().filter(|(_, m)| matches!(m, ServerMessage::Win)).count()
}

fn state_of(gs: &GameState, id: StatementId) -> ProofState {
    gs.tree.statements[id.slot].node.as_ref().unwrap().state
}

#[test]
fn empty_choice_list_is_rejected() {
    let resp = OpenAiResponse { choices: vec![] };
    assert!(matches!(interpret_api_response(&resp), Err(AiError::NoChoices)));
    assert!(matches!(interpret_api_response(&answer("[TRUE]")), Ok(Verdict::True)));
}

#[test]
fn request_assembly_for_facts() {
    let mut ai = test_ai(5);
    let req: OpenAiRequest = ai.check_fact(0, String::from("Snow is white")).unwrap();
    assert_eq!(req.model, "gpt-test");
    assert_eq!(req.messages.len(), 2);
    assert!(matches!(req.messages[0].role, Role::System));
    assert_eq!(req.messages[0].content, "Answer [TRUE] or [FALSE].");
    assert!(matches!(req.messages[1].role, Role::User));
    assert_eq!(req.messages[1].content, "Snow is white");
}

#[test]
fn request_assembly_for_implications() {
    let mut ai = test_ai(5);
    let premises = vec![String::from("p"), String::from("q")];
    let req = ai.check_implication(0, premises, String::from("r")).unwrap();
    assert_eq!(req.messages.len(), 5);
    assert_eq!(req.messages[1].content, "- p");
    assert_eq!(req.messages[2].content, "- q");
    assert_eq!(req.messages[3].content, "Therefore:");
    assert_eq!(req.messages[4].content, "- r");
}

#[test]
fn rate_limited_requests_are_refused() {
    let mut ai = test_ai(0);
    assert!(ai.is_rate_limited(0));
    assert!(matches!(
        ai.check_fact(0, String::from("x")),
        Err(AiError::Ratelimited)
    ));
    // after a minute one token has refilled
    assert!(!ai.is_rate_limited(60_000));
    assert!(ai.check_fact(60_000, String::from("x")).is_ok());
}

#[test]
fn rate_limited_prove_comments_failure() {
    let mut gs = session("root", 0);
    let root = gs.tree.root;
    let r = gs.on_incoming_message(0, ClientMessage::ProveDirect { id: root });
    assert!(r.is_none());
    let events = gs.messenger.drain();
    assert!(matches!(&events[0].1, ServerMessage::AICooldown { seconds: 30 }));
    match &events[1].1 {
        ServerMessage::Comment { id, comment, success } => {
            assert_eq!(*id, root);
            assert_eq!(comment, "The AI is reatelimited.");
            assert!(!success);
        },
        other => panic!("unexpected event: {:?}", other),
    }
}

#[test]
fn implication_needs_a_premise() {
    let mut gs = session("root", 5);
    let root = gs.tree.root;
    let r = gs.on_incoming_message(0, ClientMessage::ProveImplication { id: root });
    assert!(r.is_none());
    let events = gs.messenger.drain();
    match &events[1].1 {
        ServerMessage::Comment { comment, success, .. } => {
            assert_eq!(comment, "You need to add at least one premise to prove an implication.");
            assert!(!success);
        },
        other => panic!("unexpected event: {:?}", other),
    }
}

#[test]
fn transport_failure_comments_and_keeps_graph() {
    let mut gs = session("root", 5);
    let root = gs.tree.root;
    let pending = gs
        .on_incoming_message(0, ClientMessage::ProveDirect { id: root })
        .expect("a pending judge call");
    gs.messenger.drain();
    gs.on_judge_result(pending, Err(AiError::RewestError(String::from("timed out"))));
    assert_eq!(state_of(&gs, root), ProofState::Unproven);
    let events = gs.messenger.drain();
    assert_eq!(events.len(), 1);
    match &events[0].1 {
        ServerMessage::Comment { comment, success, .. } => {
            assert_eq!(comment, "Request Error: timed out");
            assert!(!success);
        },
        other => panic!("unexpected event: {:?}", other),
    }
}

#[test]
fn false_verdict_leaves_graph_unchanged() {
    let mut gs = session("root", 5);
    let root = gs.tree.root;
    let pending = gs
        .on_incoming_message(0, ClientMessage::ProveDirect { id: root })
        .expect("a pending judge call");
    gs.messenger.drain();
    gs.on_judge_result(pending, Ok(answer("[FALSE] nope")));
    assert_eq!(state_of(&gs, root), ProofState::Unproven);
    let events = gs.messenger.drain();
    assert_eq!(count_wins(&events), 0);
    match &events[0].1 {
        ServerMessage::Comment { comment, success, .. } => {
            assert_eq!(comment, "[FALSE] nope");
            assert!(!success);
        },
        other => panic!("unexpected event: {:?}", other),
    }
}

#[test]
fn structural_errors_are_replied_not_broadcast() {
    let mut gs = session("root", 5);
    let root = gs.tree.root;
    gs.messenger.drain();
    gs.on_incoming_message(0, ClientMessage::Link { premise: root, conclusion: root });
    let events = gs.messenger.drain();
    assert_eq!(events.len(), 1);
    assert!(matches!(events[0].0, Audience::Sender));
    assert!(matches!(
        &events[0].1,
        ServerMessage::Error(argue::model::ProofError::SelfLink)
    ));
}

#[test]
fn socrates_end_to_end() {
    let mut gs = session("Socrates is mortal", 10);
    let root = gs.tree.root;
    let man = added_id(&mut gs, "Socrates is a man");
    let mortal = added_id(&mut gs, "All men are mortal");
    gs.on_incoming_message(0, ClientMessage::Link { premise: man, conclusion: root });
    gs.on_incoming_message(0, ClientMessage::Link { premise: mortal, conclusion: root });
    gs.messenger.drain();

    // the implication is accepted, but the premises are still unproven
    let pending: PendingProve = gs
        .on_incoming_message(0, ClientMessage::ProveImplication { id: root })
        .expect("a pending judge call");
    assert!(matches!(pending.kind, ProofKind::Implication));
    gs.on_judge_result(pending, Ok(answer("[TRUE]")));
    assert_eq!(state_of(&gs, root), ProofState::ImpliedProven);
    assert!(!gs.tree.proof_complete());
    let events = gs.messenger.drain();
    assert_eq!(count_wins(&events), 0);

    // proving the first premise does not finish the game yet
    let pending = gs
        .on_incoming_message(1, ClientMessage::ProveDirect { id: man })
        .expect("a pending judge call");
    gs.on_judge_result(pending, Ok(answer("[TRUE] by definition")));
    assert_eq!(state_of(&gs, man), ProofState::DirectlyProven);
    assert!(!gs.tree.proof_complete());
    assert_eq!(count_wins(&gs.messenger.drain()), 0);

    // proving the second premise completes the proof: one win broadcast
    let pending = gs
        .on_incoming_message(2, ClientMessage::ProveDirect { id: mortal })
        .expect("a pending judge call");
    gs.on_judge_result(pending, Ok(answer("[TRUE] indeed")));
    assert!(gs.tree.proof_complete());
    let events = gs.messenger.drain();
    assert_eq!(count_wins(&events), 1);
    let win_pos = events.iter().position(|(_, m)| matches!(m, ServerMessage::Win)).unwrap();
    assert!(matches!(events[win_pos].0, Audience::Everyone));
}

#[test]
fn get_state_is_unicast() {
    let mut gs = session("root", 5);
    gs.messenger.drain();
    gs.on_incoming_message(0, ClientMessage::GetGameState);
    let events = gs.messenger.drain();
    assert_eq!(events.len(), 1);
    assert!(matches!(events[0].0, Audience::Sender));
    assert!(matches!(&events[0].1, ServerMessage::GameState(_)));
}

#[test]
fn default_config_is_disabled() {
    let cfg = argue::config::Config::default();
    assert_eq!(cfg.address, "0.0.0.0:3000");
    assert_eq!(cfg.serve_dir, "argue-react/dist");
    assert!(!cfg.openai.enabled);
    assert!(!cfg.google_gemini.enabled);
    assert_eq!(cfg.openai.rate_limit, Some(0));
}
