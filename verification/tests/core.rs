use argue::judge::{interprete_response, AiError, Verdict};
use argue::limiter::TokenLimiter;
use argue::model::{ProofError, ProofState, StatementTree};

fn state_of(tree: &StatementTree, id: argue::model::StatementId) -> ProofState {
    tree.statements[id.slot].node.as_ref().unwrap().state
}

fn parents_of(tree: &StatementTree, id: argue::model::StatementId) -> Vec<argue::model::StatementId> {
    tree.statements[id.slot].node.as_ref().unwrap().parents.clone()
}

fn children_of(tree: &StatementTree, id: argue::model::StatementId) -> Vec<argue::model::StatementId> {
    tree.statements[id.slot].node.as_ref().unwrap().children.clone()
}

#[test]
fn bucket_consume_and_refill() {
    // capacity 2, one token per second, starting full
    let mut b = TokenLimiter::new(2, 0).inital_tokens(2).token_refresh_rate(1, 1000);
    assert!(!b.is_limited(0));
    assert!(b.consume(0));
    assert!(b.consume(0));
    assert!(!b.consume(0));
    assert!(b.is_limited(0));
    // tokens refill monotonically with elapsed time
    assert_eq!(b.tokens_since(500), 0);
    assert_eq!(b.tokens_since(1000), 1);
    assert_eq!(b.tokens_since(1500), 1);
    assert!(!b.is_limited(1000));
    assert!(b.consume(1000));
    assert!(b.is_limited(1000));
}

#[test]
fn bucket_never_exceeds_capacity() {
    let mut b = TokenLimiter::new(3, 0).inital_tokens(3).token_refresh_rate(10, 1000);
    // a long idle gap refills at most to the capacity
    assert_eq!(b.tokens_since(1_000_000), 3);
    b.update_tokens(1_000_000);
    assert_eq!(b.tokens, 3);
    // an oversized initial count is clamped
    let c = TokenLimiter::new(2, 0).inital_tokens(100);
    assert_eq!(c.tokens, 2);
}

#[test]
fn bucket_limited_iff_zero() {
    let mut b = TokenLimiter::new(5, 0).inital_tokens(1).token_refresh_rate(1, 60_000);
    assert!(!b.is_limited(0));
    assert!(b.consume(0));
    assert!(b.is_limited(0));
    assert!(!b.is_limited(60_000));
}

#[test]
fn add_edit_and_lookup() {
    let mut tree = StatementTree::new(String::from("root"));
    let root = tree.root;
    assert_eq!(tree.get_statement(root).unwrap(), "root");
    let a = tree.add_node(String::from("first"));
    assert_eq!(tree.get_statement(a).unwrap(), "first");
    assert_eq!(state_of(&tree, a), ProofState::Unproven);
    tree.change_node_statement(a, String::from("second")).unwrap();
    assert_eq!(tree.get_statement(a).unwrap(), "second");
}

#[test]
fn self_link_always_fails() {
    let mut tree = StatementTree::new(String::from("root"));
    let root = tree.root;
    assert_eq!(tree.link(root, root), Err(ProofError::SelfLink));
    let a = tree.add_node(String::from("a"));
    assert_eq!(tree.link(a, a), Err(ProofError::SelfLink));
}

#[test]
fn link_rejects_cycles() {
    let mut tree = StatementTree::new(String::from("c"));
    let c = tree.root;
    let a = tree.add_node(String::from("a"));
    let b = tree.add_node(String::from("b"));
    // a -> b -> c
    tree.link(a, b).unwrap();
    tree.link(b, c).unwrap();
    // closing the loop in either span must fail
    assert_eq!(tree.link(b, a), Err(ProofError::WouldCreateCycle));
    assert_eq!(tree.link(c, a), Err(ProofError::WouldCreateCycle));
    // an unrelated edge is still fine
    tree.link(a, c).unwrap();
}

#[test]
fn stale_ids_go_not_found() {
    let mut tree = StatementTree::new(String::from("root"));
    let a = tree.add_node(String::from("a"));
    tree.remove_node(a).unwrap();
    assert_eq!(tree.get_statement(a), Err(ProofError::NotFound));
    assert_eq!(tree.change_node_statement(a, String::from("x")), Err(ProofError::NotFound));
    assert_eq!(tree.remove_node(a), Err(ProofError::NotFound));
    assert_eq!(tree.link(a, tree.root), Err(ProofError::NotFound));
    // a slot reused after deletion carries a newer generation:
    // the stale handle must not alias the new statement
    let b = tree.add_node(String::from("b"));
    assert_eq!(b.slot, a.slot);
    assert_ne!(b.generation, a.generation);
    assert_eq!(tree.get_statement(a), Err(ProofError::NotFound));
}

#[test]
fn delete_cascades() {
    let mut tree = StatementTree::new(String::from("root"));
    let root = tree.root;
    let x = tree.add_node(String::from("x"));
    let y = tree.add_node(String::from("y"));
    tree.link(x, root).unwrap();
    tree.link(y, x).unwrap();
    tree.remove_node(x).unwrap();
    for id in [root, y] {
        assert!(!parents_of(&tree, id).contains(&x));
        assert!(!children_of(&tree, id).contains(&x));
    }
    assert_eq!(tree.get_statement(x), Err(ProofError::NotFound));
}

#[test]
fn root_cannot_be_deleted() {
    let mut tree = StatementTree::new(String::from("root"));
    let root = tree.root;
    assert_eq!(tree.remove_node(root), Err(ProofError::CannotDeleteRoot));
    assert_eq!(tree.get_statement(root).unwrap(), "root");
}

#[test]
fn unlink_requires_edge() {
    let mut tree = StatementTree::new(String::from("root"));
    let root = tree.root;
    let a = tree.add_node(String::from("a"));
    assert_eq!(tree.unlink(a, root), Err(ProofError::NotLinked));
    tree.link(a, root).unwrap();
    tree.unlink(a, root).unwrap();
    assert!(!parents_of(&tree, root).contains(&a));
    assert!(!children_of(&tree, a).contains(&root));
    assert_eq!(tree.unlink(a, root), Err(ProofError::NotLinked));
}

#[test]
fn edit_link_unlink_reset_proof_state() {
    let mut tree = StatementTree::new(String::from("root"));
    let root = tree.root;
    let a = tree.add_node(String::from("a"));

    tree.set_directly_proven(root).unwrap();
    assert_eq!(state_of(&tree, root), ProofState::DirectlyProven);
    tree.change_node_statement(root, String::from("edited")).unwrap();
    assert_eq!(state_of(&tree, root), ProofState::Unproven);

    tree.set_directly_proven(root).unwrap();
    tree.link(a, root).unwrap();
    assert_eq!(state_of(&tree, root), ProofState::Unproven);

    tree.set_implied(root).unwrap();
    assert_eq!(state_of(&tree, root), ProofState::ImpliedProven);
    tree.unlink(a, root).unwrap();
    assert_eq!(state_of(&tree, root), ProofState::Unproven);
}

#[test]
fn completeness_scenarios() {
    // only the root, directly proven: complete
    let mut t1 = StatementTree::new(String::from("root"));
    assert!(!t1.proof_complete());
    t1.set_directly_proven(t1.root).unwrap();
    assert!(t1.proof_complete());

    // root implied from two directly proven premises: complete
    let mut t2 = StatementTree::new(String::from("root"));
    let root = t2.root;
    let p1 = t2.add_node(String::from("p1"));
    let p2 = t2.add_node(String::from("p2"));
    t2.link(p1, root).unwrap();
    t2.link(p2, root).unwrap();
    t2.set_directly_proven(p1).unwrap();
    t2.set_directly_proven(p2).unwrap();
    assert!(!t2.proof_complete());
    t2.set_implied(root).unwrap();
    assert!(t2.proof_complete());

    // removing the proof from either premise breaks completeness
    t2.change_node_statement(p1, String::from("p1 again")).unwrap();
    assert!(!t2.proof_complete());
    t2.set_directly_proven(p1).unwrap();
    assert!(t2.proof_complete());
}

#[test]
fn implied_without_premises_is_incomplete() {
    let mut tree = StatementTree::new(String::from("root"));
    let root = tree.root;
    let p = tree.add_node(String::from("p"));
    tree.link(p, root).unwrap();
    tree.set_implied(root).unwrap();
    tree.set_directly_proven(p).unwrap();
    assert!(tree.proof_complete());
    // deleting the only premise leaves the root implied but unsupported
    tree.remove_node(p).unwrap();
    assert!(!tree.proof_complete());
}

#[test]
fn snapshot_lists_every_statement() {
    let mut tree = StatementTree::new(String::from("root"));
    let a = tree.add_node(String::from("a"));
    let b = tree.add_node(String::from("b"));
    tree.link(a, tree.root).unwrap();
    tree.remove_node(b).unwrap();
    let dto = tree.as_dto();
    assert_eq!(dto.root, tree.root);
    assert_eq!(dto.nodes.len(), 2);
    let entry = dto.nodes.iter().find(|n| n.id == a).unwrap();
    assert_eq!(entry.statement, "a");
    assert!(entry.children.contains(&tree.root));
    assert!(!dto.nodes.iter().any(|n| n.id == b));
}

#[test]
fn judge_parsing() {
    assert!(matches!(interprete_response("[TRUE] because X"), Ok(Verdict::True)));
    assert!(matches!(interprete_response("[FALSE] nope"), Ok(Verdict::False)));
    assert!(matches!(interprete_response("maybe"), Err(AiError::WrongFormat)));
    assert!(matches!(interprete_response(""), Err(AiError::WrongFormat)));
    assert!(matches!(interprete_response("[TRUE]"), Ok(Verdict::True)));
    // the token must lead the answer
    assert!(matches!(interprete_response("well, [TRUE]"), Err(AiError::WrongFormat)));
}

#[test]
fn error_messages() {
    assert_eq!(AiError::NoChoices.message(), "The AI gave no results.");
    assert_eq!(AiError::WrongFormat.message(), "The AI returned in the wrong format.");
    assert_eq!(AiError::Ratelimited.message(), "The AI is reatelimited.");
    assert_eq!(
        AiError::RewestError(String::from("timed out")).message(),
        "Request Error: timed out"
    );
}
