use titan_events::gateway::{Server, ServerConfig, ServerError};
use titan_events::schema::{event_matches, kind_of, Event};
use titan_events::EventKind;

fn enabled_server() -> Server {
    Server::new(ServerConfig { enable_subscriptions: true })
}

fn disabled_server() -> Server {
    Server::new(ServerConfig { enable_subscriptions: false })
}

#[test]
fn create_then_get_returns_an_equal_record() {
    let mut server = enabled_server();
    let created = server
        .add_subscription(vec![EventKind::NewBlock, EventKind::RuneTransfer])
        .expect("creation succeeds when the feature is enabled");
    let fetched = server.get_subscription(created.id).expect("the created id exists");
    assert_eq!(fetched, created);
}

#[test]
fn delete_then_get_is_not_found() {
    let mut server = enabled_server();
    let created = server.add_subscription(vec![EventKind::NewTransaction]).unwrap();
    assert_eq!(server.delete_subscription(created.id), Ok(()));
    assert_eq!(server.get_subscription(created.id), Err(ServerError::NotFound));
    assert_eq!(server.delete_subscription(created.id), Err(ServerError::NotFound));
}

#[test]
fn assigned_identifiers_are_distinct_and_listed() {
    let mut server = enabled_server();
    let a = server.add_subscription(vec![EventKind::NewBlock]).unwrap();
    let b = server.add_subscription(vec![EventKind::InscriptionRevealed]).unwrap();
    assert_ne!(a.id, b.id);
    let listed = server.subscriptions().unwrap();
    assert_eq!(listed.len(), 2);
    assert!(listed.iter().any(|s| s.id == a.id && s.kinds == a.kinds));
    assert!(listed.iter().any(|s| s.id == b.id && s.kinds == b.kinds));
}

#[test]
fn missing_id_is_not_found() {
    let server = enabled_server();
    assert_eq!(server.get_subscription(12345), Err(ServerError::NotFound));
}

#[test]
fn empty_filter_payload_is_a_client_error() {
    let mut server = enabled_server();
    assert_eq!(server.add_subscription(vec![]), Err(ServerError::BadRequest));
    assert_eq!(server.subscriptions().unwrap().len(), 0);
}

#[test]
fn every_operation_is_a_client_error_when_disabled() {
    let mut server = disabled_server();
    assert_eq!(server.subscriptions(), Err(ServerError::BadRequest));
    assert_eq!(server.get_subscription(0), Err(ServerError::BadRequest));
    assert_eq!(
        server.add_subscription(vec![EventKind::NewBlock]),
        Err(ServerError::BadRequest)
    );
    assert_eq!(server.delete_subscription(0), Err(ServerError::BadRequest));
}

#[test]
fn matching_follows_the_filter() {
    let block = Event::NewBlock { height: 7, hash: vec![] };
    let tx = Event::NewTransaction { txid: vec![0x01] };
    assert_eq!(kind_of(&block), EventKind::NewBlock);
    assert_eq!(kind_of(&tx), EventKind::NewTransaction);
    let filter = vec![EventKind::NewBlock, EventKind::RuneTransfer];
    assert!(event_matches(&block, &filter));
    assert!(!event_matches(&tx, &filter));
    assert!(!event_matches(&block, &vec![]));
}
