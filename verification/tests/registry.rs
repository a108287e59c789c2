use socket_server::registry::{ClientRegistry, ConnectedClient};

#[test]
fn registering_distinct_ids_keeps_each() {
    let ids: Vec<u32> = vec![7, 1, 4_000_000_000, 0, 42];
    let mut registry: ClientRegistry<String> = ClientRegistry::new();
    assert!(registry.is_empty());
    for id in &ids {
        assert!(registry.register(ConnectedClient::new(*id, format!("h{}", id))).is_none());
    }
    assert_eq!(registry.len(), ids.len());
    for id in &ids {
        assert!(registry.contains(*id));
        let client = registry.get(*id).unwrap();
        assert_eq!(client.id(), *id);
        assert_eq!(client.stream(), &format!("h{}", id));
    }
    assert!(!registry.contains(2));
    assert!(registry.get(2).is_none());
    for id in &ids {
        let removed = registry.remove(*id).unwrap();
        assert_eq!(removed.id, *id);
    }
    assert_eq!(registry.len(), 0);
    assert!(registry.is_empty());
}

#[test]
fn second_registration_displaces_the_first() {
    let mut registry: ClientRegistry<&str> = ClientRegistry::new();
    assert!(registry.register(ConnectedClient::new(5, "first")).is_none());
    let displaced = registry.register(ConnectedClient::new(5, "second")).unwrap();
    assert_eq!(displaced.stream, "first");
    assert_eq!(registry.len(), 1);
    assert_eq!(registry.get(5).unwrap().stream, "second");
}

#[test]
fn removing_an_absent_id_changes_nothing() {
    let mut registry: ClientRegistry<u8> = ClientRegistry::new();
    registry.register(ConnectedClient::new(1, 10));
    assert!(registry.remove(2).is_none());
    assert_eq!(registry.len(), 1);
    assert!(registry.contains(1));
}
