use swap_relay::identity::ConnId;
use swap_relay::registry::{Registration, TokenRegistry};
use swap_relay::table::IdTable;

fn a() -> ConnId {
    ConnId::v4(0x7f00_0001, 40001)
}

fn b() -> ConnId {
    ConnId::v4(0x7f00_0001, 40002)
}

#[test]
fn identity_of_an_ipv4_peer() {
    let id = ConnId::v4(0x0a00_0002, 8080);
    assert_eq!(
        id,
        ConnId { v6: false, ip: 0x0a00_0002, port: 8080, flowinfo: 0, scope_id: 0 }
    );
    assert!(id.same(&ConnId::v4(0x0a00_0002, 8080)));
    assert!(!id.same(&ConnId::v4(0x0a00_0002, 8081)));
    assert!(!id.same(&ConnId { v6: true, ..id }));
}

#[test]
fn empty_registry_knows_nothing() {
    let registry = TokenRegistry::new();
    assert_eq!(registry.len(), 0);
    assert_eq!(registry.token_of(a()), None);
    assert_eq!(registry.holder_of(&"SUI".to_string()), None);
    assert!(!registry.is_registered(a()));
}

#[test]
fn registration_reads_both_ways() {
    let mut registry = TokenRegistry::new();
    assert_eq!(registry.register_token(a(), "SUI".to_string()), Registration::Registered);
    assert_eq!(registry.token_of(a()), Some(&"SUI".to_string()));
    assert_eq!(registry.holder_of(&"SUI".to_string()), Some(a()));
    assert!(registry.is_registered(a()));
    assert_eq!(registry.len(), 1);
}

#[test]
fn lookups_are_mutually_inverse_after_many_operations() {
    let mut registry = TokenRegistry::new();
    let tokens = ["SUI", "BTC", "ETH", "SOL", "ADA"];
    for (i, token) in tokens.iter().enumerate() {
        let id = ConnId::v4(0x7f00_0001, 50000 + i as u16);
        assert_eq!(registry.register_token(id, token.to_string()), Registration::Registered);
    }
    registry.unregister(ConnId::v4(0x7f00_0001, 50001));
    assert_eq!(
        registry.register_token(ConnId::v4(0x7f00_0001, 50003), "BTC".to_string()),
        Registration::Registered
    );
    assert_eq!(
        registry.register_token(ConnId::v4(0x7f00_0001, 50009), "SUI".to_string()),
        Registration::AlreadyTaken
    );
    for token in ["SUI", "BTC", "ETH", "ADA"] {
        let holder = registry.holder_of(&token.to_string()).unwrap();
        assert_eq!(registry.token_of(holder), Some(&token.to_string()));
    }
    assert_eq!(registry.holder_of(&"SOL".to_string()), None);
    for i in 0..5u16 {
        let id = ConnId::v4(0x7f00_0001, 50000 + i);
        if let Some(token) = registry.token_of(id) {
            assert_eq!(registry.holder_of(token), Some(id));
        }
    }
    assert_eq!(registry.len(), 4);
}

#[test]
fn second_claim_of_a_token_is_refused() {
    let mut registry = TokenRegistry::new();
    assert_eq!(registry.register_token(a(), "SUI".to_string()), Registration::Registered);
    assert_eq!(registry.register_token(b(), "SUI".to_string()), Registration::AlreadyTaken);
    assert_eq!(registry.holder_of(&"SUI".to_string()), Some(a()));
    assert_eq!(registry.token_of(a()), Some(&"SUI".to_string()));
    assert_eq!(registry.token_of(b()), None);
    assert_eq!(registry.len(), 1);
}

#[test]
fn repeated_claim_by_the_holder_is_refused_too() {
    let mut registry = TokenRegistry::new();
    assert_eq!(registry.register_token(a(), "SUI".to_string()), Registration::Registered);
    assert_eq!(registry.register_token(a(), "SUI".to_string()), Registration::AlreadyTaken);
    assert_eq!(registry.holder_of(&"SUI".to_string()), Some(a()));
    assert_eq!(registry.len(), 1);
}

#[test]
fn a_new_token_releases_the_old_one() {
    let mut registry = TokenRegistry::new();
    assert_eq!(registry.register_token(a(), "SUI".to_string()), Registration::Registered);
    assert_eq!(registry.register_token(a(), "BTC".to_string()), Registration::Registered);
    assert_eq!(registry.token_of(a()), Some(&"BTC".to_string()));
    assert_eq!(registry.holder_of(&"BTC".to_string()), Some(a()));
    assert_eq!(registry.holder_of(&"SUI".to_string()), None);
    assert_eq!(registry.len(), 1);
    assert_eq!(registry.register_token(b(), "SUI".to_string()), Registration::Registered);
    assert_eq!(registry.len(), 2);
}

#[test]
fn unregister_drops_both_directions() {
    let mut registry = TokenRegistry::new();
    registry.register_token(a(), "SUI".to_string());
    registry.register_token(b(), "BTC".to_string());
    assert_eq!(registry.unregister(a()), Some("SUI".to_string()));
    assert_eq!(registry.token_of(a()), None);
    assert_eq!(registry.holder_of(&"SUI".to_string()), None);
    assert_eq!(registry.token_of(b()), Some(&"BTC".to_string()));
    assert_eq!(registry.holder_of(&"BTC".to_string()), Some(b()));
    assert_eq!(registry.unregister(a()), None);
    assert_eq!(registry.len(), 1);
}

#[test]
fn table_keeps_one_entry_per_identity() {
    let mut table: IdTable<u32> = IdTable::new();
    assert_eq!(table.len(), 0);
    table.insert(a(), 1);
    table.insert(b(), 2);
    table.insert(a(), 3);
    assert_eq!(table.len(), 2);
    assert_eq!(table.get(a()), Some(&3));
    assert_eq!(table.get(b()), Some(&2));
    assert_eq!(table.slot(a()), Some(0));
    assert_eq!(table.key_at(1), b());
    assert_eq!(*table.value_at(1), 2);
    assert!(table.contains(b()));
    assert_eq!(table.remove(a()), Some(3));
    assert_eq!(table.remove(a()), None);
    assert!(!table.contains(a()));
    assert_eq!(table.slot(b()), Some(0));
    assert_eq!(table.remove_at(0), (b(), 2));
    assert_eq!(table.len(), 0);
}

#[test]
fn identity_of_an_ipv6_peer() {
    let id = ConnId::v6(1, 443, 7, 2);
    assert_eq!(id, ConnId { v6: true, ip: 1, port: 443, flowinfo: 7, scope_id: 2 });
    assert!(!id.same(&ConnId::v4(1, 443)));
    assert!(!id.same(&ConnId::v6(1, 443, 7, 3)));
    assert!(id.same(&ConnId::v6(1, 443, 7, 2)));
}
