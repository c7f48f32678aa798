use quic::addr::SocketAddress;
use quic::error::{Error, Reason};
use quic::migration::{MigrationConfig, MigrationManager, PathState};
use quic::time::{Duration, Instant};

fn start() -> Instant {
    Instant::from_nanos(1_000_000_000)
}

fn addr(last: u32, port: u16) -> SocketAddress {
    SocketAddress::V4 { ip: 0x7f00_0000 + last, port }
}

#[test]
fn test_migration_manager_creation() {
    let config = MigrationConfig::default();
    let mut manager = MigrationManager::new(config);

    let local = addr(1, 8080);
    let remote = addr(1, 8081);

    let path_id = manager.init_primary_path(local, remote, start()).unwrap();
    assert_eq!(path_id, 0);

    let active_path = manager.get_active_path().unwrap();
    assert_eq!(active_path.local_addr, local);
    assert_eq!(active_path.remote_addr, remote);
}

#[test]
fn test_path_validation() {
    let config = MigrationConfig::default();
    let mut manager = MigrationManager::new(config);

    manager.init_primary_path(addr(1, 8080), addr(1, 8081), start()).unwrap();

    // Start validation for a new path
    let local2 = addr(2, 8080);
    let remote2 = addr(2, 8081);

    let (path_id, challenge) = manager.start_path_validation(local2, remote2, start()).unwrap();
    assert_eq!(path_id, 1);
    assert_eq!(challenge.len(), 8);

    // Simulate PATH_RESPONSE
    let validated_path = manager.handle_path_response(&challenge, remote2, start()).unwrap();
    assert_eq!(validated_path, Some(1));
}

#[test]
fn test_connection_migration() {
    let config = MigrationConfig::default();
    let mut manager = MigrationManager::new(config);

    manager.init_primary_path(addr(1, 8080), addr(1, 8081), start()).unwrap();

    // Add and validate a new path
    let local2 = addr(2, 8080);
    let remote2 = addr(2, 8081);

    let (path_id, challenge) = manager.start_path_validation(local2, remote2, start()).unwrap();
    manager.handle_path_response(&challenge, remote2, start()).unwrap();

    // Migrate to the new path
    manager.migrate_to_path(path_id).unwrap();

    let active_path = manager.get_active_path().unwrap();
    assert_eq!(active_path.path_id, path_id);
    assert_eq!(active_path.remote_addr, remote2);
}

#[test]
fn path_challenges_are_random() {
    let mut manager = MigrationManager::new(MigrationConfig::default());
    let (_, a) = manager.start_path_validation(addr(1, 1), addr(2, 1), start()).unwrap();
    let (_, b) = manager.start_path_validation(addr(1, 2), addr(2, 2), start()).unwrap();
    assert_ne!(a, b);
    assert_ne!(a, [0u8; 8]);
}

#[test]
fn only_validated_paths_are_used() {
    let mut manager = MigrationManager::new(MigrationConfig::default());
    assert_eq!(manager.get_active_path().unwrap_err(), Error::Internal(Reason::Text("Active path not found")));
    manager.init_primary_path(addr(1, 1), addr(2, 1), start()).unwrap();
    let challenge = vec![1, 2, 3, 4, 5, 6, 7, 8];
    let (id, _) = manager
        .begin_path_validation(addr(1, 2), addr(2, 2), Some(challenge.clone()), start())
        .unwrap();
    assert_eq!(
        manager.migrate_to_path(id).unwrap_err(),
        Error::Internal(Reason::Text("Path still being validated"))
    );
    assert_eq!(manager.migrate_to_path(77).unwrap_err(), Error::Internal(Reason::Text("Path not found")));

    // Wrong data, or the wrong address
    let wrong = [8, 7, 6, 5, 4, 3, 2, 1];
    assert_eq!(manager.handle_path_response(&wrong, addr(2, 2), start()).unwrap(), None);
    assert_eq!(manager.handle_path_response(&challenge, addr(2, 3), start()).unwrap(), None);
    assert_eq!(
        manager.handle_path_response(&[1, 2], addr(2, 2), start()).unwrap_err(),
        Error::ProtocolViolation(Reason::Text("Invalid PATH_RESPONSE data"))
    );

    let later = start().after(Duration::from_millis(30));
    assert_eq!(manager.handle_path_response(&challenge, addr(2, 2), later).unwrap(), Some(id));
    manager.migrate_to_path(id).unwrap();
    match manager.get_active_path().unwrap().state {
        PathState::Active { rtt, .. } => assert_eq!(rtt, Duration::from_millis(30)),
        _ => panic!("Expected a validated path"),
    }
    assert_eq!(manager.retire_path(id).unwrap_err(), Error::Internal(Reason::Text("Cannot retire active path")));
    manager.retire_path(0).unwrap();
    assert_eq!(manager.retire_path(0).unwrap_err(), Error::Internal(Reason::Text("Path not found")));
}

#[test]
fn paths_are_limited() {
    let mut manager = MigrationManager::new(MigrationConfig::default());
    for i in 0..4 {
        manager.start_path_validation(addr(1, i), addr(2, i), start()).unwrap();
    }
    assert_eq!(
        manager.start_path_validation(addr(1, 0), addr(2, 0), start()).unwrap_err(),
        Error::Internal(Reason::Text("Path already exists"))
    );
    assert_eq!(
        manager.start_path_validation(addr(1, 9), addr(2, 9), start()).unwrap_err(),
        Error::Internal(Reason::Text("Maximum paths reached"))
    );
    assert_eq!(manager.get_all_paths().len(), 4);
    manager.retire_path(2).unwrap();
    assert_eq!(
        manager.begin_path_validation(addr(1, 9), addr(2, 9), None, start()).unwrap_err(),
        Error::Internal(Reason::Text("RNG failure"))
    );
}

#[test]
fn unanswered_challenges_time_out() {
    let config = MigrationConfig { max_validation_attempts: 1, ..Default::default() };
    let mut manager = MigrationManager::new(config);
    let (id, _) = manager.start_path_validation(addr(1, 1), addr(2, 1), start()).unwrap();
    let edge = start().after(config.validation_timeout);
    assert!(manager.check_validation_timeouts(edge).is_empty());
    let later = edge.after(Duration::from_nanos(1));
    assert_eq!(manager.check_validation_timeouts(later), [id]);
    assert_eq!(
        manager.migrate_to_path(id).unwrap_err(),
        Error::Internal(Reason::Text("Path validation failed: Validation timeout"))
    );
    assert!(manager.check_validation_timeouts(later).is_empty());
}

#[test]
fn migration_follows_the_local_address() {
    let mut manager = MigrationManager::new(MigrationConfig::default());
    assert!(!manager.check_migration_needed(addr(1, 1)));
    manager.init_primary_path(addr(1, 1), addr(2, 1), start()).unwrap();
    assert!(!manager.check_migration_needed(addr(1, 1)));
    assert!(manager.check_migration_needed(addr(3, 1)));
    manager.update_path_mtu(0, 1452).unwrap();
    assert_eq!(manager.get_active_path().unwrap().max_packet_size, 1452);
    assert_eq!(
        manager.update_path_mtu(5, 1452).unwrap_err(),
        Error::Internal(Reason::Text("Path not found"))
    );
    let answer = manager.handle_path_challenge(&[1, 2, 3, 4, 5, 6, 7, 8], addr(2, 1)).unwrap();
    assert_eq!(answer, [1, 2, 3, 4, 5, 6, 7, 8]);
    assert_eq!(
        manager.handle_path_challenge(&[1], addr(2, 1)).unwrap_err(),
        Error::ProtocolViolation(Reason::Text("Invalid PATH_CHALLENGE data"))
    );
    let config = MigrationConfig { enable_auto_migration: false, ..Default::default() };
    let mut fixed = MigrationManager::new(config);
    fixed.init_primary_path(addr(1, 1), addr(2, 1), start()).unwrap();
    assert!(!fixed.check_migration_needed(addr(3, 1)));
}
