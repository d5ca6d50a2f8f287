use sybl::models::ObjectId;
use sybl::server_pool::{ServerInfo, ServerPool};

#[test]
fn server_information_starts_alive_and_free() {
    let mut info = ServerInfo::new();
    assert!(info.get_alive());
    assert!(!info.get_using());
    info.set_using(true);
    assert!(info.get_using());
    assert!(info.get_alive());
    info.set_alive(false);
    assert!(!info.get_alive());
    assert!(info.get_using());
}

#[test]
fn servers_are_handed_out_once_until_released() {
    let mut pool = ServerPool::new();
    assert_eq!(pool.get(), None);
    let first = pool.add();
    let second = pool.add();
    assert_ne!(first, second);
    assert_eq!(pool.get(), Some(first));
    assert_eq!(pool.get(), Some(second));
    assert_eq!(pool.get(), None);
    pool.end(first);
    assert_eq!(pool.get(), Some(first));
}

#[test]
fn inserting_a_known_server_frees_it() {
    let mut pool = ServerPool::new();
    let id = ObjectId::from_bytes([7; 12]);
    pool.insert_fresh(id);
    assert_eq!(pool.get(), Some(id));
    assert_eq!(pool.get(), None);
    pool.insert_fresh(id);
    assert_eq!(pool.get(), Some(id));
}

#[test]
fn added_servers_are_recorded_alongside_the_others() {
    let mut pool = ServerPool::new();
    let first = pool.add();
    assert_eq!(pool.get(), Some(first));
    let second = pool.add();
    assert!(pool.contains(&first));
    assert!(pool.contains(&second));
    assert_ne!(first, second);
    assert_eq!(pool.get(), Some(second));
    assert_eq!(pool.get(), None);
    assert!(!pool.contains(&ObjectId::from_bytes([0; 12])));
}
