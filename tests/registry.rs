use cvterm::app::App;
use cvterm::ids::IdAllocator;
use cvterm::registry::{ClientSession, DataOutcome, Geometry, RegistryError, SessionRegistry};

fn doc(lines: usize) -> String {
    let mut s = String::new();
    for i in 0..lines {
        s.push_str(&format!("line {}\n", i));
    }
    s
}

fn session(lines: usize) -> ClientSession {
    ClientSession {
        app: App::with_document(doc(lines), String::from("welcome"), 0),
        geometry: Geometry::empty(),
    }
}

fn scroll_of(r: &SessionRegistry, id: usize) -> usize {
    r.get(id).unwrap().app.scroll_position
}

#[test]
fn j_j_k_leaves_offset_one() {
    let mut r = SessionRegistry::new();
    r.insert(1, session(40)).unwrap();
    assert_eq!(r.on_data(1, b"j"), DataOutcome::Applied);
    assert_eq!(r.on_data(1, b"j"), DataOutcome::Applied);
    assert_eq!(r.on_data(1, b"k"), DataOutcome::Applied);
    assert_eq!(scroll_of(&r, 1), 1);
}

#[test]
fn five_downs_cap_at_four() {
    let mut r = SessionRegistry::new();
    r.insert(1, session(20)).unwrap();
    assert_eq!(r.get(1).unwrap().app.total_lines, 20);
    for _ in 0..5 {
        r.on_data(1, b"j");
    }
    assert_eq!(scroll_of(&r, 1), 4);
}

#[test]
fn tick_advances_every_session_alone() {
    let mut r = SessionRegistry::new();
    r.insert(1, session(40)).unwrap();
    r.insert(2, session(40)).unwrap();
    r.on_data(1, b"j");
    r.resize(2, 80, 24);
    r.tick_all(25);
    let a = &r.get(1).unwrap();
    let b = &r.get(2).unwrap();
    assert_eq!(a.app.current_frame, 1);
    assert_eq!(b.app.current_frame, 1);
    assert_eq!(a.app.scroll_position, 1);
    assert_eq!(b.app.scroll_position, 0);
    assert_eq!(a.geometry, Geometry { width: 0, height: 0 });
    assert_eq!(b.geometry, Geometry { width: 80, height: 24 });
}

#[test]
fn close_around_sweep_leaves_session_absent() {
    let mut r = SessionRegistry::new();
    r.insert(1, session(40)).unwrap();
    r.insert(2, session(40)).unwrap();
    r.tick_all(25);
    assert!(r.remove(1).is_some());
    r.tick_all(50);
    assert!(r.remove_finished().is_empty());
    assert!(!r.contains(1));
    assert_eq!(r.get(2).unwrap().app.current_frame, 2);

    r.insert(3, session(40)).unwrap();
    assert!(r.stop(3));
    r.tick_all(75);
    assert_eq!(r.remove_finished(), vec![3]);
    assert!(!r.contains(3));
    assert!(r.remove(3).is_none());
}

#[test]
fn ctrl_c_stops_and_removes_session() {
    let mut r = SessionRegistry::new();
    r.insert(7, session(40)).unwrap();
    r.on_data(7, b"j");
    r.on_data(7, b"j");
    r.tick_all(500);
    assert_eq!(r.on_data(7, &[0x03]), DataOutcome::Closed);
    assert!(!r.contains(7));
    assert_eq!(r.on_data(7, b"j"), DataOutcome::NoSession);
}

#[test]
fn quit_closes_session() {
    let mut r = SessionRegistry::new();
    r.insert(7, session(40)).unwrap();
    assert_eq!(r.on_data(7, b"q"), DataOutcome::Closed);
    assert!(r.get(7).is_none());
}

#[test]
fn unmapped_bytes_are_ignored() {
    let mut r = SessionRegistry::new();
    r.insert(7, session(40)).unwrap();
    assert_eq!(r.on_data(7, b"x"), DataOutcome::Ignored);
    assert_eq!(r.on_data(8, b"x"), DataOutcome::Ignored);
    assert_eq!(scroll_of(&r, 7), 0);
}

#[test]
fn remove_twice_equals_remove_once() {
    let mut r = SessionRegistry::new();
    r.insert(1, session(40)).unwrap();
    r.insert(2, session(40)).unwrap();
    assert!(r.remove(1).is_some());
    assert!(r.remove(1).is_none());
    assert!(!r.contains(1));
    assert!(r.contains(2));
    assert_eq!(r.ids(), vec![2]);
}

#[test]
fn duplicate_insert_is_refused() {
    let mut r = SessionRegistry::new();
    r.insert(1, session(40)).unwrap();
    r.on_data(1, b"j");
    assert_eq!(r.insert(1, session(10)), Err(RegistryError::DuplicateId));
    assert_eq!(scroll_of(&r, 1), 1);
    assert_eq!(r.get(1).unwrap().app.total_lines, 40);
}

#[test]
fn resize_keeps_progress_and_ignores_unknown_ids() {
    let mut r = SessionRegistry::new();
    r.insert(1, session(40)).unwrap();
    r.on_data(1, b"j");
    r.tick_all(10);
    assert!(r.resize(1, 120, 40));
    let s = r.get(1).unwrap();
    assert_eq!(s.geometry, Geometry { width: 120, height: 40 });
    assert_eq!(s.app.scroll_position, 1);
    assert_eq!(s.app.current_frame, 1);
    assert!(!r.resize(9, 10, 10));
    assert!(!r.stop(9));
    assert!(!r.contains(9));
}

#[test]
fn ids_lists_each_session_once() {
    let mut r = SessionRegistry::new();
    for id in [5, 3, 9] {
        r.insert(id, session(1)).unwrap();
    }
    let mut ids = r.ids();
    ids.sort();
    assert_eq!(ids, vec![3, 5, 9]);
}

#[test]
fn allocator_hands_out_fresh_ids() {
    let mut ids = IdAllocator::new();
    assert_eq!(ids.allocate(), Some(0));
    assert_eq!(ids.allocate(), Some(1));
    assert_eq!(ids.allocate(), Some(2));
}
