use estros::cpu_state::State;
use estros::threads::{SchedulerThread, ThreadError, ThreadStore};

#[test]
fn thread_at_location_has_zero_registers() {
    let t = SchedulerThread::at(0x8000);
    assert_eq!(t.state.elr, 0x8000);
    assert!(t.state.x.iter().all(|&r| r == 0));
    let d = SchedulerThread::default();
    assert_eq!(d.state.elr, 0);
}

#[test]
fn spawn_hands_out_increasing_ids() {
    let mut store = ThreadStore::new();
    assert_eq!(store.len(), 0);
    let a = store.spawn(SchedulerThread::at(1));
    let b = store.spawn(SchedulerThread::at(2));
    let c = store.spawn(SchedulerThread::at(3));
    assert_eq!((a, b, c), (1, 2, 3));
    assert_eq!(store.len(), 3);
    assert_eq!(store.get(2).unwrap().state.elr, 2);
}

#[test]
fn removed_ids_are_not_reused() {
    let mut store = ThreadStore::new();
    store.spawn(SchedulerThread::at(1));
    let b = store.spawn(SchedulerThread::at(2));
    assert_eq!(store.remove(b), Ok(()));
    assert_eq!(store.remove(b), Err(ThreadError::InvalidTid));
    assert!(store.get(b).is_err());
    assert_eq!(store.running_tid(), 2);
    let c = store.spawn(SchedulerThread::at(3));
    assert_eq!(c, 3);
    assert_eq!(store.running_tid(), 3);
    assert_eq!(store.len(), 2);
}

#[test]
fn missing_thread_is_invalid_tid() {
    let mut store = ThreadStore::new();
    assert_eq!(store.get(0).err(), Some(ThreadError::InvalidTid));
    assert!(store.get_mut(5).is_err());
    assert_eq!(store.report_thread_state(5, State::default()), Err(ThreadError::InvalidTid));
    assert_eq!(ThreadError::InvalidTid.message(), "Invalid Tid");
}

#[test]
fn report_then_get_returns_reported_state() {
    let mut store = ThreadStore::new();
    let t = store.spawn(SchedulerThread::at(0x1000));
    let mut state = State::default();
    state.x[3] = 99;
    state.elr = 0x2000;
    assert_eq!(store.report_thread_state(t, state), Ok(()));
    let got = store.get(t).unwrap();
    assert_eq!(got.state.x[3], 99);
    assert_eq!(got.state.elr, 0x2000);
}

#[test]
fn iteration_is_in_id_order() {
    let mut store = ThreadStore::new();
    store.spawn(SchedulerThread::at(10));
    store.spawn(SchedulerThread::at(20));
    store.spawn(SchedulerThread::at(30));
    store.remove(2).unwrap();
    let entries = store.iter();
    let ids: Vec<u64> = entries.iter().map(|(t, _)| *t).collect();
    assert_eq!(ids, vec![1, 3]);
    assert_eq!(entries[1].1.state.elr, 30);
    for thread in store.iter_mut() {
        thread.state.elr += 1;
    }
    assert_eq!(store.get(1).unwrap().state.elr, 11);
    assert_eq!(store.get(3).unwrap().state.elr, 31);
}

#[test]
fn get_mut_changes_the_stored_thread() {
    let mut store = ThreadStore::new();
    let t = store.spawn(SchedulerThread::at(5));
    store.get_mut(t).unwrap().state.x[0] = 7;
    assert_eq!(store.get(t).unwrap().state.x[0], 7);
}

#[test]
fn thread_count_follows_spawns_and_removes() {
    let mut store = ThreadStore::new();
    let a = store.spawn(SchedulerThread::at(1));
    let b = store.spawn(SchedulerThread::at(2));
    store.report_thread_state(a, State::default()).unwrap();
    store.remove(a).unwrap();
    let c = store.spawn(SchedulerThread::at(3));
    assert!(c > a && c > b);
    assert_eq!(store.len(), 2);
    assert_eq!(store.iter().len(), 2);
}
