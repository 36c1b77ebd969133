use lockstep_multiplayer_experimenting::client_functionality::run_if_tick_in_sync_client;
use lockstep_multiplayer_experimenting::{
    ClientTicks, CurrentServerTick, LocalServerTick, PlayerId, Tick,
};

#[test]
fn tick_clock_starts_at_zero_and_steps_by_one() {
    let mut t = Tick::new();
    assert_eq!(t.get(), 0);
    t.increment();
    t.increment();
    assert_eq!(t.get(), 2);
    t.set(41);
    assert_eq!(t.get(), 41);
    t.increment();
    assert_eq!(t.get(), 42);
    t.reset();
    assert_eq!(t.get(), 0);
}

#[test]
fn coordinator_clock_mirrors_tick_operations() {
    let mut t = CurrentServerTick::new();
    assert_eq!(t.get(), 0);
    t.increment();
    assert_eq!(t.get(), 1);
    t.set(7);
    assert_eq!(t.get(), 7);
    t.reset();
    assert_eq!(t.get(), 0);
}

#[test]
fn participant_clock_mirrors_tick_operations() {
    let mut t = LocalServerTick::new();
    assert_eq!(t.get(), 0);
    t.increment();
    assert_eq!(t.get(), 1);
    t.set(9);
    assert_eq!(t.get(), 9);
    t.reset();
    assert_eq!(t.get(), 0);
}

#[test]
fn client_ticks_track_set_remove_and_reset() {
    let mut ct = ClientTicks::new();
    ct.set(PlayerId(1), Tick(3));
    ct.set(PlayerId(2), Tick(5));
    assert_eq!(ct.get(PlayerId(1)), Some(Tick(3)));
    assert_eq!(ct.get(PlayerId(2)), Some(Tick(5)));
    assert_eq!(ct.get(PlayerId(3)), None);
    ct.set(PlayerId(1), Tick(4));
    assert_eq!(ct.get(PlayerId(1)), Some(Tick(4)));
    assert_eq!(ct.len(), 2);
    assert!(!ct.all_at(4));
    ct.reset_all();
    assert!(ct.all_at(0));
    ct.remove(PlayerId(1));
    assert_eq!(ct.get(PlayerId(1)), None);
    assert_eq!(ct.len(), 1);
}

#[test]
fn participant_steps_only_toward_the_announced_tick() {
    let mut server = LocalServerTick::new();
    let local = Tick::new();
    assert!(!run_if_tick_in_sync_client(&server, &local));
    server.set(1);
    assert!(run_if_tick_in_sync_client(&server, &local));
    server.set(2);
    assert!(!run_if_tick_in_sync_client(&server, &local));
}
