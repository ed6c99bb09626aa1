use estros::drivers::{DriverManager, UserSpaceDriver};
use estros::rng::{Rng, XORShiftRng};

struct Dummy(u32);
impl UserSpaceDriver for Dummy {}

#[test]
fn new_manager_is_empty() {
    assert!(DriverManager::new().user_drivers.is_empty());
}

#[test]
fn driver_lands_on_the_first_drawn_id_already_present() {
    let mut m = DriverManager::new();
    // the ids the generator with seed 69420 draws second and third
    m.user_drivers.insert(9497832976310012990, Box::new(Dummy(1)));
    m.user_drivers.insert(6550716635657414054, Box::new(Dummy(2)));
    let mut rng = XORShiftRng::new(69420);
    DriverManager::register_driver(&mut m.user_drivers, Box::new(Dummy(3)), &mut rng);
    assert_eq!(m.user_drivers.len(), 2);
    // two draws were made
    assert_eq!(rng.rand_u64(), 6550716635657414054);
    let _ = Dummy(0).0;
}
