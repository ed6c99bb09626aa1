//! The registry of user-space drivers, keyed by randomly drawn device ids.
use vstd::prelude::*;
use std::collections::BTreeMap;
use crate::rng::{advance_n, nth_draw, Rng};

verus! {

/// A driver that runs in user space.
pub trait UserSpaceDriver: Send + Sync {}

/// The registered user-space drivers by device id.
pub struct DriverManager {
    pub user_drivers: BTreeMap<u64, Box<dyn UserSpaceDriver>>,
}

impl DriverManager {
    /// Stores `driver` under a device id drawn from `rng`: draws are
    /// repeated until the value drawn is an id the map already holds, and
    /// the driver is stored under that id, taking the place of the driver
    /// that was there.
    pub fn register_driver<R: Rng>(
        user_drivers: &mut BTreeMap<u64, Box<dyn UserSpaceDriver>>,
        driver: Box<dyn UserSpaceDriver>,
        rng: &mut R,
    )
        requires
            exists|n: nat| old(user_drivers)@.contains_key(#[trigger] nth_draw(*old(rng), n)),
        ensures
            exists|k: nat| #![trigger nth_draw(*old(rng), k)] {
                let id = nth_draw(*old(rng), k);
                &&& old(user_drivers)@.contains_key(id)
                &&& forall|j: nat| j < k ==> !old(user_drivers)@.contains_key(#[trigger] nth_draw(*old(rng), j))
                &&& *final(rng) == advance_n(*old(rng), k + 1)
                &&& final(user_drivers)@ == old(user_drivers)@.insert(id, driver)
            },
    {
        let ghost r0 = *rng;
        let ghost n = choose|n: nat| user_drivers@.contains_key(#[trigger] nth_draw(r0, n));
        let mut device_id = rng.rand_u64();
        let ghost mut k: nat = 0;
        assert(advance_n(r0, 1) == advance_n(r0, 0).advanced());
        while !user_drivers.contains_key(&device_id)
            invariant
                *user_drivers == *old(user_drivers),
                device_id == nth_draw(r0, k),
                *rng == advance_n(r0, k + 1),
                k <= n,
                user_drivers@.contains_key(nth_draw(r0, n)),
                forall|j: nat| j < k ==> !user_drivers@.contains_key(#[trigger] nth_draw(r0, j)),
            decreases n - k,
        {
            device_id = rng.rand_u64();
            proof {
                k = k + 1;
                assert(advance_n(r0, k + 1) == advance_n(r0, k).advanced());
            }
        }
        user_drivers.insert(device_id, driver);
        assert(nth_draw(r0, k) == device_id);
    }

    pub fn new() -> (m: DriverManager)
        ensures
            m.user_drivers@ == Map::<u64, Box<dyn UserSpaceDriver>>::empty(),
    {
        DriverManager { user_drivers: BTreeMap::new() }
    }
}

} // verus!
