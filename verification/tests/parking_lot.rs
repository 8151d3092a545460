use rust_socket_chat::ParkingLot;
use rust_socket_chat::Vehicle;

#[test]
fn fresh_lot_counts() {
    let lot = ParkingLot::new(2, 3, 4);
    assert_eq!(lot.total_spots(), 9);
    assert_eq!(lot.remaining_spots(), 9);
    assert!(!lot.is_full());
    assert!(lot.is_empty());
    assert!(!lot.motorcycle_full());
    assert!(!lot.compact_full());
    assert!(!lot.large_full());
    assert_eq!(lot.van_spots_taken(), 0);
}

#[test]
fn parking_fills_the_matching_kind() {
    let mut lot = ParkingLot::new(2, 3, 4);
    assert!(lot.park(Vehicle::Motorcycle, String::from("m-1")));
    assert!(lot.park(Vehicle::Car, String::from("c-1")));
    assert!(lot.park(Vehicle::Van, String::from("v-1")));
    assert_eq!(lot.remaining_spots(), 6);
    assert!(!lot.is_empty());
    assert_eq!(lot.van_spots_taken(), 1);
}

#[test]
fn a_kind_fills_up_and_rejects() {
    let mut lot = ParkingLot::new(2, 3, 4);
    assert!(lot.park(Vehicle::Motorcycle, String::from("m-1")));
    assert!(lot.park(Vehicle::Motorcycle, String::from("m-2")));
    assert!(lot.motorcycle_full());
    let before = lot.remaining_spots();
    assert!(!lot.park(Vehicle::Motorcycle, String::from("m-3")));
    assert_eq!(lot.remaining_spots(), before);
}

#[test]
fn full_lot() {
    let mut lot = ParkingLot::new(1, 1, 1);
    assert!(lot.park(Vehicle::Motorcycle, String::from("m-1")));
    assert!(lot.park(Vehicle::Car, String::from("c-1")));
    assert!(lot.park(Vehicle::Van, String::from("v-1")));
    assert!(lot.is_full());
    assert_eq!(lot.remaining_spots(), 0);
    assert!(lot.compact_full());
    assert!(lot.large_full());
}

#[test]
fn exit_frees_the_spot_and_reports_a_duration() {
    let mut lot = ParkingLot::new(2, 3, 4);
    assert!(lot.park(Vehicle::Car, String::from("c-1")));
    assert_eq!(lot.remaining_spots(), 8);
    let duration = lot.exit(Vehicle::Car, "c-1").expect("the car was parked");
    assert!(duration >= 0);
    assert_eq!(lot.remaining_spots(), 9);
    assert!(lot.is_empty());
}

#[test]
fn exit_of_unknown_plate_changes_nothing() {
    let mut lot = ParkingLot::new(2, 3, 4);
    assert!(lot.park(Vehicle::Van, String::from("v-1")));
    assert!(lot.exit(Vehicle::Van, "v-9").is_none());
    assert_eq!(lot.van_spots_taken(), 1);
    assert_eq!(lot.remaining_spots(), 8);
    // the plate is searched among the vehicle's own kind of spots
    assert!(lot.exit(Vehicle::Car, "v-1").is_none());
    assert_eq!(lot.remaining_spots(), 8);
}

#[test]
fn vans_only_count_in_large_spots() {
    let mut lot = ParkingLot::new(2, 3, 4);
    assert!(lot.park(Vehicle::Van, String::from("v-1")));
    assert!(lot.park(Vehicle::Van, String::from("v-2")));
    assert_eq!(lot.van_spots_taken(), 2);
    lot.exit(Vehicle::Van, "v-1");
    assert_eq!(lot.van_spots_taken(), 1);
}

#[test]
fn zero_sized_lot_is_full_and_empty() {
    let mut lot = ParkingLot::new(0, 0, 0);
    assert_eq!(lot.total_spots(), 0);
    assert!(lot.is_full());
    assert!(lot.is_empty());
    assert!(!lot.park(Vehicle::Motorcycle, String::from("m-1")));
}
