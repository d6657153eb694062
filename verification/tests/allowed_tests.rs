use bluetooth_broker::allowed::AllowedDevicesMap;
use bluetooth_broker::scanfilter::{BluetoothScanfilter, BluetoothScanfilterSequence};

const HEART_RATE: &str = "0000180d-0000-1000-8000-00805f9b34fb";
const GENERIC_ACCESS: &str = "00001800-0000-1000-8000-00805f9b34fb";

fn hr_filters() -> BluetoothScanfilterSequence {
    BluetoothScanfilterSequence::new(vec![BluetoothScanfilter::new(
        String::new(),
        String::new(),
        vec![HEART_RATE.to_string()],
    )])
}

#[test]
fn add_device_grants_requested_services() {
    let mut map = AllowedDevicesMap::new();
    let origin = Some("https://example.invalid".to_string());
    let address = "00:00:00:00:00:02".to_string();
    let id = map
        .add_device(&origin, &address, &hr_filters(), vec![GENERIC_ACCESS.to_string()])
        .unwrap();
    assert!(!id.is_empty());
    assert!(map.is_origin_allowed_to_acces_service(
        origin.clone(),
        &address,
        &HEART_RATE.to_string()
    ));
    assert!(map.is_origin_allowed_to_acces_service(
        origin.clone(),
        &address,
        &GENERIC_ACCESS.to_string()
    ));
    assert!(!map.is_origin_allowed_to_acces_service(
        origin,
        &address,
        &"0000ffff-0000-1000-8000-00805f9b34fb".to_string()
    ));
}

#[test]
fn same_pair_keeps_its_id_and_gains_grants() {
    let mut map = AllowedDevicesMap::new();
    let origin = Some("https://example.invalid".to_string());
    let address = "00:00:00:00:00:02".to_string();
    let first = map
        .add_device(&origin, &address, &hr_filters(), Vec::new())
        .unwrap();
    let second = map
        .add_device(&origin, &address, &hr_filters(), vec![GENERIC_ACCESS.to_string()])
        .unwrap();
    assert_eq!(first, second);
    // earlier grants are kept, new ones are added
    assert!(map.is_origin_allowed_to_acces_service(
        origin.clone(),
        &address,
        &HEART_RATE.to_string()
    ));
    assert!(map.is_origin_allowed_to_acces_service(
        origin,
        &address,
        &GENERIC_ACCESS.to_string()
    ));
}

#[test]
fn distinct_origins_are_kept_apart() {
    let mut map = AllowedDevicesMap::new();
    let address = "00:00:00:00:00:02".to_string();
    let origin_a = Some("https://a.invalid".to_string());
    map.add_device(&origin_a, &address, &hr_filters(), Vec::new())
        .unwrap();
    assert!(map.is_origin_allowed_to_acces_service(
        origin_a,
        &address,
        &HEART_RATE.to_string()
    ));
    assert!(!map.is_origin_allowed_to_acces_service(
        Some("https://b.invalid".to_string()),
        &address,
        &HEART_RATE.to_string()
    ));
    assert!(!map.is_origin_allowed_to_acces_service(None, &address, &HEART_RATE.to_string()));
}

#[test]
fn generated_ids_are_base64_of_sixteen_bytes() {
    let mut map = AllowedDevicesMap::new();
    let id = map
        .add_device(&None, &"00:00:00:00:00:01".to_string(), &hr_filters(), Vec::new())
        .unwrap();
    // sixteen random bytes render as exactly twenty-four base64 characters
    assert_eq!(id.chars().count(), 24);
    let id2 = map
        .add_device(&None, &"00:00:00:00:00:02".to_string(), &hr_filters(), Vec::new())
        .unwrap();
    assert_ne!(id, id2);
}

#[test]
fn grant_check_disregards_ascii_case() {
    let mut map = AllowedDevicesMap::new();
    let origin = Some("https://example.invalid".to_string());
    let address = "00:00:00:00:00:02".to_string();
    map.add_device(&origin, &address, &hr_filters(), Vec::new())
        .unwrap();
    assert!(map.is_origin_allowed_to_acces_service(
        origin,
        &address,
        &"0000180D-0000-1000-8000-00805F9B34FB".to_string()
    ));
}
