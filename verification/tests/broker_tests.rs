use bluetooth_broker::adapter::BluetoothDevice;
use bluetooth_broker::manager::{matches_filter, matches_filters, BluetoothManager};
use bluetooth_broker::messages::{BluetoothError, BluetoothMethodMsg, BluetoothReply};
use bluetooth_broker::properties::{
    flags_from_properties, properties_from_flags, CharacteristicProperties,
};
use bluetooth_broker::scanfilter::{
    BluetoothScanfilter, BluetoothScanfilterSequence, RequestDeviceoptions,
};

const GENERIC_ACCESS: &str = "00001800-0000-1000-8000-00805f9b34fb";
const HEART_RATE: &str = "0000180d-0000-1000-8000-00805f9b34fb";
const GLUCOSE: &str = "00001808-0000-1000-8000-00805f9b34fb";

fn manager() -> BluetoothManager {
    BluetoothManager::new(None)
}

fn hr_filter_options(optional: Vec<String>) -> RequestDeviceoptions {
    let filter = BluetoothScanfilter::new(
        String::new(),
        String::new(),
        vec![HEART_RATE.to_string()],
    );
    RequestDeviceoptions::new(BluetoothScanfilterSequence::new(vec![filter]), optional)
}

fn accept_all_options() -> RequestDeviceoptions {
    RequestDeviceoptions::new(BluetoothScanfilterSequence::new(Vec::new()), Vec::new())
}

fn device(name: Option<&str>, uuids: Vec<&str>) -> BluetoothDevice {
    BluetoothDevice {
        id: "1".to_string(),
        address: "00:00:00:00:00:01".to_string(),
        name: name.map(|n| n.to_string()),
        connectable: false,
        connected: false,
        uuids: uuids.into_iter().map(|u| u.to_string()).collect(),
        appearance: None,
        tx_power: None,
        rssi: None,
    }
}

#[test]
fn empty_adapter_request_device_not_found() {
    let mut m = manager();
    assert_eq!(m.test("EmptyAdapter".to_string()), Ok(true));
    let r = m.request_device(&accept_all_options());
    assert_eq!(r.unwrap_err(), BluetoothError::NotFound);
}

#[test]
fn glucose_heart_rate_request_device_picks_heart_rate() {
    let mut m = manager();
    assert_eq!(m.test("GlucoseHeartRateAdapter".to_string()), Ok(true));
    let msg = m.request_device(&hr_filter_options(Vec::new())).unwrap();
    assert_eq!(msg.name, Some("Heart Rate Device".to_string()));
    // the returned id is the one bound to address 00:00:00:00:00:02
    let bound = m.address_to_id.get(&"00:00:00:00:00:02".to_string()).unwrap();
    assert_eq!(*bound, msg.id);
}

#[test]
fn get_primary_service_not_in_allowed_set_is_security() {
    let mut m = manager();
    assert_eq!(m.test("CompletedAdapter".to_string()), Ok(true));
    let msg = m.request_device(&hr_filter_options(Vec::new())).unwrap();
    let r = m.get_primary_service(msg.id.clone(), GENERIC_ACCESS.to_string());
    assert_eq!(r.unwrap_err(), BluetoothError::Security);
}

#[test]
fn get_primary_service_in_allowed_set_is_primary() {
    let mut m = manager();
    assert_eq!(m.test("CompletedAdapter".to_string()), Ok(true));
    let msg = m.request_device(&hr_filter_options(Vec::new())).unwrap();
    let service = m
        .get_primary_service(msg.id.clone(), HEART_RATE.to_string())
        .unwrap();
    assert!(service.is_primary);
    assert_eq!(service.uuid, HEART_RATE.to_string());
}

#[test]
fn not_powered_adapter_rejects_gatt_requests() {
    let mut m = manager();
    assert_eq!(m.test("NotPoweredAdapter".to_string()), Ok(true));
    let r = m.gatt_server_connect("whatever".to_string());
    assert_eq!(r.unwrap_err(), BluetoothError::AdapterNotPowered);
    let r = m.request_device(&accept_all_options());
    assert_eq!(r.unwrap_err(), BluetoothError::AdapterNotPowered);
    let r = m.read_value("whatever".to_string());
    assert_eq!(r.unwrap_err(), BluetoothError::AdapterNotPowered);
}

#[test]
fn completed_adapter_connect_and_read_device_name() {
    let mut m = manager();
    assert_eq!(m.test("CompletedAdapter".to_string()), Ok(true));
    let msg = m
        .request_device(&hr_filter_options(vec![GENERIC_ACCESS.to_string()]))
        .unwrap();
    assert_eq!(m.gatt_server_connect(msg.id.clone()), Ok(true));
    let service = m
        .get_primary_service(msg.id.clone(), GENERIC_ACCESS.to_string())
        .unwrap();
    let characteristic = m
        .get_characteristic(
            service.instance_id.clone(),
            "00002A00-0000-1000-8000-00805f9b34fb".to_string(),
        )
        .unwrap();
    let value = m.read_value(characteristic.instance_id.clone()).unwrap();
    assert_eq!(value, vec![9]);
}

#[test]
fn not_present_adapter_is_adapter_error_in_test_mode() {
    let mut m = manager();
    assert_eq!(m.test("NotPresentAdapter".to_string()), Ok(true));
    let r = m.gatt_server_connect("whatever".to_string());
    assert_eq!(r.unwrap_err(), BluetoothError::AdapterError);
}

#[test]
fn wrong_data_set_name_is_type_error() {
    let mut m = manager();
    let r = m.test("NoSuchAdapter".to_string());
    assert_eq!(
        r.unwrap_err(),
        BluetoothError::Type("Wrong data set name was provided".to_string())
    );
}

#[test]
fn no_adapter_is_adapter_error() {
    let mut m = manager();
    let r = m.request_device(&accept_all_options());
    assert_eq!(r.unwrap_err(), BluetoothError::AdapterError);
}

#[test]
fn connect_unconnectable_device_times_out_with_network() {
    let mut m = manager();
    assert_eq!(m.test("GlucoseHeartRateAdapter".to_string()), Ok(true));
    let filter = BluetoothScanfilter::new(
        String::new(),
        String::new(),
        vec![GLUCOSE.to_string()],
    );
    let options =
        RequestDeviceoptions::new(BluetoothScanfilterSequence::new(vec![filter]), Vec::new());
    let msg = m.request_device(&options).unwrap();
    assert_eq!(msg.name, Some("Glucose Device".to_string()));
    let r = m.gatt_server_connect(msg.id.clone());
    assert_eq!(r.unwrap_err(), BluetoothError::Network);
}

#[test]
fn disconnect_returns_false() {
    let mut m = manager();
    assert_eq!(m.test("CompletedAdapter".to_string()), Ok(true));
    let msg = m.request_device(&hr_filter_options(Vec::new())).unwrap();
    assert_eq!(m.gatt_server_connect(msg.id.clone()), Ok(true));
    assert_eq!(m.gatt_server_disconnect(msg.id.clone()), Ok(false));
    // disconnecting a device that is not connected also replies false
    assert_eq!(m.gatt_server_disconnect(msg.id.clone()), Ok(false));
}

#[test]
fn read_unknown_attribute_is_not_supported() {
    let mut m = manager();
    assert_eq!(m.test("CompletedAdapter".to_string()), Ok(true));
    let r = m.read_value("no-such-attribute".to_string());
    assert_eq!(r.unwrap_err(), BluetoothError::NotSupported);
    let r = m.write_value("no-such-attribute".to_string(), vec![1, 2]);
    assert_eq!(r.unwrap_err(), BluetoothError::NotSupported);
}

#[test]
fn write_then_read_round_trips_value() {
    let mut m = manager();
    assert_eq!(m.test("CompletedAdapter".to_string()), Ok(true));
    let msg = m
        .request_device(&hr_filter_options(vec![GENERIC_ACCESS.to_string()]))
        .unwrap();
    let service = m
        .get_primary_service(msg.id.clone(), GENERIC_ACCESS.to_string())
        .unwrap();
    let characteristic = m
        .get_characteristic(
            service.instance_id.clone(),
            "00002A00-0000-1000-8000-00805f9b34fb".to_string(),
        )
        .unwrap();
    assert_eq!(
        m.write_value(characteristic.instance_id.clone(), vec![42, 7]),
        Ok(true)
    );
    assert_eq!(
        m.read_value(characteristic.instance_id.clone()).unwrap(),
        vec![42, 7]
    );
}

#[test]
fn descriptors_of_completed_adapter() {
    let mut m = manager();
    assert_eq!(m.test("CompletedAdapter".to_string()), Ok(true));
    let msg = m.request_device(&hr_filter_options(Vec::new())).unwrap();
    let service = m
        .get_primary_service(msg.id.clone(), HEART_RATE.to_string())
        .unwrap();
    let characteristic = m
        .get_characteristic(
            service.instance_id.clone(),
            "00002a37-0000-1000-8000-00805f9b34fb".to_string(),
        )
        .unwrap();
    let descriptor = m
        .get_descriptor(
            characteristic.instance_id.clone(),
            "00002901-0000-1000-8000-00805f9b34fb".to_string(),
        )
        .unwrap();
    assert_eq!(
        m.read_value(descriptor.instance_id.clone()).unwrap(),
        vec![14]
    );
}

#[test]
fn missing_characteristic_adapter_has_no_characteristics() {
    let mut m = manager();
    assert_eq!(
        m.test("MissingCharacteristicGenericAccessAdapter".to_string()),
        Ok(true)
    );
    let msg = m.request_device(&hr_filter_options(Vec::new())).unwrap();
    let service = m
        .get_primary_service(msg.id.clone(), HEART_RATE.to_string())
        .unwrap();
    let r = m.get_characteristics(service.instance_id.clone(), None);
    assert_eq!(r.unwrap_err(), BluetoothError::NotFound);
}

#[test]
fn discovery_is_idempotent_for_the_same_device() {
    let mut m = manager();
    assert_eq!(m.test("GlucoseHeartRateAdapter".to_string()), Ok(true));
    let first = m.request_device(&hr_filter_options(Vec::new())).unwrap();
    let second = m.request_device(&hr_filter_options(Vec::new())).unwrap();
    assert_eq!(first.id, second.id);
}

#[test]
fn distinct_devices_get_distinct_ids() {
    let mut m = manager();
    assert_eq!(m.test("GlucoseHeartRateAdapter".to_string()), Ok(true));
    let heart = m.request_device(&hr_filter_options(Vec::new())).unwrap();
    let filter = BluetoothScanfilter::new(
        String::new(),
        String::new(),
        vec![GLUCOSE.to_string()],
    );
    let options =
        RequestDeviceoptions::new(BluetoothScanfilterSequence::new(vec![filter]), Vec::new());
    let glucose = m.request_device(&options).unwrap();
    assert_ne!(heart.id, glucose.id);
}

#[test]
fn allowed_services_never_shrink_across_acceptances() {
    let mut m = manager();
    assert_eq!(m.test("GlucoseHeartRateAdapter".to_string()), Ok(true));
    let first = m.request_device(&hr_filter_options(Vec::new())).unwrap();
    let granted = m.allowed_services.get(&first.id).unwrap();
    assert!(granted.contains(&HEART_RATE.to_string()));
    let second = m
        .request_device(&hr_filter_options(vec![GENERIC_ACCESS.to_string()]))
        .unwrap();
    assert_eq!(first.id, second.id);
    let granted = m.allowed_services.get(&second.id).unwrap();
    assert!(granted.contains(&HEART_RATE.to_string()));
    assert!(granted.contains(&GENERIC_ACCESS.to_string()));
}

#[test]
fn cache_parent_pointers_resolve() {
    let mut m = manager();
    assert_eq!(m.test("CompletedAdapter".to_string()), Ok(true));
    let msg = m.request_device(&hr_filter_options(Vec::new())).unwrap();
    let service = m
        .get_primary_service(msg.id.clone(), HEART_RATE.to_string())
        .unwrap();
    let characteristic = m
        .get_characteristic(
            service.instance_id.clone(),
            "00002a37-0000-1000-8000-00805f9b34fb".to_string(),
        )
        .unwrap();
    let descriptor = m
        .get_descriptor(
            characteristic.instance_id.clone(),
            "00002901-0000-1000-8000-00805f9b34fb".to_string(),
        )
        .unwrap();
    let parent = m.service_to_device.get(&service.instance_id).unwrap();
    assert_eq!(*parent, msg.id);
    assert!(m.cached_devices.contains_key(parent));
    let parent = m
        .characteristic_to_service
        .get(&characteristic.instance_id)
        .unwrap();
    assert_eq!(*parent, service.instance_id);
    assert!(m.cached_services.contains_key(parent));
    let parent = m
        .descriptor_to_characteristic
        .get(&descriptor.instance_id)
        .unwrap();
    assert_eq!(*parent, characteristic.instance_id);
    assert!(m.cached_characteristics.contains_key(parent));
}

#[test]
fn filter_matching_rules() {
    let d = device(Some("Heart Rate Device"), vec![GENERIC_ACCESS, HEART_RATE]);
    let by_service = BluetoothScanfilter::new(
        String::new(),
        String::new(),
        vec![HEART_RATE.to_string()],
    );
    assert!(matches_filter(&d, &by_service));
    let by_name = BluetoothScanfilter::new(
        "Heart Rate Device".to_string(),
        String::new(),
        Vec::new(),
    );
    assert!(matches_filter(&d, &by_name));
    let by_prefix =
        BluetoothScanfilter::new(String::new(), "Heart".to_string(), Vec::new());
    assert!(matches_filter(&d, &by_prefix));
    let wrong_prefix =
        BluetoothScanfilter::new(String::new(), "Glucose".to_string(), Vec::new());
    assert!(!matches_filter(&d, &wrong_prefix));
    let missing_service =
        BluetoothScanfilter::new(String::new(), String::new(), vec![GLUCOSE.to_string()]);
    assert!(!matches_filter(&d, &missing_service));
    let empty = BluetoothScanfilter::new(String::new(), String::new(), Vec::new());
    assert!(!matches_filter(&d, &empty));
    let nameless = device(None, vec![HEART_RATE]);
    assert!(!matches_filter(&nameless, &by_name));
    assert!(!matches_filter(&nameless, &by_prefix));
}

#[test]
fn filter_sequence_with_matching_suffix_still_matches() {
    let d = device(Some("Heart Rate Device"), vec![HEART_RATE]);
    let matching = BluetoothScanfilter::new(
        String::new(),
        String::new(),
        vec![HEART_RATE.to_string()],
    );
    let extra = BluetoothScanfilter::new("Other".to_string(), String::new(), Vec::new());
    let short = BluetoothScanfilterSequence::new(vec![matching]);
    assert!(matches_filters(&d, &short));
    let matching = BluetoothScanfilter::new(
        String::new(),
        String::new(),
        vec![HEART_RATE.to_string()],
    );
    let longer = BluetoothScanfilterSequence::new(vec![extra, matching]);
    assert!(matches_filters(&d, &longer));
    // an empty filter anywhere makes the whole sequence match nothing
    let matching = BluetoothScanfilter::new(
        String::new(),
        String::new(),
        vec![HEART_RATE.to_string()],
    );
    let empty = BluetoothScanfilter::new(String::new(), String::new(), Vec::new());
    let poisoned = BluetoothScanfilterSequence::new(vec![empty, matching]);
    assert!(!matches_filters(&d, &poisoned));
}

#[test]
fn empty_filter_sequence_matches_nothing() {
    let d = device(Some("Heart Rate Device"), vec![HEART_RATE]);
    let none = BluetoothScanfilterSequence::new(Vec::new());
    assert!(!matches_filters(&d, &none));
}

#[test]
fn property_flags_round_trip() {
    let p = CharacteristicProperties {
        broadcast: true,
        read: true,
        write_without_response: false,
        write: true,
        notify: false,
        indicate: true,
        authenticated_signed_writes: false,
        reliable_write: true,
        writable_auxiliaries: false,
    };
    let flags = flags_from_properties(&p);
    assert_eq!(
        flags,
        vec![
            "broadcast".to_string(),
            "read".to_string(),
            "write".to_string(),
            "indicate".to_string(),
            "reliable_write".to_string(),
        ]
    );
    assert_eq!(properties_from_flags(&flags), p);
}

#[test]
fn unrecognized_flags_are_ignored() {
    let flags = vec!["read".to_string(), "levitate".to_string()];
    let p = properties_from_flags(&flags);
    assert!(p.read);
    assert!(!p.broadcast);
    assert!(!p.write);
    assert_eq!(flags_from_properties(&p), vec!["read".to_string()]);
}

#[test]
fn dispatcher_replies_once_per_request_except_exit() {
    let mut m = manager();
    let r = m.handle_request(BluetoothMethodMsg::Test("EmptyAdapter".to_string()));
    assert!(matches!(r, Some(BluetoothReply::TestResult(Ok(true)))));
    let r = m.handle_request(BluetoothMethodMsg::ReadValue("x".to_string()));
    assert!(matches!(r, Some(BluetoothReply::Value(Err(_)))));
    let r = m.handle_request(BluetoothMethodMsg::GATTServerConnect("x".to_string()));
    assert!(matches!(r, Some(BluetoothReply::Connected(Err(_)))));
    let r = m.handle_request(BluetoothMethodMsg::Exit);
    assert!(r.is_none());
}

#[test]
fn dispatcher_never_succeeds_on_unpowered_adapter() {
    let mut m = manager();
    assert_eq!(m.test("NotPoweredAdapter".to_string()), Ok(true));
    let r = m.handle_request(BluetoothMethodMsg::WriteValue("x".to_string(), vec![1]));
    assert!(matches!(
        r,
        Some(BluetoothReply::Written(Err(BluetoothError::AdapterNotPowered)))
    ));
    let r = m.handle_request(BluetoothMethodMsg::GetPrimaryServices("x".to_string(), None));
    assert!(matches!(
        r,
        Some(BluetoothReply::Services(Err(BluetoothError::AdapterNotPowered)))
    ));
}

#[test]
fn unicode_device_name_round_trips() {
    let mut m = manager();
    assert_eq!(m.test("UnicodeDeviceAdapter".to_string()), Ok(true));
    let filter = BluetoothScanfilter::new(
        "\u{2764}\u{2764}\u{2764}\u{2764}\u{2764}\u{2764}\u{2764}\u{2764}\u{2764}".to_string(),
        String::new(),
        Vec::new(),
    );
    let options =
        RequestDeviceoptions::new(BluetoothScanfilterSequence::new(vec![filter]), Vec::new());
    let msg = m.request_device(&options).unwrap();
    assert_eq!(
        msg.name,
        Some("\u{2764}\u{2764}\u{2764}\u{2764}\u{2764}\u{2764}\u{2764}\u{2764}\u{2764}".to_string())
    );
}

#[test]
fn included_services_of_a_plain_service_are_not_found() {
    let mut m = manager();
    assert_eq!(m.test("CompletedAdapter".to_string()), Ok(true));
    let msg = m.request_device(&hr_filter_options(Vec::new())).unwrap();
    let service = m
        .get_primary_service(msg.id.clone(), HEART_RATE.to_string())
        .unwrap();
    // the mock services include no other services
    let r = m.get_included_services(service.instance_id.clone(), None);
    assert_eq!(r.unwrap_err(), BluetoothError::NotFound);
    let r = m.get_included_service(service.instance_id.clone(), GENERIC_ACCESS.to_string());
    assert_eq!(r.unwrap_err(), BluetoothError::NotFound);
    // an unknown service id is not found either
    let r = m.get_included_service("no-such-service".to_string(), GENERIC_ACCESS.to_string());
    assert_eq!(r.unwrap_err(), BluetoothError::NotFound);
}

#[test]
fn dispatcher_reply_shape_matches_request_kind() {
    let mut m = manager();
    assert_eq!(m.test("EmptyAdapter".to_string()), Ok(true));
    let r = m.handle_request(BluetoothMethodMsg::RequestDevice(accept_all_options()));
    assert!(matches!(r, Some(BluetoothReply::Device(Err(BluetoothError::NotFound)))));
    let r = m.handle_request(BluetoothMethodMsg::GetDescriptors("x".to_string(), None));
    assert!(matches!(r, Some(BluetoothReply::Descriptors(Err(_)))));
    let r = m.handle_request(BluetoothMethodMsg::GetIncludedService(
        "x".to_string(),
        GENERIC_ACCESS.to_string(),
    ));
    assert!(matches!(r, Some(BluetoothReply::Service(Err(BluetoothError::NotFound)))));
}

#[test]
fn uuid_comparisons_disregard_ascii_case() {
    let mut m = manager();
    assert_eq!(m.test("CompletedAdapter".to_string()), Ok(true));
    let msg = m
        .request_device(&hr_filter_options(vec![GENERIC_ACCESS.to_string()]))
        .unwrap();
    let service = m
        .get_primary_service(msg.id.clone(), GENERIC_ACCESS.to_string())
        .unwrap();
    // the mock stores the device-name characteristic under 00002A00-…; a
    // lowercase query still finds it
    let characteristic = m
        .get_characteristic(
            service.instance_id.clone(),
            "00002a00-0000-1000-8000-00805f9b34fb".to_string(),
        )
        .unwrap();
    assert_eq!(m.read_value(characteristic.instance_id).unwrap(), vec![9]);
    // the allowed-services grant matches up to case too
    let service = m
        .get_primary_service(
            msg.id.clone(),
            "00001800-0000-1000-8000-00805F9B34FB".to_string(),
        )
        .unwrap();
    assert!(service.is_primary);
}

#[test]
fn filter_service_matching_disregards_ascii_case() {
    let d = device(Some("Heart Rate Device"), vec!["0000180D-0000-1000-8000-00805F9B34FB"]);
    let by_service = BluetoothScanfilter::new(
        String::new(),
        String::new(),
        vec![HEART_RATE.to_string()],
    );
    assert!(matches_filter(&d, &by_service));
}

#[test]
fn attached_included_service_is_reported() {
    let mut m = manager();
    assert_eq!(m.test("CompletedAdapter".to_string()), Ok(true));
    let msg = m
        .request_device(&hr_filter_options(vec![GENERIC_ACCESS.to_string()]))
        .unwrap();
    let ga = m
        .get_primary_service(msg.id.clone(), GENERIC_ACCESS.to_string())
        .unwrap();
    let hr = m
        .get_primary_service(msg.id.clone(), HEART_RATE.to_string())
        .unwrap();
    // attach the heart-rate service as an include of generic access,
    // driver-side; the topology records are the first two service records
    m.store.add_include(0, 1);
    let inc = m
        .get_included_service(ga.instance_id.clone(), HEART_RATE.to_string())
        .unwrap();
    assert_eq!(inc.instance_id, hr.instance_id);
    let incs = m.get_included_services(ga.instance_id.clone(), None).unwrap();
    assert_eq!(incs.len(), 1);
    assert_eq!(incs[0].uuid, HEART_RATE.to_string());
}
