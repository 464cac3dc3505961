use zebar::config::{BatteryProviderConfig, NetworkProviderConfig, ProviderConfig, Platform};
use zebar::filter::filter;
use zebar::manager::{CreateError, Creation, ProviderManager};
use zebar::model::{Acquired, Released};
use zebar::record::{FieldValue, Record};
use zebar::registry::{Delivery, Registry};

fn names(list: &[&str]) -> Vec<String> {
    list.iter().map(|s| s.to_string()).collect()
}

fn battery() -> ProviderConfig {
    ProviderConfig::Battery(BatteryProviderConfig { refresh_interval_ms: 5000 })
}

fn battery_sample() -> Record {
    let mut record = Record::new();
    record.set("charge_percent".to_string(), FieldValue::Number(81));
    record.set("is_charging".to_string(), FieldValue::Flag(true));
    record.set("time_remaining".to_string(), FieldValue::Unavailable);
    record
}

fn delivery_for<'a>(out: &'a [Delivery], window: &str) -> &'a Record {
    let found: Vec<&Delivery> = out.iter().filter(|d| d.window == window).collect();
    assert_eq!(found.len(), 1);
    &found[0].record
}

#[test]
fn two_windows_share_one_battery_instance() {
    let mut manager = ProviderManager::new(Platform::Linux);

    let a = manager.create("cfg1".to_string(), battery(), names(&["charge_percent"]), "A".to_string());
    assert_eq!(a, Ok(Creation::Start(0)));
    let b = manager.create("cfg1".to_string(), battery(), names(&["is_charging"]), "B".to_string());
    assert_eq!(b, Ok(Creation::Joined));
    assert_eq!(manager.registry().instance_count(), 1);
    assert_eq!(manager.registry().subscriber_count("cfg1"), 2);

    let out = manager.emit(0, battery_sample());
    assert_eq!(out.len(), 2);
    let to_a = delivery_for(&out, "A");
    assert_eq!(to_a.len(), 1);
    assert_eq!(to_a.get("charge_percent"), Some(&FieldValue::Number(81)));
    let to_b = delivery_for(&out, "B");
    assert_eq!(to_b.len(), 1);
    assert_eq!(to_b.get("is_charging"), Some(&FieldValue::Flag(true)));

    assert_eq!(manager.destroy("cfg1", "A"), Released::Remaining);
    assert!(manager.registry().has_instance("cfg1"));
    assert!(manager.registry().is_live(0));
    assert_eq!(manager.destroy("cfg1", "B"), Released::Stopped(0));
    assert!(!manager.registry().has_instance("cfg1"));
    assert!(!manager.registry().is_live(0));
}

#[test]
fn failed_start_leaves_no_instance() {
    let mut manager = ProviderManager::new(Platform::Linux);
    let config = ProviderConfig::Network(NetworkProviderConfig {
        refresh_interval_ms: 1000,
        interface: Some("nonexistent".to_string()),
    });
    let step = manager.create("cfg2".to_string(), config, names(&["default_interface"]), "A".to_string());
    let handle = match step {
        Ok(Creation::Start(handle)) => handle,
        other => panic!("expected a start, got {:?}", other),
    };
    let error = manager.start_failed(handle, "no such interface: nonexistent".to_string());
    assert_eq!(error, CreateError::StartUp("no such interface: nonexistent".to_string()));
    assert_eq!(error.message(), "no such interface: nonexistent");
    assert!(!manager.registry().has_instance("cfg2"));
    assert_eq!(manager.registry().instance_count(), 0);
    assert_eq!(manager.destroy("cfg2", "A"), Released::Absent);
    assert_eq!(manager.registry().instance_count(), 0);
}

#[test]
fn many_windows_start_once_and_stop_once() {
    let windows = ["w1", "w2", "w3", "w4", "w5"];
    let orders: [[usize; 5]; 3] = [[0, 1, 2, 3, 4], [4, 3, 2, 1, 0], [2, 0, 4, 1, 3]];
    for order in orders.iter() {
        let mut registry = Registry::new();
        let mut starts = 0;
        for w in windows.iter() {
            match registry.acquire("shared".to_string(), battery(), w.to_string(), names(&["charge_percent"])) {
                Acquired::Started(handle) => {
                    assert_eq!(handle, 0);
                    starts += 1;
                }
                Acquired::Joined => {}
                Acquired::Exhausted => panic!("handles cannot be exhausted here"),
            }
        }
        assert_eq!(starts, 1);
        assert_eq!(registry.subscriber_count("shared"), 5);
        let mut stops = 0;
        for (n, i) in order.iter().enumerate() {
            match registry.release("shared", windows[*i]) {
                Released::Stopped(handle) => {
                    assert_eq!(handle, 0);
                    assert_eq!(n, 4);
                    stops += 1;
                }
                Released::Remaining => assert!(n < 4),
                Released::Absent => panic!("every window subscribed"),
            }
        }
        assert_eq!(stops, 1);
        assert_eq!(registry.instance_count(), 0);
    }
}

#[test]
fn same_window_asking_twice_replaces_its_field_names() {
    let mut registry = Registry::new();
    assert_eq!(
        registry.acquire("cfg".to_string(), battery(), "A".to_string(), names(&["charge_percent"])),
        Acquired::Started(0)
    );
    assert_eq!(
        registry.acquire("cfg".to_string(), battery(), "A".to_string(), names(&["is_charging"])),
        Acquired::Joined
    );
    assert_eq!(registry.subscriber_count("cfg"), 1);
    assert_eq!(registry.wanted_by("cfg", "A"), Some(&names(&["is_charging"])));
    let out = registry.dispatch(0, battery_sample());
    assert_eq!(out.len(), 1);
    assert_eq!(out[0].window, "A");
    assert_eq!(out[0].record.len(), 1);
    assert_eq!(out[0].record.get("is_charging"), Some(&FieldValue::Flag(true)));
    assert_eq!(registry.release("cfg", "A"), Released::Stopped(0));
}

#[test]
fn joining_keeps_the_first_configuration() {
    let mut registry = Registry::new();
    registry.acquire("cfg".to_string(), battery(), "A".to_string(), names(&[]));
    let other = ProviderConfig::Battery(BatteryProviderConfig { refresh_interval_ms: 1 });
    assert_eq!(registry.acquire("cfg".to_string(), other, "B".to_string(), names(&[])), Acquired::Joined);
    assert_eq!(registry.config_of("cfg"), Some(&battery()));
    assert_eq!(registry.config_of("missing"), None);
}

#[test]
fn releasing_what_is_not_registered_is_a_no_op() {
    let mut registry = Registry::new();
    assert_eq!(registry.release("nothing", "A"), Released::Absent);
    registry.acquire("one".to_string(), battery(), "A".to_string(), names(&["charge_percent"]));
    registry.acquire("two".to_string(), battery(), "B".to_string(), names(&["is_charging"]));

    assert_eq!(registry.release("one", "B"), Released::Absent);
    assert_eq!(registry.release("three", "A"), Released::Absent);
    assert_eq!(registry.release("two", "A"), Released::Absent);
    assert_eq!(registry.instance_count(), 2);
    assert!(registry.is_subscribed("one", "A"));
    assert!(registry.is_subscribed("two", "B"));
    assert_eq!(registry.handle_of("one"), Some(0));
    assert_eq!(registry.handle_of("two"), Some(1));

    assert_eq!(registry.release("one", "A"), Released::Stopped(0));
    assert_eq!(registry.release("one", "A"), Released::Absent);
    assert_eq!(registry.release("one", "A"), Released::Absent);
    assert_eq!(registry.instance_count(), 1);
    assert!(registry.is_subscribed("two", "B"));
    assert_eq!(registry.wanted_by("two", "B"), Some(&names(&["is_charging"])));
}

#[test]
fn instances_of_different_identities_are_apart() {
    let mut registry = Registry::new();
    let wlan = ProviderConfig::Network(NetworkProviderConfig {
        refresh_interval_ms: 1000,
        interface: Some("wlan0".to_string()),
    });
    let eth = ProviderConfig::Network(NetworkProviderConfig {
        refresh_interval_ms: 1000,
        interface: Some("eth0".to_string()),
    });
    assert_eq!(
        registry.acquire("net-wlan".to_string(), wlan.clone(), "A".to_string(), names(&["default_interface"])),
        Acquired::Started(0)
    );
    assert_eq!(
        registry.acquire("net-eth".to_string(), eth.clone(), "B".to_string(), names(&["default_gateway"])),
        Acquired::Started(1)
    );
    assert_ne!(registry.handle_of("net-wlan"), registry.handle_of("net-eth"));
    assert_eq!(registry.config_of("net-wlan"), Some(&wlan));
    assert_eq!(registry.config_of("net-eth"), Some(&eth));

    let mut sample = Record::new();
    sample.set("default_interface".to_string(), FieldValue::Text("wlan0".to_string()));
    sample.set("default_gateway".to_string(), FieldValue::Text("10.0.0.1".to_string()));
    let out = registry.dispatch(0, sample);
    assert_eq!(out.len(), 1);
    assert_eq!(out[0].window, "A");
    assert_eq!(out[0].record.len(), 1);
    assert_eq!(out[0].record.get("default_interface"), Some(&FieldValue::Text("wlan0".to_string())));
    assert!(registry.latest("net-wlan").is_some());
    assert!(registry.latest("net-eth").is_none());

    assert_eq!(registry.release("net-wlan", "A"), Released::Stopped(0));
    assert!(registry.is_subscribed("net-eth", "B"));
    assert_eq!(registry.subscriber_count("net-eth"), 1);
    assert_eq!(registry.subscriber_count("net-wlan"), 0);
}

#[test]
fn nothing_is_delivered_after_a_stop() {
    let mut registry = Registry::new();
    assert_eq!(
        registry.acquire("cfg".to_string(), battery(), "A".to_string(), names(&["charge_percent"])),
        Acquired::Started(0)
    );
    assert_eq!(registry.dispatch(0, battery_sample()).len(), 1);
    assert_eq!(registry.release("cfg", "A"), Released::Stopped(0));
    assert!(registry.dispatch(0, battery_sample()).is_empty());

    assert_eq!(
        registry.acquire("cfg".to_string(), battery(), "B".to_string(), names(&["charge_percent"])),
        Acquired::Started(1)
    );
    assert!(registry.dispatch(0, battery_sample()).is_empty());
    assert!(registry.latest("cfg").is_none());
    let out = registry.dispatch(1, battery_sample());
    assert_eq!(out.len(), 1);
    assert_eq!(out[0].window, "B");
    assert_eq!(registry.latest("cfg").unwrap().get("charge_percent"), Some(&FieldValue::Number(81)));
    assert!(registry.dispatch(7, battery_sample()).is_empty());
}

#[test]
fn a_failed_start_is_silent_too() {
    let mut registry = Registry::new();
    assert_eq!(registry.acquire("cfg".to_string(), battery(), "A".to_string(), names(&[])), Acquired::Started(0));
    assert!(registry.start_failed(0));
    assert!(!registry.start_failed(0));
    assert!(!registry.start_failed(5));
    assert!(registry.dispatch(0, battery_sample()).is_empty());
    assert_eq!(registry.instance_count(), 0);
}

#[test]
fn filter_keeps_exactly_the_requested_fields() {
    let record = battery_sample();
    let out = filter(&record, &names(&["is_charging", "time_remaining"]));
    assert_eq!(out.len(), 2);
    assert_eq!(out.get("is_charging"), Some(&FieldValue::Flag(true)));
    assert_eq!(out.get("time_remaining"), Some(&FieldValue::Unavailable));
    assert_eq!(out.get("charge_percent"), None);
}

#[test]
fn filter_ignores_unknown_and_repeated_names() {
    let record = battery_sample();
    let out = filter(&record, &names(&["voltage", "charge_percent", "charge_percent", ""]));
    assert_eq!(out.len(), 1);
    assert_eq!(out.get("charge_percent"), Some(&FieldValue::Number(81)));
    assert_eq!(out.get("voltage"), None);

    let nothing = filter(&record, &names(&[]));
    assert_eq!(nothing.len(), 0);
    let empty = filter(&Record::new(), &names(&["charge_percent"]));
    assert_eq!(empty.len(), 0);
}

#[test]
fn filter_does_not_depend_on_the_order_of_names() {
    let record = battery_sample();
    let one = filter(&record, &names(&["charge_percent", "is_charging", "time_remaining"]));
    let two = filter(&record, &names(&["time_remaining", "charge_percent", "is_charging"]));
    assert_eq!(one.len(), 3);
    assert_eq!(two.len(), 3);
    for name in ["charge_percent", "is_charging", "time_remaining"] {
        assert_eq!(one.get(name), two.get(name));
        assert_eq!(one.get(name), record.get(name));
    }
}

#[test]
fn an_unavailable_field_is_delivered_as_unavailable() {
    let mut registry = Registry::new();
    registry.acquire("cfg".to_string(), battery(), "A".to_string(), names(&["time_remaining", "missing"]));
    let out = registry.dispatch(0, battery_sample());
    assert_eq!(out.len(), 1);
    assert_eq!(out[0].record.len(), 1);
    assert_eq!(out[0].record.get("time_remaining"), Some(&FieldValue::Unavailable));
    assert!(!out[0].record.get("time_remaining").unwrap().is_available());
    assert_eq!(out[0].record.get("missing"), None);
}

#[test]
fn record_set_replaces_a_field() {
    let mut record = Record::new();
    assert_eq!(record.len(), 0);
    record.set("a".to_string(), FieldValue::Number(1));
    record.set("b".to_string(), FieldValue::Number(2));
    record.set("a".to_string(), FieldValue::Number(3));
    assert_eq!(record.len(), 2);
    assert_eq!(record.get("a"), Some(&FieldValue::Number(3)));
    assert_eq!(record.name_at(0), "a");
    assert_eq!(record.name_at(1), "b");
    assert_eq!(record.value_at(1), &FieldValue::Number(2));
    assert_eq!(record.get("c"), None);
}

#[test]
fn no_instance_is_recorded_when_the_handles_are_used_up() {
    let mut registry = Registry::starting_at(u64::MAX - 1);
    assert_eq!(
        registry.acquire("one".to_string(), battery(), "A".to_string(), names(&["charge_percent"])),
        Acquired::Started(u64::MAX - 1)
    );
    assert_eq!(
        registry.acquire("two".to_string(), battery(), "A".to_string(), names(&["charge_percent"])),
        Acquired::Exhausted
    );
    assert!(!registry.has_instance("two"));
    assert_eq!(registry.instance_count(), 1);
    assert_eq!(
        registry.acquire("one".to_string(), battery(), "B".to_string(), names(&["is_charging"])),
        Acquired::Joined
    );
    assert_eq!(registry.release("two", "A"), Released::Absent);

    let mut manager = ProviderManager::with_registry(Platform::Linux, registry);
    let r = manager.create("three".to_string(), battery(), names(&[]), "A".to_string());
    assert_eq!(r, Err(CreateError::Exhausted));
    assert_eq!(manager.registry().instance_count(), 1);
    assert_eq!(manager.destroy("one", "A"), Released::Remaining);
    assert_eq!(manager.destroy("one", "B"), Released::Stopped(u64::MAX - 1));
}
