use zebar::config::{BatteryProviderConfig, Platform, ProviderConfig, ProviderKind};
use zebar::manager::{Creation, ProviderManager};
use zebar::model::Acquired;
use zebar::record::{FieldValue, Record};
use zebar::registry::Registry;
use zebar::schema::{complete, field_names, is_field, prune, unavailable};

#[test]
fn battery_records_have_three_fields() {
    assert_eq!(field_names(ProviderKind::Battery), vec!["charge_percent", "is_charging", "time_remaining"]);
}

#[test]
fn field_names_of_the_other_variants() {
    assert_eq!(
        field_names(ProviderKind::Cpu),
        vec!["usage", "frequency", "logical_core_count", "physical_core_count"]
    );
    assert_eq!(field_names(ProviderKind::Host), vec!["hostname", "os_name", "os_version", "uptime"]);
    assert_eq!(field_names(ProviderKind::Ip), vec!["address", "approx_city", "approx_country"]);
    assert_eq!(
        field_names(ProviderKind::Komorebi),
        vec!["monitors", "focused_monitor", "focused_workspace"]
    );
    assert_eq!(
        field_names(ProviderKind::Memory),
        vec!["usage", "total_memory", "used_memory", "free_memory"]
    );
    assert_eq!(
        field_names(ProviderKind::Network),
        vec!["default_interface", "default_gateway", "interfaces"]
    );
    assert_eq!(
        field_names(ProviderKind::Weather),
        vec!["temperature", "status", "wind_speed", "is_daytime"]
    );
}

#[test]
fn a_missing_field_becomes_unavailable() {
    let mut sample = Record::new();
    sample.set("charge_percent".to_string(), FieldValue::Number(40));
    let record = complete(ProviderKind::Battery, &sample);
    assert_eq!(record.len(), 3);
    assert_eq!(record.get("charge_percent"), Some(&FieldValue::Number(40)));
    assert_eq!(record.get("is_charging"), Some(&FieldValue::Unavailable));
    assert_eq!(record.get("time_remaining"), Some(&FieldValue::Unavailable));
}

#[test]
fn a_field_outside_the_schema_is_dropped() {
    let mut sample = Record::new();
    sample.set("voltage".to_string(), FieldValue::Number(12));
    sample.set("is_charging".to_string(), FieldValue::Flag(false));
    let record = complete(ProviderKind::Battery, &sample);
    assert_eq!(record.len(), 3);
    assert_eq!(record.get("voltage"), None);
    assert_eq!(record.get("is_charging"), Some(&FieldValue::Flag(false)));
}

#[test]
fn a_failed_sample_is_all_unavailable() {
    let record = unavailable(ProviderKind::Host);
    assert_eq!(record.len(), 4);
    for name in field_names(ProviderKind::Host) {
        assert_eq!(record.get(name), Some(&FieldValue::Unavailable));
    }
}

#[test]
fn emit_completes_the_sample_before_it_is_filtered() {
    let mut manager = ProviderManager::new(Platform::MacOs);
    let config = ProviderConfig::Battery(BatteryProviderConfig { refresh_interval_ms: 5000 });
    let r = manager.create(
        "cfg1".to_string(),
        config,
        vec!["time_remaining".to_string(), "voltage".to_string(), "charge_percent".to_string()],
        "A".to_string(),
    );
    assert_eq!(r, Ok(Creation::Start(0)));
    let mut sample = Record::new();
    sample.set("charge_percent".to_string(), FieldValue::Number(81));
    sample.set("voltage".to_string(), FieldValue::Number(12));
    let out = manager.emit(0, sample);
    assert_eq!(out.len(), 1);
    assert_eq!(out[0].window, "A");
    assert_eq!(out[0].record.len(), 2);
    assert_eq!(out[0].record.get("charge_percent"), Some(&FieldValue::Number(81)));
    assert_eq!(out[0].record.get("time_remaining"), Some(&FieldValue::Unavailable));
    assert_eq!(out[0].record.get("voltage"), None);
    let latest = manager.registry().latest("cfg1").unwrap();
    assert_eq!(latest.len(), 3);
    assert_eq!(latest.get("is_charging"), Some(&FieldValue::Unavailable));
}

#[test]
fn only_known_field_names_are_kept() {
    let wanted: Vec<String> =
        ["voltage", "is_charging", "", "charge_percent", "is_charging"].iter().map(|s| s.to_string()).collect();
    assert_eq!(prune(ProviderKind::Battery, &wanted), vec!["is_charging", "charge_percent", "is_charging"]);
    assert_eq!(prune(ProviderKind::Cpu, &wanted), Vec::<String>::new());
    assert_eq!(prune(ProviderKind::Battery, &vec![]), Vec::<String>::new());
    assert!(is_field(ProviderKind::Battery, "time_remaining"));
    assert!(!is_field(ProviderKind::Battery, "usage"));
    assert!(is_field(ProviderKind::Cpu, "usage"));
    assert!(is_field(ProviderKind::Memory, "usage"));
    assert!(!is_field(ProviderKind::Memory, ""));
}

#[test]
fn a_subscriber_holds_no_name_that_its_provider_lacks() {
    let mut registry = Registry::new();
    let config = ProviderConfig::Battery(BatteryProviderConfig { refresh_interval_ms: 5000 });
    let wanted: Vec<String> = ["voltage", "time_remaining", "usage"].iter().map(|s| s.to_string()).collect();
    assert_eq!(registry.acquire("cfg".to_string(), config.clone(), "A".to_string(), wanted.clone()), Acquired::Started(0));
    assert_eq!(registry.wanted_by("cfg", "A"), Some(&vec!["time_remaining".to_string()]));
    assert_eq!(registry.acquire("cfg".to_string(), config, "B".to_string(), vec!["usage".to_string()]), Acquired::Joined);
    assert_eq!(registry.wanted_by("cfg", "B"), Some(&vec![]));
    assert_eq!(registry.wanted_by("cfg", "C"), None);
    assert_eq!(registry.wanted_by("other", "A"), None);
}
