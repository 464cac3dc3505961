use zebar::config::{
    BatteryProviderConfig, ConfigError, CpuProviderConfig, HostProviderConfig, IpProviderConfig,
    KomorebiProviderConfig, MemoryProviderConfig, NetworkProviderConfig, Platform, ProviderConfig,
    ProviderKind, TemperatureUnit, WeatherProviderConfig,
};
use zebar::manager::{CreateError, Creation, ProviderManager};
use zebar::model::Released;

fn weather(latitude_e6: i64, longitude_e6: i64) -> ProviderConfig {
    ProviderConfig::Weather(WeatherProviderConfig {
        refresh_interval_ms: 60_000,
        latitude_e6,
        longitude_e6,
        unit: TemperatureUnit::Celsius,
    })
}

fn all_kinds() -> Vec<ProviderKind> {
    vec![
        ProviderKind::Battery,
        ProviderKind::Cpu,
        ProviderKind::Host,
        ProviderKind::Ip,
        ProviderKind::Komorebi,
        ProviderKind::Memory,
        ProviderKind::Network,
        ProviderKind::Weather,
    ]
}

#[test]
fn every_discriminator_names_its_variant() {
    assert_eq!(ProviderKind::from_tag("battery"), Ok(ProviderKind::Battery));
    assert_eq!(ProviderKind::from_tag("cpu"), Ok(ProviderKind::Cpu));
    assert_eq!(ProviderKind::from_tag("host"), Ok(ProviderKind::Host));
    assert_eq!(ProviderKind::from_tag("ip"), Ok(ProviderKind::Ip));
    assert_eq!(ProviderKind::from_tag("komorebi"), Ok(ProviderKind::Komorebi));
    assert_eq!(ProviderKind::from_tag("memory"), Ok(ProviderKind::Memory));
    assert_eq!(ProviderKind::from_tag("network"), Ok(ProviderKind::Network));
    assert_eq!(ProviderKind::from_tag("weather"), Ok(ProviderKind::Weather));
}

#[test]
fn an_unknown_discriminator_is_an_error() {
    assert_eq!(ProviderKind::from_tag("disk"), Err(ConfigError::UnknownVariant));
    assert_eq!(ProviderKind::from_tag(""), Err(ConfigError::UnknownVariant));
    assert_eq!(ProviderKind::from_tag("Battery"), Err(ConfigError::UnknownVariant));
    assert_eq!(ProviderKind::from_tag("battery "), Err(ConfigError::UnknownVariant));
}

#[test]
fn tag_and_from_tag_agree() {
    for kind in all_kinds() {
        assert_eq!(ProviderKind::from_tag(kind.tag()), Ok(kind));
    }
    assert_eq!(ProviderKind::Komorebi.tag(), "komorebi");
}

#[test]
fn the_window_manager_variant_needs_windows() {
    for kind in all_kinds() {
        assert!(kind.is_supported(Platform::Windows));
        let elsewhere = kind != ProviderKind::Komorebi;
        assert_eq!(kind.is_supported(Platform::Linux), elsewhere);
        assert_eq!(kind.is_supported(Platform::MacOs), elsewhere);
    }
    let config = ProviderConfig::Komorebi(KomorebiProviderConfig {});
    assert_eq!(config.validate(Platform::Windows), Ok(()));
    assert_eq!(config.validate(Platform::Linux), Err(ConfigError::UnsupportedPlatform));
    assert_eq!(config.validate(Platform::MacOs), Err(ConfigError::UnsupportedPlatform));
}

#[test]
fn kind_and_interval_of_each_variant() {
    let configs = vec![
        (ProviderConfig::Battery(BatteryProviderConfig { refresh_interval_ms: 1 }), ProviderKind::Battery, Some(1)),
        (ProviderConfig::Cpu(CpuProviderConfig { refresh_interval_ms: 2 }), ProviderKind::Cpu, Some(2)),
        (ProviderConfig::Host(HostProviderConfig { refresh_interval_ms: 3 }), ProviderKind::Host, Some(3)),
        (ProviderConfig::Ip(IpProviderConfig { refresh_interval_ms: 4 }), ProviderKind::Ip, Some(4)),
        (ProviderConfig::Komorebi(KomorebiProviderConfig {}), ProviderKind::Komorebi, None),
        (ProviderConfig::Memory(MemoryProviderConfig { refresh_interval_ms: 5 }), ProviderKind::Memory, Some(5)),
        (
            ProviderConfig::Network(NetworkProviderConfig { refresh_interval_ms: 6, interface: None }),
            ProviderKind::Network,
            Some(6),
        ),
        (weather(0, 0), ProviderKind::Weather, Some(60_000)),
    ];
    for (config, kind, interval) in configs {
        assert_eq!(config.kind(), kind);
        assert_eq!(config.refresh_interval_ms(), interval);
        assert_eq!(config.validate(Platform::Windows), Ok(()));
        assert_eq!(config.clone(), config);
    }
}

#[test]
fn a_zero_interval_is_invalid() {
    let config = ProviderConfig::Cpu(CpuProviderConfig { refresh_interval_ms: 0 });
    assert_eq!(config.validate(Platform::Linux), Err(ConfigError::InvalidInterval));
    let config = ProviderConfig::Cpu(CpuProviderConfig { refresh_interval_ms: 1 });
    assert_eq!(config.validate(Platform::Linux), Ok(()));
    let config = ProviderConfig::Memory(MemoryProviderConfig { refresh_interval_ms: u64::MAX });
    assert_eq!(config.validate(Platform::Linux), Ok(()));
}

#[test]
fn weather_coordinates_have_a_range() {
    assert_eq!(weather(90_000_000, 180_000_000).validate(Platform::Linux), Ok(()));
    assert_eq!(weather(-90_000_000, -180_000_000).validate(Platform::Linux), Ok(()));
    assert_eq!(weather(90_000_001, 0).validate(Platform::Linux), Err(ConfigError::InvalidLatitude));
    assert_eq!(weather(-90_000_001, 0).validate(Platform::Linux), Err(ConfigError::InvalidLatitude));
    assert_eq!(weather(0, 180_000_001).validate(Platform::Linux), Err(ConfigError::InvalidLongitude));
    assert_eq!(weather(0, -180_000_001).validate(Platform::Linux), Err(ConfigError::InvalidLongitude));
    assert_eq!(weather(i64::MIN, i64::MAX).validate(Platform::Linux), Err(ConfigError::InvalidLatitude));
}

#[test]
fn the_first_fault_is_reported() {
    let config = ProviderConfig::Weather(WeatherProviderConfig {
        refresh_interval_ms: 0,
        latitude_e6: 91_000_000,
        longitude_e6: 181_000_000,
        unit: TemperatureUnit::Fahrenheit,
    });
    assert_eq!(config.validate(Platform::MacOs), Err(ConfigError::InvalidInterval));
}

#[test]
fn error_messages() {
    assert_eq!(ConfigError::UnknownVariant.message(), "unknown provider type");
    assert_eq!(ConfigError::UnsupportedPlatform.message(), "unsupported on this platform");
    assert_eq!(ConfigError::InvalidInterval.message(), "refresh interval must be greater than zero");
    assert_eq!(ConfigError::InvalidLatitude.message(), "latitude must be between -90 and 90 degrees");
    assert_eq!(ConfigError::InvalidLongitude.message(), "longitude must be between -180 and 180 degrees");
    assert_eq!(
        CreateError::Config(ConfigError::UnsupportedPlatform).message(),
        "unsupported on this platform"
    );
    assert_eq!(CreateError::StartUp("permission denied".to_string()).message(), "permission denied");
    assert_eq!(CreateError::Exhausted.message(), "no provider handle is left");
}

#[test]
fn a_faulty_configuration_never_reaches_the_registry() {
    let mut manager = ProviderManager::new(Platform::Linux);
    let r = manager.create(
        "wm".to_string(),
        ProviderConfig::Komorebi(KomorebiProviderConfig {}),
        vec!["monitors".to_string()],
        "A".to_string(),
    );
    assert_eq!(r, Err(CreateError::Config(ConfigError::UnsupportedPlatform)));
    assert_eq!(manager.registry().instance_count(), 0);

    let r = manager.create(
        "cpu".to_string(),
        ProviderConfig::Cpu(CpuProviderConfig { refresh_interval_ms: 0 }),
        vec!["usage".to_string()],
        "A".to_string(),
    );
    assert_eq!(r, Err(CreateError::Config(ConfigError::InvalidInterval)));
    assert_eq!(manager.registry().instance_count(), 0);
    assert_eq!(manager.destroy("cpu", "A"), Released::Absent);

    let r = manager.create(
        "cpu".to_string(),
        ProviderConfig::Cpu(CpuProviderConfig { refresh_interval_ms: 1000 }),
        vec!["usage".to_string()],
        "A".to_string(),
    );
    assert_eq!(r, Ok(Creation::Start(0)));
    let r = manager.create(
        "cpu".to_string(),
        ProviderConfig::Cpu(CpuProviderConfig { refresh_interval_ms: 0 }),
        vec!["usage".to_string()],
        "B".to_string(),
    );
    assert_eq!(r, Err(CreateError::Config(ConfigError::InvalidInterval)));
    assert_eq!(manager.registry().subscriber_count("cpu"), 1);
}

#[test]
fn the_window_manager_variant_is_created_on_windows() {
    let mut manager = ProviderManager::new(Platform::Windows);
    let r = manager.create(
        "wm".to_string(),
        ProviderConfig::Komorebi(KomorebiProviderConfig {}),
        vec!["monitors".to_string()],
        "A".to_string(),
    );
    assert_eq!(r, Ok(Creation::Start(0)));
    assert_eq!(manager.registry().kind_of(0), Some(ProviderKind::Komorebi));
    assert_eq!(manager.registry().kind_of(1), None);
}
