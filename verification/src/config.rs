//! Provider configurations: the supported domains, their parameters, and the
//! checks a configuration passes before any provider is started for it.

use vstd::prelude::*;

verus! {

/// The platform the shell runs on.
#[derive(Debug, Clone, Copy, PartialEq, Eq, Structural)]
pub enum Platform {
    Windows,
    MacOs,
    Linux,
}

/// The information domains, one per provider variant.
#[derive(Debug, Clone, Copy, PartialEq, Eq, Structural)]
pub enum ProviderKind {
    Battery,
    Cpu,
    Host,
    Ip,
    Komorebi,
    Memory,
    Network,
    Weather,
}

/// Why a configuration is not accepted.
#[derive(Debug, Clone, Copy, PartialEq, Eq, Structural)]
pub enum ConfigError {
    /// The discriminator names no provider variant.
    UnknownVariant,
    /// The variant needs an integration that the platform does not offer.
    UnsupportedPlatform,
    /// A polling variant was given a refresh interval of zero.
    InvalidInterval,
    /// A latitude outside of -90 to 90 degrees.
    InvalidLatitude,
    /// A longitude outside of -180 to 180 degrees.
    InvalidLongitude,
}

#[derive(Debug, Clone, Copy, PartialEq, Eq)]
pub struct BatteryProviderConfig {
    pub refresh_interval_ms: u64,
}

#[derive(Debug, Clone, Copy, PartialEq, Eq)]
pub struct CpuProviderConfig {
    pub refresh_interval_ms: u64,
}

#[derive(Debug, Clone, Copy, PartialEq, Eq)]
pub struct HostProviderConfig {
    pub refresh_interval_ms: u64,
}

#[derive(Debug, Clone, Copy, PartialEq, Eq)]
pub struct IpProviderConfig {
    pub refresh_interval_ms: u64,
}

/// The window-manager provider listens for events and has no parameters.
#[derive(Debug, Clone, Copy, PartialEq, Eq)]
pub struct KomorebiProviderConfig {}

#[derive(Debug, Clone, Copy, PartialEq, Eq)]
pub struct MemoryProviderConfig {
    pub refresh_interval_ms: u64,
}

#[derive(Debug, PartialEq, Eq)]
pub struct NetworkProviderConfig {
    pub refresh_interval_ms: u64,
    /// The interface to report on; `None` for the default interface.
    pub interface: Option<String>,
}

/// The unit in which a weather provider reports temperatures.
#[derive(Debug, Clone, Copy, PartialEq, Eq, Structural)]
pub enum TemperatureUnit {
    Celsius,
    Fahrenheit,
}

#[derive(Debug, Clone, Copy, PartialEq, Eq)]
pub struct WeatherProviderConfig {
    pub refresh_interval_ms: u64,
    /// Latitude in millionths of a degree.
    pub latitude_e6: i64,
    /// Longitude in millionths of a degree.
    pub longitude_e6: i64,
    pub unit: TemperatureUnit,
}

/// A provider configuration: the domain and its parameters.
#[derive(Debug, PartialEq, Eq)]
pub enum ProviderConfig {
    Battery(BatteryProviderConfig),
    Cpu(CpuProviderConfig),
    Host(HostProviderConfig),
    Ip(IpProviderConfig),
    Komorebi(KomorebiProviderConfig),
    Memory(MemoryProviderConfig),
    Network(NetworkProviderConfig),
    Weather(WeatherProviderConfig),
}

impl Clone for NetworkProviderConfig {
    fn clone(&self) -> (r: Self)
        ensures
            r == *self,
    {
        NetworkProviderConfig {
            refresh_interval_ms: self.refresh_interval_ms,
            interface: match &self.interface {
                Some(name) => Some(name.clone()),
                None => None,
            },
        }
    }
}

impl Clone for ProviderConfig {
    fn clone(&self) -> (r: Self)
        ensures
            r == *self,
    {
        match self {
            ProviderConfig::Battery(c) => ProviderConfig::Battery(*c),
            ProviderConfig::Cpu(c) => ProviderConfig::Cpu(*c),
            ProviderConfig::Host(c) => ProviderConfig::Host(*c),
            ProviderConfig::Ip(c) => ProviderConfig::Ip(*c),
            ProviderConfig::Komorebi(c) => ProviderConfig::Komorebi(*c),
            ProviderConfig::Memory(c) => ProviderConfig::Memory(*c),
            ProviderConfig::Network(c) => ProviderConfig::Network(c.clone()),
            ProviderConfig::Weather(c) => ProviderConfig::Weather(*c),
        }
    }
}

pub const MAX_LATITUDE_E6: i64 = 90_000_000;

pub const MAX_LONGITUDE_E6: i64 = 180_000_000;

/// The variant that a discriminator names, if it names one.
pub open spec fn kind_of_tag(tag: Seq<char>) -> Option<ProviderKind> {
    if tag == "battery"@ {
        Some(ProviderKind::Battery)
    } else if tag == "cpu"@ {
        Some(ProviderKind::Cpu)
    } else if tag == "host"@ {
        Some(ProviderKind::Host)
    } else if tag == "ip"@ {
        Some(ProviderKind::Ip)
    } else if tag == "komorebi"@ {
        Some(ProviderKind::Komorebi)
    } else if tag == "memory"@ {
        Some(ProviderKind::Memory)
    } else if tag == "network"@ {
        Some(ProviderKind::Network)
    } else if tag == "weather"@ {
        Some(ProviderKind::Weather)
    } else {
        None
    }
}

impl ProviderKind {
    /// The discriminator of the variant.
    pub open spec fn tag_text(self) -> Seq<char> {
        match self {
            ProviderKind::Battery => "battery"@,
            ProviderKind::Cpu => "cpu"@,
            ProviderKind::Host => "host"@,
            ProviderKind::Ip => "ip"@,
            ProviderKind::Komorebi => "komorebi"@,
            ProviderKind::Memory => "memory"@,
            ProviderKind::Network => "network"@,
            ProviderKind::Weather => "weather"@,
        }
    }

    /// The window-manager variant exists on Windows only; every other
    /// variant exists everywhere.
    pub open spec fn supported(self, platform: Platform) -> bool {
        self is Komorebi ==> platform is Windows
    }

    /// Whether the variant samples on a timer. The window-manager variant
    /// waits for events instead.
    pub open spec fn polls(self) -> bool {
        !(self is Komorebi)
    }

    pub fn tag(self) -> (t: &'static str)
        ensures
            t@ == self.tag_text(),
    {
        match self {
            ProviderKind::Battery => "battery",
            ProviderKind::Cpu => "cpu",
            ProviderKind::Host => "host",
            ProviderKind::Ip => "ip",
            ProviderKind::Komorebi => "komorebi",
            ProviderKind::Memory => "memory",
            ProviderKind::Network => "network",
            ProviderKind::Weather => "weather",
        }
    }

    /// Reads a discriminator. One that names no variant is an error.
    pub fn from_tag(tag: &str) -> (r: Result<ProviderKind, ConfigError>)
        ensures
            r == (match kind_of_tag(tag@) {
                Some(kind) => Ok::<ProviderKind, ConfigError>(kind),
                None => Err(ConfigError::UnknownVariant),
            }),
    {
        if tag.eq("battery") {
            Ok(ProviderKind::Battery)
        } else if tag.eq("cpu") {
            Ok(ProviderKind::Cpu)
        } else if tag.eq("host") {
            Ok(ProviderKind::Host)
        } else if tag.eq("ip") {
            Ok(ProviderKind::Ip)
        } else if tag.eq("komorebi") {
            Ok(ProviderKind::Komorebi)
        } else if tag.eq("memory") {
            Ok(ProviderKind::Memory)
        } else if tag.eq("network") {
            Ok(ProviderKind::Network)
        } else if tag.eq("weather") {
            Ok(ProviderKind::Weather)
        } else {
            Err(ConfigError::UnknownVariant)
        }
    }

    pub fn is_supported(self, platform: Platform) -> (b: bool)
        ensures
            b == self.supported(platform),
    {
        match self {
            ProviderKind::Komorebi => match platform {
                Platform::Windows => true,
                _ => false,
            },
            _ => true,
        }
    }
}

/// Reading the discriminator of a variant gives that variant back.
pub proof fn lemma_tag_round_trip(kind: ProviderKind)
    ensures
        kind_of_tag(kind.tag_text()) == Some(kind),
{
    reveal_strlit("battery");
    reveal_strlit("cpu");
    reveal_strlit("host");
    reveal_strlit("ip");
    reveal_strlit("komorebi");
    reveal_strlit("memory");
    reveal_strlit("network");
    reveal_strlit("weather");
    assert("battery"@[0] == 'b');
    assert("network"@[0] == 'n');
    assert("weather"@[0] == 'w');
    assert("battery"@.len() == 7 && "network"@.len() == 7 && "weather"@.len() == 7);
    assert("cpu"@.len() == 3 && "host"@.len() == 4 && "ip"@.len() == 2);
    assert("komorebi"@.len() == 8 && "memory"@.len() == 6);
}

impl ProviderConfig {
    pub open spec fn kind_of(self) -> ProviderKind {
        match self {
            ProviderConfig::Battery(_) => ProviderKind::Battery,
            ProviderConfig::Cpu(_) => ProviderKind::Cpu,
            ProviderConfig::Host(_) => ProviderKind::Host,
            ProviderConfig::Ip(_) => ProviderKind::Ip,
            ProviderConfig::Komorebi(_) => ProviderKind::Komorebi,
            ProviderConfig::Memory(_) => ProviderKind::Memory,
            ProviderConfig::Network(_) => ProviderKind::Network,
            ProviderConfig::Weather(_) => ProviderKind::Weather,
        }
    }

    /// The refresh interval of a polling variant; `None` for a variant that
    /// waits for events.
    pub open spec fn interval(self) -> Option<u64> {
        match self {
            ProviderConfig::Battery(c) => Some(c.refresh_interval_ms),
            ProviderConfig::Cpu(c) => Some(c.refresh_interval_ms),
            ProviderConfig::Host(c) => Some(c.refresh_interval_ms),
            ProviderConfig::Ip(c) => Some(c.refresh_interval_ms),
            ProviderConfig::Komorebi(_) => None,
            ProviderConfig::Memory(c) => Some(c.refresh_interval_ms),
            ProviderConfig::Network(c) => Some(c.refresh_interval_ms),
            ProviderConfig::Weather(c) => Some(c.refresh_interval_ms),
        }
    }

    /// The first fault of the configuration on `platform`, in this order:
    /// the platform lacks the variant, the refresh interval is zero, the
    /// latitude is out of range, the longitude is out of range.
    pub open spec fn fault(self, platform: Platform) -> Option<ConfigError> {
        if !self.kind_of().supported(platform) {
            Some(ConfigError::UnsupportedPlatform)
        } else if self.interval() == Some(0u64) {
            Some(ConfigError::InvalidInterval)
        } else if self matches ProviderConfig::Weather(c) && !(-MAX_LATITUDE_E6 <= c.latitude_e6
            <= MAX_LATITUDE_E6) {
            Some(ConfigError::InvalidLatitude)
        } else if self matches ProviderConfig::Weather(c) && !(-MAX_LONGITUDE_E6 <= c.longitude_e6
            <= MAX_LONGITUDE_E6) {
            Some(ConfigError::InvalidLongitude)
        } else {
            None
        }
    }

    pub fn kind(&self) -> (k: ProviderKind)
        ensures
            k == self.kind_of(),
    {
        match self {
            ProviderConfig::Battery(_) => ProviderKind::Battery,
            ProviderConfig::Cpu(_) => ProviderKind::Cpu,
            ProviderConfig::Host(_) => ProviderKind::Host,
            ProviderConfig::Ip(_) => ProviderKind::Ip,
            ProviderConfig::Komorebi(_) => ProviderKind::Komorebi,
            ProviderConfig::Memory(_) => ProviderKind::Memory,
            ProviderConfig::Network(_) => ProviderKind::Network,
            ProviderConfig::Weather(_) => ProviderKind::Weather,
        }
    }

    pub fn refresh_interval_ms(&self) -> (r: Option<u64>)
        ensures
            r == self.interval(),
            r is Some <==> self.kind_of().polls(),
    {
        match self {
            ProviderConfig::Battery(c) => Some(c.refresh_interval_ms),
            ProviderConfig::Cpu(c) => Some(c.refresh_interval_ms),
            ProviderConfig::Host(c) => Some(c.refresh_interval_ms),
            ProviderConfig::Ip(c) => Some(c.refresh_interval_ms),
            ProviderConfig::Komorebi(_) => None,
            ProviderConfig::Memory(c) => Some(c.refresh_interval_ms),
            ProviderConfig::Network(c) => Some(c.refresh_interval_ms),
            ProviderConfig::Weather(c) => Some(c.refresh_interval_ms),
        }
    }

    /// Accepts the configuration for `platform`, or names its first fault.
    pub fn validate(&self, platform: Platform) -> (r: Result<(), ConfigError>)
        ensures
            r == (match self.fault(platform) {
                Some(e) => Err::<(), ConfigError>(e),
                None => Ok(()),
            }),
    {
        if !self.kind().is_supported(platform) {
            return Err(ConfigError::UnsupportedPlatform);
        }
        match self.refresh_interval_ms() {
            Some(ms) => {
                if ms == 0 {
                    return Err(ConfigError::InvalidInterval);
                }
            },
            None => {},
        }
        match self {
            ProviderConfig::Weather(c) => {
                if c.latitude_e6 < -MAX_LATITUDE_E6 || c.latitude_e6 > MAX_LATITUDE_E6 {
                    Err(ConfigError::InvalidLatitude)
                } else if c.longitude_e6 < -MAX_LONGITUDE_E6 || c.longitude_e6 > MAX_LONGITUDE_E6 {
                    Err(ConfigError::InvalidLongitude)
                } else {
                    Ok(())
                }
            },
            _ => Ok(()),
        }
    }
}

impl ConfigError {
    /// The text shown to the caller for this error.
    pub open spec fn text(self) -> Seq<char> {
        match self {
            ConfigError::UnknownVariant => "unknown provider type"@,
            ConfigError::UnsupportedPlatform => "unsupported on this platform"@,
            ConfigError::InvalidInterval => "refresh interval must be greater than zero"@,
            ConfigError::InvalidLatitude => "latitude must be between -90 and 90 degrees"@,
            ConfigError::InvalidLongitude => "longitude must be between -180 and 180 degrees"@,
        }
    }

    pub fn message(&self) -> (s: String)
        ensures
            s@ == self.text(),
    {
        match self {
            ConfigError::UnknownVariant => "unknown provider type".to_owned(),
            ConfigError::UnsupportedPlatform => "unsupported on this platform".to_owned(),
            ConfigError::InvalidInterval => "refresh interval must be greater than zero".to_owned(),
            ConfigError::InvalidLatitude => "latitude must be between -90 and 90 degrees".to_owned(),
            ConfigError::InvalidLongitude => "longitude must be between -180 and 180 degrees".to_owned(),
        }
    }
}

} // verus!
