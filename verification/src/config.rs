//! The configuration of a server, read from the values of its environment.

use crate::text::{parse_u64, parsed};
use vstd::prelude::*;
use vstd::string::{StrSliceExecFns, StringExecFns};

verus! {

/// What a server is started with.
#[derive(Debug, Clone)]
pub struct Configuration {
    pub google_region: String,
    pub google_bucket: String,
    pub google_access_key: String,
    pub google_secret_key: String,
    pub id: u64,
    pub redis_url: String,
    pub redis_connection_count: usize,
    pub worker_count: usize,
}

/// The values of the environment that a configuration is read from, each
/// under the name of its variable; `None` where the variable is not set.
#[derive(Debug, Clone)]
pub struct Environment {
    pub group_id: Option<String>,
    pub hostname: Option<String>,
    pub redis_url: Option<String>,
    pub redis_service_host: Option<String>,
    pub google_cloud_region: Option<String>,
    pub google_cloud_bucket: Option<String>,
    pub google_access_key: Option<String>,
    pub google_secret_key: Option<String>,
    pub redis_connection_count: Option<String>,
    pub worker_count: Option<String>,
}

/// A variable of the environment.
#[derive(Debug, Clone, Copy, PartialEq, Eq, Structural)]
pub enum Variable {
    GroupId,
    Hostname,
    RedisServiceHost,
    GoogleCloudRegion,
    GoogleCloudBucket,
    GoogleAccessKey,
    GoogleSecretKey,
    RedisConnectionCount,
    WorkerCount,
}

/// Why the environment gives no configuration.
#[derive(Debug, Clone, Copy, PartialEq, Eq, Structural)]
pub enum ConfigError {
    /// The variable is not set.
    Missing(Variable),
    /// The variable does not hold what it should.
    Invalid(Variable),
}

/// The place of the first `-` in `text` at or behind `from`; the length of
/// `text` where there is none.
pub open spec fn dash_at(text: Seq<char>, from: int) -> int
    decreases text.len() - from,
{
    if from < 0 || from >= text.len() {
        text.len() as int
    } else if text[from] == '-' {
        from
    } else {
        dash_at(text, from + 1)
    }
}

/// What stands between the first `-` of `text` and the next, or the end;
/// `None` where `text` holds no `-`.
pub open spec fn second_field(text: Seq<char>) -> Option<Seq<char>> {
    let first = dash_at(text, 0);
    if first >= text.len() {
        None
    } else {
        Some(text.subrange(first + 1, dash_at(text, first + 1)))
    }
}

/// The place of the first `-` in `text` at or behind `from`.
fn find_dash(text: &str, from: usize, len: usize) -> (place: usize)
    requires
        len == text@.len(),
        from <= len,
    ensures
        place == dash_at(text@, from as int),
        from <= place <= len,
{
    let mut i: usize = from;
    while i < len
        invariant
            len == text@.len(),
            from <= i <= len,
            dash_at(text@, from as int) == dash_at(text@, i as int),
        decreases len - i,
    {
        if text.get_char(i) == '-' {
            return i;
        }
        i += 1;
    }
    i
}

/// The id of the group that a host name carries: the number between its
/// first `-` and the next.
pub open spec fn hostname_id(text: Seq<char>) -> Option<nat> {
    match second_field(text) {
        Some(field) => parsed(field, u64::MAX as nat),
        None => None,
    }
}

/// Reads the id of the group from a host name.
pub fn parse_hostname_id(hostname: &str) -> (id: Option<u64>)
    ensures
        match id {
            Some(v) => hostname_id(hostname@) == Some(v as nat),
            None => hostname_id(hostname@) is None,
        },
{
    let len = hostname.unicode_len();
    let first = find_dash(hostname, 0, len);
    if first >= len {
        return None;
    }
    let second = find_dash(hostname, first + 1, len);
    parse_u64(hostname.substring_char(first + 1, second))
}

/// Reads a count, which has to fit into the machine's word.
pub fn parse_count(text: &str) -> (count: Option<usize>)
    ensures
        match count {
            Some(v) => parsed(text@, usize::MAX as nat) == Some(v as nat),
            None => parsed(text@, usize::MAX as nat) is None,
        },
{
    match parse_u64(text) {
        Some(v) => if v <= usize::MAX as u64 {
            Some(v as usize)
        } else {
            None
        },
        None => None,
    }
}

/// The address of the directory on `host`.
pub open spec fn redis_address(host: Seq<char>) -> Seq<char> {
    "redis://"@ + host + ":6379"@
}

/// The model of the values of an environment.
pub ghost struct EnvironmentView {
    pub group_id: Option<Seq<char>>,
    pub hostname: Option<Seq<char>>,
    pub redis_url: Option<Seq<char>>,
    pub redis_service_host: Option<Seq<char>>,
    pub google_cloud_region: Option<Seq<char>>,
    pub google_cloud_bucket: Option<Seq<char>>,
    pub google_access_key: Option<Seq<char>>,
    pub google_secret_key: Option<Seq<char>>,
    pub redis_connection_count: Option<Seq<char>>,
    pub worker_count: Option<Seq<char>>,
}

/// The model of a value.
pub open spec fn value_view(value: Option<String>) -> Option<Seq<char>> {
    match value {
        Some(text) => Some(text@),
        None => None,
    }
}

impl View for Environment {
    type V = EnvironmentView;

    open spec fn view(&self) -> EnvironmentView {
        EnvironmentView {
            group_id: value_view(self.group_id),
            hostname: value_view(self.hostname),
            redis_url: value_view(self.redis_url),
            redis_service_host: value_view(self.redis_service_host),
            google_cloud_region: value_view(self.google_cloud_region),
            google_cloud_bucket: value_view(self.google_cloud_bucket),
            google_access_key: value_view(self.google_access_key),
            google_secret_key: value_view(self.google_secret_key),
            redis_connection_count: value_view(self.redis_connection_count),
            worker_count: value_view(self.worker_count),
        }
    }
}

/// The model of a configuration.
pub ghost struct ConfigurationView {
    pub google_region: Seq<char>,
    pub google_bucket: Seq<char>,
    pub google_access_key: Seq<char>,
    pub google_secret_key: Seq<char>,
    pub id: u64,
    pub redis_url: Seq<char>,
    pub redis_connection_count: usize,
    pub worker_count: usize,
}

impl View for Configuration {
    type V = ConfigurationView;

    open spec fn view(&self) -> ConfigurationView {
        ConfigurationView {
            google_region: self.google_region@,
            google_bucket: self.google_bucket@,
            google_access_key: self.google_access_key@,
            google_secret_key: self.google_secret_key@,
            id: self.id,
            redis_url: self.redis_url@,
            redis_connection_count: self.redis_connection_count,
            worker_count: self.worker_count,
        }
    }
}

impl EnvironmentView {
    /// The id of the server's group: what `GROUP_ID` holds, or, where that
    /// is not set, what the host name carries.
    pub open spec fn id(self) -> Result<u64, ConfigError> {
        match self.group_id {
            Some(text) => match parsed(text, u64::MAX as nat) {
                Some(v) => Ok(v as u64),
                None => Err(ConfigError::Invalid(Variable::GroupId)),
            },
            None => match self.hostname {
                Some(text) => match hostname_id(text) {
                    Some(v) => Ok(v as u64),
                    None => Err(ConfigError::Invalid(Variable::Hostname)),
                },
                None => Err(ConfigError::Missing(Variable::Hostname)),
            },
        }
    }

    /// The address of the directory: what `REDIS_URL` holds, or, where that
    /// is not set, the address on the host that `REDIS_SERVICE_HOST` names.
    pub open spec fn redis_url(self) -> Result<Seq<char>, ConfigError> {
        match self.redis_url {
            Some(url) => Ok(url),
            None => match self.redis_service_host {
                Some(host) => Ok(redis_address(host)),
                None => Err(ConfigError::Missing(Variable::RedisServiceHost)),
            },
        }
    }

    /// The configuration that the values give, or what is wrong with the
    /// first of them that is: the id, the directory's address, the four
    /// values of the object store, the number of connections to the
    /// directory, the number of workers.
    pub open spec fn configuration(self) -> Result<ConfigurationView, ConfigError> {
        if self.id() is Err {
            Err(self.id()->Err_0)
        } else if self.redis_url() is Err {
            Err(self.redis_url()->Err_0)
        } else if self.google_cloud_region is None {
            Err(ConfigError::Missing(Variable::GoogleCloudRegion))
        } else if self.google_cloud_bucket is None {
            Err(ConfigError::Missing(Variable::GoogleCloudBucket))
        } else if self.google_access_key is None {
            Err(ConfigError::Missing(Variable::GoogleAccessKey))
        } else if self.google_secret_key is None {
            Err(ConfigError::Missing(Variable::GoogleSecretKey))
        } else if self.redis_connection_count is None {
            Err(ConfigError::Missing(Variable::RedisConnectionCount))
        } else if parsed(self.redis_connection_count->0, usize::MAX as nat) is None {
            Err(ConfigError::Invalid(Variable::RedisConnectionCount))
        } else if self.worker_count is None {
            Err(ConfigError::Missing(Variable::WorkerCount))
        } else if parsed(self.worker_count->0, usize::MAX as nat) is None {
            Err(ConfigError::Invalid(Variable::WorkerCount))
        } else {
            Ok(
                ConfigurationView {
                    google_region: self.google_cloud_region->0,
                    google_bucket: self.google_cloud_bucket->0,
                    google_access_key: self.google_access_key->0,
                    google_secret_key: self.google_secret_key->0,
                    id: self.id()->Ok_0,
                    redis_url: self.redis_url()->Ok_0,
                    redis_connection_count: parsed(
                        self.redis_connection_count->0,
                        usize::MAX as nat,
                    )->0 as usize,
                    worker_count: parsed(self.worker_count->0, usize::MAX as nat)->0 as usize,
                },
            )
        }
    }
}

impl Configuration {
    /// Reads the configuration from the values of the environment.
    pub fn from_values(env: Environment) -> (r: Result<Configuration, ConfigError>)
        ensures
            match r {
                Ok(config) => env@.configuration() == Ok::<ConfigurationView, ConfigError>(config@),
                Err(e) => env@.configuration() == Err::<ConfigurationView, ConfigError>(e),
            },
    {
        let id = match &env.group_id {
            Some(text) => match parse_u64(text.as_str()) {
                Some(v) => v,
                None => {
                    return Err(ConfigError::Invalid(Variable::GroupId));
                },
            },
            None => match &env.hostname {
                Some(text) => match parse_hostname_id(text.as_str()) {
                    Some(v) => v,
                    None => {
                        return Err(ConfigError::Invalid(Variable::Hostname));
                    },
                },
                None => {
                    return Err(ConfigError::Missing(Variable::Hostname));
                },
            },
        };
        let Environment {
            group_id,
            hostname,
            redis_url,
            redis_service_host,
            google_cloud_region,
            google_cloud_bucket,
            google_access_key,
            google_secret_key,
            redis_connection_count,
            worker_count,
        } = env;
        let redis_url = match redis_url {
            Some(url) => url,
            None => match redis_service_host {
                Some(host) => {
                    let mut url = String::from_str("redis://");
                    url.append(host.as_str());
                    url.append(":6379");
                    url
                },
                None => {
                    return Err(ConfigError::Missing(Variable::RedisServiceHost));
                },
            },
        };
        let google_region = match google_cloud_region {
            Some(text) => text,
            None => {
                return Err(ConfigError::Missing(Variable::GoogleCloudRegion));
            },
        };
        let google_bucket = match google_cloud_bucket {
            Some(text) => text,
            None => {
                return Err(ConfigError::Missing(Variable::GoogleCloudBucket));
            },
        };
        let google_access_key = match google_access_key {
            Some(text) => text,
            None => {
                return Err(ConfigError::Missing(Variable::GoogleAccessKey));
            },
        };
        let google_secret_key = match google_secret_key {
            Some(text) => text,
            None => {
                return Err(ConfigError::Missing(Variable::GoogleSecretKey));
            },
        };
        let redis_connection_count = match redis_connection_count {
            Some(text) => match parse_count(text.as_str()) {
                Some(v) => v,
                None => {
                    return Err(ConfigError::Invalid(Variable::RedisConnectionCount));
                },
            },
            None => {
                return Err(ConfigError::Missing(Variable::RedisConnectionCount));
            },
        };
        let worker_count = match worker_count {
            Some(text) => match parse_count(text.as_str()) {
                Some(v) => v,
                None => {
                    return Err(ConfigError::Invalid(Variable::WorkerCount));
                },
            },
            None => {
                return Err(ConfigError::Missing(Variable::WorkerCount));
            },
        };
        Ok(
            Configuration {
                google_region,
                google_bucket,
                google_access_key,
                google_secret_key,
                id,
                redis_url,
                redis_connection_count,
                worker_count,
            },
        )
    }
}

} // verus!
