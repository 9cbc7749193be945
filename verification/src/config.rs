//! The configuration of a node.

use vstd::prelude::*;
use vstd::string::*;
use crate::error::Error;
use crate::storage::DEFAULT_STORAGE_CAPACITY;

verus! {

pub const DEFAULT_BIND_ADDRESS: &'static str = "127.0.0.1:50000";

pub const DEFAULT_ENDPOINT_URL: &'static str = "http://127.0.0.1:50000";

pub const DEFAULT_ICE_SERVERS: &'static str = "stun://stun.l.google.com:19302";

/// The stabilizer's period unless another is asked for, in seconds.
pub const DEFAULT_STABILIZE_TIMEOUT: usize = 3;

/// `base` with `part` below it. A `part` that starts at the root stands
/// for itself.
pub open spec fn path_join(base: Seq<char>, part: Seq<char>) -> Seq<char> {
    if part.len() > 0 && part[0] == '/' {
        part
    } else if base.len() == 0 || base.last() == '/' {
        base + part
    } else {
        base + seq!['/'] + part
    }
}

/// Where a store is kept: under the home directory, or under `data` where
/// no home directory is known.
pub open spec fn storage_location(home: Option<Seq<char>>, prefix: Seq<char>, path: Seq<char>)
    -> Seq<char> {
    let root = match home {
        Some(dir) => dir,
        None => seq!['d', 'a', 't', 'a'],
    };
    path_join(path_join(root, prefix), path)
}

fn join_path(base: &str, part: &str) -> (joined: String)
    ensures
        joined@ == path_join(base@, part@),
{
    let part_len = part.unicode_len();
    if part_len > 0 && part.get_char(0) == '/' {
        return part.to_owned();
    }
    let base_len = base.unicode_len();
    let mut joined = base.to_owned();
    if !(base_len == 0 || base.get_char(base_len - 1) == '/') {
        proof {
            reveal_strlit("/");
        }
        joined.append("/");
        assert(joined@ =~= base@ + seq!['/']);
    }
    joined.append(part);
    joined
}

/// Where the store `path` of the application `prefix` is kept, given the
/// home directory if one is known.
pub fn get_storage_location(home: Option<&str>, prefix: &str, path: &str) -> (location: String)
    ensures
        location@ == storage_location(
            match home {
                Some(dir) => Some(dir@),
                None => None,
            },
            prefix@,
            path@,
        ),
{
    let root = match home {
        Some(dir) => dir.to_owned(),
        None => {
            proof {
                reveal_strlit("data");
            }
            let root = "data".to_owned();
            assert(root@ =~= seq!['d', 'a', 't', 'a']);
            root
        },
    };
    let under = join_path(root.as_str(), prefix);
    join_path(under.as_str(), path)
}

/// `path` with a leading `~` replaced by the home directory.
pub open spec fn expanded_home(path: Seq<char>, home: Option<Seq<char>>) -> Option<Seq<char>> {
    if path.len() > 0 && path[0] == '~' {
        match home {
            Some(dir) => Some(dir + path.subrange(1, path.len() as int)),
            None => None,
        }
    } else {
        Some(path)
    }
}

/// Replaces a leading `~` by the home directory. Fails exactly where there
/// is a `~` to replace and no home directory is known.
pub fn expand_home(path: &str, home: Option<&str>) -> (r: Option<String>)
    ensures
        match r {
            Some(p) => expanded_home(
                path@,
                match home {
                    Some(dir) => Some(dir@),
                    None => None,
                },
            ) == Some(p@),
            None => expanded_home(
                path@,
                match home {
                    Some(dir) => Some(dir@),
                    None => None,
                },
            ) is None,
        },
{
    let n = path.unicode_len();
    if n > 0 && path.get_char(0) == '~' {
        match home {
            Some(dir) => {
                let mut out = dir.to_owned();
                out.append(path.substring_char(1, n));
                Some(out)
            },
            None => None,
        }
    } else {
        Some(path.to_owned())
    }
}

/// Where a store is kept and how many bytes it may hold.
#[derive(Debug, Clone, PartialEq, Eq)]
pub struct StorageConfig {
    pub path: String,
    pub capacity: usize,
}

impl StorageConfig {
    pub fn new(path: &str, capacity: usize) -> (c: StorageConfig)
        ensures
            c.path@ == path@,
            c.capacity == capacity,
    {
        StorageConfig { path: path.to_owned(), capacity }
    }
}

/// A service that the node offers to the overlay.
#[derive(Debug, Clone, PartialEq, Eq)]
pub struct ServiceConfig {
    pub name: String,
    pub register_service: Option<String>,
    pub addr: String,
}

/// The extensions that the node loads.
#[derive(Debug, Clone, PartialEq, Eq)]
pub struct ExtensionConfig {
    pub paths: Vec<String>,
}

impl Default for ExtensionConfig {
    fn default() -> (c: ExtensionConfig)
        ensures
            c.paths@.len() == 0,
    {
        ExtensionConfig { paths: Vec::new() }
    }
}

/// What the backend of a node is made of.
#[derive(Debug, Clone, PartialEq, Eq)]
pub struct BackendConfig {
    pub services: Vec<ServiceConfig>,
    pub extensions: ExtensionConfig,
}

/// The configuration of a node, as its file holds it.
#[derive(Debug, Clone, PartialEq, Eq)]
pub struct Config {
    pub ecdsa_key: Option<String>,
    pub session_manager: Option<String>,
    pub session_sk: Option<String>,
    pub http_addr: String,
    pub endpoint_url: String,
    pub ice_servers: String,
    pub stabilize_timeout: usize,
    pub external_ip: Option<String>,
    pub services: Vec<ServiceConfig>,
    pub data_storage: StorageConfig,
    pub measure_storage: StorageConfig,
    pub extension: ExtensionConfig,
}

/// Where the session of a node comes from.
#[derive(Debug, Clone, PartialEq, Eq)]
pub enum SessionSource {
    /// It is to be made from this account key.
    SecretKey(String),
    /// It is this text.
    Inline(String),
    /// It is in the file of this name; where the file cannot be read, it
    /// is this text.
    File(String),
}

/// What a processor is made from.
#[derive(Debug, Clone, PartialEq, Eq)]
pub struct ProcessorConfigSerialized {
    pub ice_servers: String,
    pub external_address: Option<String>,
    pub session_sk: String,
    pub stabilize_timeout: usize,
}

impl ProcessorConfigSerialized {
    pub fn new(ice_servers: String, session_sk: String, stabilize_timeout: usize) -> (c:
        ProcessorConfigSerialized)
        ensures
            c.ice_servers == ice_servers,
            c.external_address is None,
            c.session_sk == session_sk,
            c.stabilize_timeout == stabilize_timeout,
    {
        ProcessorConfigSerialized {
            ice_servers,
            external_address: None,
            session_sk,
            stabilize_timeout,
        }
    }

    pub fn new_with_ext_addr(
        ice_servers: String,
        session_sk: String,
        stabilize_timeout: usize,
        external_address: String,
    ) -> (c: ProcessorConfigSerialized)
        ensures
            c.ice_servers == ice_servers,
            c.external_address == Some(external_address),
            c.session_sk == session_sk,
            c.stabilize_timeout == stabilize_timeout,
    {
        ProcessorConfigSerialized {
            ice_servers,
            external_address: Some(external_address),
            session_sk,
            stabilize_timeout,
        }
    }

    /// The session text that a configuration resolves to, given what was
    /// loaded for its source: an account key needs the session made from
    /// it, an inline session stands for itself, and a file that could not
    /// be read is taken for the session text.
    pub open spec fn resolved_session(config: Config, loaded: Option<String>) -> Option<String> {
        match config.source() {
            Some(SessionSource::SecretKey(_)) => loaded,
            Some(SessionSource::Inline(s)) => Some(s),
            Some(SessionSource::File(path)) => match loaded {
                Some(s) => Some(s),
                None => Some(path),
            },
            None => None,
        }
    }

    /// What a processor is made from, by a node's configuration. `loaded`
    /// is what was made or read for the session's source. A configuration
    /// that names no session has no processor, nor has one with an account
    /// key for which no session was made.
    pub fn try_from(config: Config, loaded: Option<String>) -> (r: Result<
        ProcessorConfigSerialized,
        Error,
    >)
        requires
            Self::resolved_session(config, loaded) is Some,
        ensures
            r matches Ok(c) && Some(c.session_sk) == Self::resolved_session(config, loaded)
                && c.ice_servers == config.ice_servers && c.stabilize_timeout
                == config.stabilize_timeout && c.external_address == config.external_ip,
    {
        let Config { ecdsa_key, session_manager, session_sk, ice_servers, stabilize_timeout, external_ip, .. } =
            config;
        let session: String = if let Some(_) = ecdsa_key {
            match loaded {
                Some(s) => s,
                None => vstd::pervasive::unreached(),
            }
        } else if let Some(ssk) = session_manager {
            ssk
        } else {
            match session_sk {
                Some(path) => match loaded {
                    Some(s) => s,
                    None => path,
                },
                None => vstd::pervasive::unreached(),
            }
        };
        if let Some(ext_ip) = external_ip {
            Ok(Self::new_with_ext_addr(ice_servers, session, stabilize_timeout, ext_ip))
        } else {
            Ok(Self::new(ice_servers, session, stabilize_timeout))
        }
    }
}

impl BackendConfig {
    /// The backend's part of a node's configuration.
    pub fn from(config: Config) -> (b: BackendConfig)
        ensures
            b.services == config.services,
            b.extensions == config.extension,
    {
        BackendConfig { services: config.services, extensions: config.extension }
    }
}

impl Config {
    /// Where the session comes from: the account key if there is one, else
    /// the inline session, else the session file.
    pub open spec fn source(self) -> Option<SessionSource> {
        match self.ecdsa_key {
            Some(key) => Some(SessionSource::SecretKey(key)),
            None => match self.session_manager {
                Some(s) => Some(SessionSource::Inline(s)),
                None => match self.session_sk {
                    Some(path) => Some(SessionSource::File(path)),
                    None => None,
                },
            },
        }
    }

    /// Where the session comes from.
    pub fn session_source(&self) -> (r: Option<SessionSource>)
        ensures
            match r {
                Some(SessionSource::SecretKey(k)) => self.ecdsa_key matches Some(key) && k@
                    == key@,
                Some(SessionSource::Inline(s)) => self.ecdsa_key is None && (
                self.session_manager matches Some(t) && s@ == t@),
                Some(SessionSource::File(p)) => self.ecdsa_key is None && self.session_manager
                    is None && (self.session_sk matches Some(t) && p@ == t@),
                None => self.ecdsa_key is None && self.session_manager is None
                    && self.session_sk is None,
            },
    {
        match &self.ecdsa_key {
            Some(key) => Some(SessionSource::SecretKey(key.clone())),
            None => match &self.session_manager {
                Some(s) => Some(SessionSource::Inline(s.clone())),
                None => match &self.session_sk {
                    Some(path) => Some(SessionSource::File(path.clone())),
                    None => None,
                },
            },
        }
    }

    /// The configuration of a node whose session is in the file
    /// `session_sk`, with the defaults for everything else. The stores are
    /// kept under `.rings` in the home directory.
    pub fn new(session_sk: &str, home: Option<&str>) -> (c: Config)
        ensures
            c.ecdsa_key is None,
            c.session_manager is None,
            c.session_sk matches Some(s) && s@ == session_sk@,
            c.http_addr@ == DEFAULT_BIND_ADDRESS@,
            c.endpoint_url@ == DEFAULT_ENDPOINT_URL@,
            c.ice_servers@ == DEFAULT_ICE_SERVERS@,
            c.stabilize_timeout == DEFAULT_STABILIZE_TIMEOUT,
            c.external_ip is None,
            c.services@.len() == 0,
            c.data_storage.path@ == storage_location(
                match home {
                    Some(dir) => Some(dir@),
                    None => None,
                },
                ".rings"@,
                "data"@,
            ),
            c.data_storage.capacity == DEFAULT_STORAGE_CAPACITY,
            c.measure_storage.path@ == storage_location(
                match home {
                    Some(dir) => Some(dir@),
                    None => None,
                },
                ".rings"@,
                "measure"@,
            ),
            c.measure_storage.capacity == DEFAULT_STORAGE_CAPACITY,
            c.extension.paths@.len() == 0,
    {
        Config {
            ecdsa_key: None,
            session_manager: None,
            session_sk: Some(session_sk.to_owned()),
            http_addr: DEFAULT_BIND_ADDRESS.to_owned(),
            endpoint_url: DEFAULT_ENDPOINT_URL.to_owned(),
            ice_servers: DEFAULT_ICE_SERVERS.to_owned(),
            stabilize_timeout: DEFAULT_STABILIZE_TIMEOUT,
            external_ip: None,
            services: Vec::new(),
            data_storage: StorageConfig {
                path: get_storage_location(home, ".rings", "data"),
                capacity: DEFAULT_STORAGE_CAPACITY,
            },
            measure_storage: StorageConfig {
                path: get_storage_location(home, ".rings", "measure"),
                capacity: DEFAULT_STORAGE_CAPACITY,
            },
            extension: ExtensionConfig::default(),
        }
    }
}

} // verus!
