use vstd::prelude::*;
use crate::balancer::LoadBalancerType;
use crate::codec::bytes_eq;
use crate::resolver::utf8_of;

verus! {

/// Where the proxy listens: an IPv4 address, as its four octets, and a port.
#[derive(Debug, Clone, Copy, PartialEq, Eq)]
pub struct ServerConfig {
    pub listen_addr: [u8; 4],
    pub listen_port: u16,
}

/// One application: its path prefix, its backend addresses (`host:port`),
/// and its selection strategy.
#[derive(Debug, Clone)]
pub struct AppConfig {
    pub path: String,
    pub backends: Vec<String>,
    pub load_balancer: LoadBalancerType,
}

/// A whole configuration: the listener, and the applications by name.
#[derive(Debug, Clone)]
pub struct Config {
    pub server: ServerConfig,
    pub apps: Vec<(String, AppConfig)>,
}

/// Why a configuration cannot be used.
#[derive(Debug, Clone, PartialEq, Eq)]
pub enum ConfigError {
    /// The configuration source could not be read.
    Io { message: String },
    /// The configuration text is not well-formed.
    Deserialization { message: String },
    /// The listen address is neither loopback nor private.
    ListenAddrNotPrivate,
    /// The named application has no backend.
    NoBackends { app: String },
    /// Two applications carry the same name.
    DuplicateApp { app: String },
}

/// 10.0.0.0/8, 172.16.0.0/12 or 192.168.0.0/16.
pub open spec fn is_private(a: [u8; 4]) -> bool {
    a[0] == 10 || (a[0] == 172 && 16 <= a[1] && a[1] <= 31) || (a[0] == 192 && a[1] == 168)
}

/// 127.0.0.0/8.
pub open spec fn is_loopback(a: [u8; 4]) -> bool {
    a[0] == 127
}

/// Whether every application has at least one backend.
pub open spec fn all_have_backends(apps: Seq<(String, AppConfig)>) -> bool {
    forall|i: int| 0 <= i < apps.len() ==> (#[trigger] apps[i]).1.backends@.len() > 0
}

/// Whether no two applications carry the same name.
pub open spec fn names_unique(apps: Seq<(String, AppConfig)>) -> bool {
    forall|i: int, j: int|
        0 <= i < j < apps.len() ==> utf8_of(&(#[trigger] apps[i]).0) != utf8_of(&(#[trigger] apps[j]).0)
}

/// Index of the first application without a backend.
pub open spec fn first_without_backends(apps: Seq<(String, AppConfig)>) -> int {
    choose|i: int|
        0 <= i < apps.len() && apps[i].1.backends@.len() == 0 && forall|j: int|
            0 <= j < i ==> (#[trigger] apps[j]).1.backends@.len() > 0
}

pub fn listen_addr_allowed(a: [u8; 4]) -> (r: bool)
    ensures
        r == (is_private(a) || is_loopback(a)),
{
    a[0] == 10 || (a[0] == 172 && 16 <= a[1] && a[1] <= 31) || (a[0] == 192 && a[1] == 168) || a[0] == 127
}

impl Config {
    /// Accepts a configuration whose listen address is loopback or private,
    /// whose every application has a backend, and whose application names
    /// are unique.
    pub fn validate(self) -> (r: Result<Self, ConfigError>)
        ensures
            !(is_private(self.server.listen_addr) || is_loopback(self.server.listen_addr)) ==> r
                == Err::<Self, ConfigError>(ConfigError::ListenAddrNotPrivate),
            (is_private(self.server.listen_addr) || is_loopback(self.server.listen_addr))
                && !all_have_backends(self.apps@) ==> (r matches Err(ConfigError::NoBackends { app })
                && app@ == self.apps@[first_without_backends(self.apps@)].0@),
            (is_private(self.server.listen_addr) || is_loopback(self.server.listen_addr))
                && all_have_backends(self.apps@) && !names_unique(self.apps@) ==> (r matches Err(ConfigError::DuplicateApp { app })
                && exists|i: int, j: int|
                0 <= i < j < self.apps@.len() && utf8_of(&self.apps@[i].0) == utf8_of(&self.apps@[j].0)
                    && app@ == self.apps@[j].0@),
            (is_private(self.server.listen_addr) || is_loopback(self.server.listen_addr))
                && all_have_backends(self.apps@) && names_unique(self.apps@) ==> (r matches Ok(c) && c == self),
    {
        if !listen_addr_allowed(self.server.listen_addr) {
            return Err(ConfigError::ListenAddrNotPrivate);
        }
        let mut i: usize = 0;
        while i < self.apps.len()
            invariant
                i <= self.apps@.len(),
                is_private(self.server.listen_addr) || is_loopback(self.server.listen_addr),
                forall|j: int| 0 <= j < i ==> (#[trigger] self.apps@[j]).1.backends@.len() > 0,
            decreases self.apps.len() - i,
        {
            if self.apps[i].1.backends.len() == 0 {
                assert(self.apps@[i as int].1.backends@.len() == 0);
                let ghost k = first_without_backends(self.apps@);
                proof {
                    assert(0 <= k < self.apps@.len() && self.apps@[k].1.backends@.len() == 0);
                    if k < i {
                        assert(self.apps@[k].1.backends@.len() > 0);
                    }
                    if k > i {
                        assert(self.apps@[i as int].1.backends@.len() > 0);
                    }
                }
                return Err(ConfigError::NoBackends { app: self.apps[i].0.clone() });
            }
            i = i + 1;
        }
        let mut i: usize = 0;
        while i < self.apps.len()
            invariant
                i <= self.apps@.len(),
                is_private(self.server.listen_addr) || is_loopback(self.server.listen_addr),
                all_have_backends(self.apps@),
                forall|a: int, b: int|
                    0 <= a < i && a < b < self.apps@.len() ==> utf8_of(&(#[trigger] self.apps@[a]).0) != utf8_of(&(#[trigger] self.apps@[b]).0),
            decreases self.apps.len() - i,
        {
            let mut j: usize = i + 1;
            while j < self.apps.len()
                invariant
                    i < self.apps@.len(),
                    i + 1 <= j <= self.apps@.len(),
                    is_private(self.server.listen_addr) || is_loopback(self.server.listen_addr),
                    all_have_backends(self.apps@),
                    forall|a: int, b: int|
                        0 <= a < i && a < b < self.apps@.len() ==> utf8_of(&(#[trigger] self.apps@[a]).0) != utf8_of(&(#[trigger] self.apps@[b]).0),
                    forall|b: int| i < b < j ==> utf8_of(&self.apps@[i as int].0) != utf8_of(&(#[trigger] self.apps@[b]).0),
                decreases self.apps.len() - j,
            {
                if bytes_eq(self.apps[i].0.as_str().as_bytes(), self.apps[j].0.as_str().as_bytes()) {
                    return Err(ConfigError::DuplicateApp { app: self.apps[j].0.clone() });
                }
                j = j + 1;
            }
            i = i + 1;
        }
        Ok(self)
    }

    /// The routing table: (name, path prefix) of each application, in order.
    pub fn routes(&self) -> (r: Vec<(String, String)>)
        ensures
            r@.len() == self.apps@.len(),
            forall|i: int|
                0 <= i < r@.len() ==> (#[trigger] r@[i]).0@ == self.apps@[i].0@ && r@[i].1@
                    == self.apps@[i].1.path@,
    {
        let mut r: Vec<(String, String)> = Vec::new();
        let mut i: usize = 0;
        while i < self.apps.len()
            invariant
                i <= self.apps@.len(),
                r@.len() == i,
                forall|j: int|
                    0 <= j < i ==> (#[trigger] r@[j]).0@ == self.apps@[j].0@ && r@[j].1@
                        == self.apps@[j].1.path@,
            decreases self.apps.len() - i,
        {
            r.push((self.apps[i].0.clone(), self.apps[i].1.path.clone()));
            i = i + 1;
        }
        r
    }
}

} // verus!
