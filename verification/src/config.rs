//! Host, port and storage settings, as given on the command line;
//! turning them into socket addresses is the caller's business.

use vstd::prelude::*;

use crate::error::{ErrorV, MsgSystemError};

verus! {

/// Where the server listens: hostname and port, kept as given.
pub struct ServerConfig {
    hostname: String,
    port: String,
}

/// Mathematical model of `ServerConfig`.
pub ghost struct ServerConfigV {
    pub hostname: Seq<char>,
    pub port: Seq<char>,
}

impl View for ServerConfig {
    type V = ServerConfigV;

    closed spec fn view(&self) -> ServerConfigV {
        ServerConfigV { hostname: self.hostname@, port: self.port@ }
    }
}

impl ServerConfig {
    pub fn new(hostname: &str, port: &str) -> (r: Self)
        ensures
            r@.hostname == hostname@,
            r@.port == port@,
    {
        ServerConfig { hostname: hostname.to_owned(), port: port.to_owned() }
    }

    /// Reads hostname and port from the program arguments; they are
    /// provided exactly when there are two of them, after the program
    /// name.
    pub fn from_args(args: &[String]) -> (r: Result<Self, MsgSystemError>)
        ensures
            match r {
                Ok(c) => args@.len() == 3 && c@.hostname == args@[1]@ && c@.port == args@[2]@,
                Err(e) => args@.len() != 3 && e@ is ServerConfigurationNotProvided,
            },
    {
        if args.len() != 3 {
            return Err(MsgSystemError::ServerConfigurationNotProvided);
        }
        Ok(Self::new(args[1].as_str(), args[2].as_str()))
    }

    /// The `hostname:port` form that a socket address is parsed from.
    pub fn to_string(&self) -> (r: String)
        ensures
            r@ == self@.hostname + ":"@ + self@.port,
    {
        let mut out = self.hostname.clone();
        out.append(":");
        out.append(self.port.as_str());
        out
    }
}

impl Default for ServerConfig {
    /// The documented default endpoint.
    fn default() -> (r: Self)
        ensures
            r@.hostname == "127.0.0.1"@,
            r@.port == "11111"@,
    {
        ServerConfig::new("127.0.0.1", "11111")
    }
}

/// The client's settings: the server endpoint and where received
/// attachments are stored.
pub struct ClientConfig {
    server_config: ServerConfig,
    pub storage_path: String,
}

/// Mathematical model of `ClientConfig`.
pub ghost struct ClientConfigV {
    pub server: ServerConfigV,
    pub storage_path: Seq<char>,
}

impl View for ClientConfig {
    type V = ClientConfigV;

    closed spec fn view(&self) -> ClientConfigV {
        ClientConfigV { server: self.server_config@, storage_path: self.storage_path@ }
    }
}

impl ClientConfig {
    pub fn new(server_config: ServerConfig, storage_path: &str) -> (r: Self)
        ensures
            r@.server == server_config@,
            r@.storage_path == storage_path@,
    {
        ClientConfig { server_config, storage_path: storage_path.to_owned() }
    }

    /// Reads the server endpoint from the program arguments; the
    /// storage root keeps its default.
    pub fn from_args(args: &[String]) -> (r: Result<Self, MsgSystemError>)
        ensures
            match r {
                Ok(c) => {
                    &&& args@.len() == 3
                    &&& c@.server.hostname == args@[1]@
                    &&& c@.server.port == args@[2]@
                    &&& c@.storage_path == "./storage"@
                },
                Err(e) => args@.len() != 3 && e@ is ServerConfigurationNotProvided,
            },
    {
        let server_config = match ServerConfig::from_args(args) {
            Ok(c) => c,
            Err(e) => {
                return Err(e);
            },
        };
        Ok(Self::new(server_config, "./storage"))
    }

    /// The `hostname:port` form of the server endpoint.
    pub fn to_string(&self) -> (r: String)
        ensures
            r@ == self@.server.hostname + ":"@ + self@.server.port,
    {
        self.server_config.to_string()
    }
}

impl Default for ClientConfig {
    /// The documented default endpoint and storage root.
    fn default() -> (r: Self)
        ensures
            r@.server.hostname == "127.0.0.1"@,
            r@.server.port == "11111"@,
            r@.storage_path == "./storage"@,
    {
        ClientConfig::new(ServerConfig::default(), "./storage")
    }
}

} // verus!
