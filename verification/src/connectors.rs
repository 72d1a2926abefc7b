//! The session connectors: the configuration a transport-agnostic client or
//! server connector carries, under the scheme it registers.

use vstd::prelude::*;

use crate::client::ClientConfig;
use crate::server::SessionConfig;

verus! {

/// The default scheme a session connector registers when none is given.
pub open spec fn default_scheme() -> Seq<char> {
    "remote"@
}

/// Mirrors records to and from a peer reached via the dialer `D`, speaking
/// codec `C`, under a logical scheme.
pub struct SessionClientConnector<D, C> {
    scheme: String,
    dialer: D,
    codec: C,
    config: ClientConfig,
}

impl<D, C> SessionClientConnector<D, C> {
    /// The scheme this connector registers.
    pub closed spec fn scheme_spec(&self) -> Seq<char> {
        self.scheme@
    }

    /// The dialer.
    pub closed spec fn dialer_spec(&self) -> D {
        self.dialer
    }

    /// The codec.
    pub closed spec fn codec_spec(&self) -> C {
        self.codec
    }

    /// The client engine configuration.
    pub closed spec fn config_spec(&self) -> ClientConfig {
        self.config
    }

    /// Mirror records over `dialer`, framing messages with `codec`, under the
    /// scheme `remote` and the default engine configuration.
    pub fn new(dialer: D, codec: C) -> (r: Self)
        ensures
            r.scheme_spec() == default_scheme(),
            r.dialer_spec() == dialer,
            r.codec_spec() == codec,
            r.config_spec().reconnect,
            r.config_spec().reconnect_delay == 200,
            r.config_spec().max_reconnect_delay == 200,
            r.config_spec().max_reconnect_attempts == 0,
            r.config_spec().keepalive_interval is None,
            r.config_spec().max_offline_queue == 256,
            !r.config_spec().sends_hello,
    {
        proof {
            reveal_strlit("remote");
        }
        SessionClientConnector { scheme: "remote".to_owned(), dialer, codec, config: ClientConfig::default() }
    }

    /// Override the scheme this connector registers.
    pub fn scheme(self, scheme: String) -> (r: Self)
        ensures
            r.scheme_spec() == scheme@,
            r.dialer_spec() == self.dialer_spec(),
            r.codec_spec() == self.codec_spec(),
            r.config_spec() == self.config_spec(),
    {
        SessionClientConnector { scheme, ..self }
    }

    /// Override the client engine configuration.
    pub fn with_config(self, config: ClientConfig) -> (r: Self)
        ensures
            r.scheme_spec() == self.scheme_spec(),
            r.dialer_spec() == self.dialer_spec(),
            r.codec_spec() == self.codec_spec(),
            r.config_spec() == config,
    {
        SessionClientConnector { config, ..self }
    }

    /// The scheme this connector registers.
    pub fn scheme_name(&self) -> (r: &str)
        ensures
            r@ == self.scheme_spec(),
    {
        self.scheme.as_str()
    }

    /// The dialer.
    pub fn dialer(&self) -> (r: &D)
        ensures
            *r == self.dialer_spec(),
    {
        &self.dialer
    }

    /// The codec.
    pub fn codec(&self) -> (r: &C)
        ensures
            *r == self.codec_spec(),
    {
        &self.codec
    }

    /// The client engine configuration.
    pub fn config(&self) -> (r: &ClientConfig)
        ensures
            *r == self.config_spec(),
    {
        &self.config
    }
}

/// Accepts connections from a listener built by `LF` and serves them with a
/// dispatch built by `DF`, speaking codec `C`, under a logical scheme.
pub struct SessionServerConnector<C, LF, DF> {
    scheme: String,
    listener_factory: LF,
    codec: C,
    dispatch_factory: DF,
    config: SessionConfig,
}

impl<C, LF, DF> SessionServerConnector<C, LF, DF> {
    /// The scheme this connector registers.
    pub closed spec fn scheme_spec(&self) -> Seq<char> {
        self.scheme@
    }

    /// The listener factory.
    pub closed spec fn listener_factory_spec(&self) -> LF {
        self.listener_factory
    }

    /// The codec.
    pub closed spec fn codec_spec(&self) -> C {
        self.codec
    }

    /// The dispatch factory.
    pub closed spec fn dispatch_factory_spec(&self) -> DF {
        self.dispatch_factory
    }

    /// The engine configuration.
    pub closed spec fn config_spec(&self) -> SessionConfig {
        self.config
    }

    /// A server connector under the scheme `remote`.
    pub fn new(listener_factory: LF, codec: C, dispatch_factory: DF, config: SessionConfig) -> (r: Self)
        ensures
            r.scheme_spec() == default_scheme(),
            r.listener_factory_spec() == listener_factory,
            r.codec_spec() == codec,
            r.dispatch_factory_spec() == dispatch_factory,
            r.config_spec() == config,
    {
        SessionServerConnector { scheme: "remote".to_owned(), listener_factory, codec, dispatch_factory, config }
    }

    /// Override the scheme this connector registers.
    pub fn scheme(self, scheme: String) -> (r: Self)
        ensures
            r.scheme_spec() == scheme@,
            r.listener_factory_spec() == self.listener_factory_spec(),
            r.codec_spec() == self.codec_spec(),
            r.dispatch_factory_spec() == self.dispatch_factory_spec(),
            r.config_spec() == self.config_spec(),
    {
        SessionServerConnector { scheme, ..self }
    }

    /// The scheme this connector registers.
    pub fn scheme_name(&self) -> (r: &str)
        ensures
            r@ == self.scheme_spec(),
    {
        self.scheme.as_str()
    }

    /// The listener factory.
    pub fn listener_factory(&self) -> (r: &LF)
        ensures
            *r == self.listener_factory_spec(),
    {
        &self.listener_factory
    }

    /// The codec.
    pub fn codec(&self) -> (r: &C)
        ensures
            *r == self.codec_spec(),
    {
        &self.codec
    }

    /// The dispatch factory.
    pub fn dispatch_factory(&self) -> (r: &DF)
        ensures
            *r == self.dispatch_factory_spec(),
    {
        &self.dispatch_factory
    }

    /// The engine configuration.
    pub fn config(&self) -> (r: &SessionConfig)
        ensures
            *r == self.config_spec(),
    {
        &self.config
    }
}

/// A connector that mirrors records to and from an AimX peer over the
/// Unix-domain socket at a path.
pub struct AimxClientConnector {
    socket_path: String,
    config: ClientConfig,
}

impl AimxClientConnector {
    /// The socket path.
    pub closed spec fn socket_path_spec(&self) -> Seq<char> {
        self.socket_path@
    }

    /// The client engine configuration.
    pub closed spec fn config_spec(&self) -> ClientConfig {
        self.config
    }

    /// Mirror records over the AimX peer listening at `socket_path`, with
    /// the default engine configuration.
    pub fn new(socket_path: String) -> (r: Self)
        ensures
            r.socket_path_spec() == socket_path@,
            r.config_spec().reconnect,
            r.config_spec().reconnect_delay == 200,
            r.config_spec().max_reconnect_delay == 200,
            r.config_spec().max_reconnect_attempts == 0,
            r.config_spec().keepalive_interval is None,
            r.config_spec().max_offline_queue == 256,
            !r.config_spec().sends_hello,
    {
        AimxClientConnector { socket_path, config: ClientConfig::default() }
    }

    /// Override the client engine configuration.
    pub fn with_config(self, config: ClientConfig) -> (r: Self)
        ensures
            r.socket_path_spec() == self.socket_path_spec(),
            r.config_spec() == config,
    {
        AimxClientConnector { config, ..self }
    }

    /// The scheme this connector registers.
    pub fn scheme_name(&self) -> (r: &'static str)
        ensures
            r@ == "aimx"@,
    {
        "aimx"
    }

    /// The socket path.
    pub fn socket_path(&self) -> (r: &str)
        ensures
            r@ == self.socket_path_spec(),
    {
        self.socket_path.as_str()
    }

    /// The client engine configuration.
    pub fn config(&self) -> (r: &ClientConfig)
        ensures
            *r == self.config_spec(),
    {
        &self.config
    }
}

/// The initiating side of the AimX Unix-domain transport: the socket path it
/// dials on each connect.
#[derive(Debug, Clone)]
pub struct UdsDialer {
    socket_path: String,
}

impl UdsDialer {
    /// The socket path.
    pub closed spec fn socket_path_spec(&self) -> Seq<char> {
        self.socket_path@
    }

    /// Dial the socket at `socket_path` on each connect.
    pub fn new(socket_path: String) -> (r: Self)
        ensures
            r.socket_path_spec() == socket_path@,
    {
        UdsDialer { socket_path }
    }

    /// The socket path.
    pub fn socket_path(&self) -> (r: &str)
        ensures
            r@ == self.socket_path_spec(),
    {
        self.socket_path.as_str()
    }
}

} // verus!
