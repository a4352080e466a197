//! How the connections of the service are secured.
use tonic::transport::{Certificate, ClientTlsConfig, Identity, ServerTlsConfig};
use vstd::prelude::*;

verus! {

/// Which files secure one end of a connection, and whether that end is the server.
pub struct TlsConfig {
    pub cert_file: String,
    pub key_file: String,
    pub ca_file: String,
    pub server: bool,
}

/// The settings of one end of a connection.
pub enum ConfigType {
    Server(ServerTlsConfig),
    Client(ClientTlsConfig),
}

/// What a server shows and asks for: its certificate and key, the authority that signs the
/// certificates of clients, and whether a client may come without one.
#[verifier::ext_equal]
pub struct ServerTlsView {
    pub identity: Option<(Seq<u8>, Seq<u8>)>,
    pub client_ca_root: Option<Seq<u8>>,
    pub client_auth_optional: bool,
}

/// What a client shows and asks for: its certificate and key, and the authorities that sign the
/// certificates of servers.
#[verifier::ext_equal]
pub struct ClientTlsView {
    pub identity: Option<(Seq<u8>, Seq<u8>)>,
    pub ca_certificates: Seq<Seq<u8>>,
}

/// A certificate of `tonic`.
#[verifier::external_type_specification]
#[verifier::external_body]
pub struct ExCertificate(Certificate);

/// A certificate with its key of `tonic`.
#[verifier::external_type_specification]
#[verifier::external_body]
pub struct ExIdentity(Identity);

/// The settings of a server of `tonic`.
#[verifier::external_type_specification]
#[verifier::external_body]
pub struct ExServerTlsConfig(ServerTlsConfig);

/// The settings of a client of `tonic`.
#[verifier::external_type_specification]
#[verifier::external_body]
pub struct ExClientTlsConfig(ClientTlsConfig);

/// The bytes that a certificate holds.
pub uninterp spec fn certificate_bytes(certificate: Certificate) -> Seq<u8>;

/// The bytes of the certificate and of the key that an identity holds.
pub uninterp spec fn identity_bytes(identity: Identity) -> (Seq<u8>, Seq<u8>);

/// What the settings of a server hold.
pub uninterp spec fn server_settings(config: ServerTlsConfig) -> ServerTlsView;

/// What the settings of a client hold.
pub uninterp spec fn client_settings(config: ClientTlsConfig) -> ClientTlsView;

/// `Certificate::from_pem` of `tonic`: keeps the bytes as they are.
#[verifier::external_body]
fn certificate_from_pem(pem: &Vec<u8>) -> (certificate: Certificate)
    ensures
        certificate_bytes(certificate) == pem@,
{
    Certificate::from_pem(pem)
}

/// `Identity::from_pem` of `tonic`: keeps the bytes of the certificate and of the key as they are.
#[verifier::external_body]
fn identity_from_pem(cert: &Vec<u8>, key: &Vec<u8>) -> (identity: Identity)
    ensures
        identity_bytes(identity) == (cert@, key@),
{
    Identity::from_pem(cert, key)
}

/// `ServerTlsConfig::new` of `tonic`: settings with nothing in them, by which clients must show a
/// certificate.
pub assume_specification[ ServerTlsConfig::new ]() -> (config: ServerTlsConfig)
    ensures
        server_settings(config) == (ServerTlsView {
            identity: None,
            client_ca_root: None,
            client_auth_optional: false,
        }),
;

/// `ServerTlsConfig::identity` of `tonic`: puts the identity in.
pub assume_specification[ ServerTlsConfig::identity ](
    config: ServerTlsConfig,
    identity: Identity,
) -> (result: ServerTlsConfig)
    ensures
        server_settings(result) == (ServerTlsView {
            identity: Some(identity_bytes(identity)),
            ..server_settings(config)
        }),
;

/// `ServerTlsConfig::client_ca_root` of `tonic`: puts the authority for clients in.
pub assume_specification[ ServerTlsConfig::client_ca_root ](
    config: ServerTlsConfig,
    cert: Certificate,
) -> (result: ServerTlsConfig)
    ensures
        server_settings(result) == (ServerTlsView {
            client_ca_root: Some(certificate_bytes(cert)),
            ..server_settings(config)
        }),
;

/// `ServerTlsConfig::client_auth_optional` of `tonic`: sets whether clients may come without a
/// certificate.
pub assume_specification[ ServerTlsConfig::client_auth_optional ](
    config: ServerTlsConfig,
    optional: bool,
) -> (result: ServerTlsConfig)
    ensures
        server_settings(result) == (ServerTlsView {
            client_auth_optional: optional,
            ..server_settings(config)
        }),
;

/// `ClientTlsConfig::new` of `tonic`: settings with nothing in them.
pub assume_specification[ ClientTlsConfig::new ]() -> (config: ClientTlsConfig)
    ensures
        client_settings(config) == (ClientTlsView {
            identity: None,
            ca_certificates: Seq::empty(),
        }),
;

/// `ClientTlsConfig::identity` of `tonic`: puts the identity in.
pub assume_specification[ ClientTlsConfig::identity ](
    config: ClientTlsConfig,
    identity: Identity,
) -> (result: ClientTlsConfig)
    ensures
        client_settings(result) == (ClientTlsView {
            identity: Some(identity_bytes(identity)),
            ..client_settings(config)
        }),
;

/// `ClientTlsConfig::ca_certificate` of `tonic`: adds an authority for servers.
pub assume_specification[ ClientTlsConfig::ca_certificate ](
    config: ClientTlsConfig,
    ca_certificate: Certificate,
) -> (result: ClientTlsConfig)
    ensures
        client_settings(result) == (ClientTlsView {
            ca_certificates: client_settings(config).ca_certificates.push(
                certificate_bytes(ca_certificate),
            ),
            ..client_settings(config)
        }),
;

impl TlsConfig {
    /// The settings for this end of a connection, by what its three files hold.
    pub fn setup(self, cert: Vec<u8>, key: Vec<u8>, ca: Vec<u8>) -> (config: ConfigType)
        ensures
            match config {
                ConfigType::Server(server) => {
                    &&& self.server
                    &&& server_settings(server) == (ServerTlsView {
                        identity: Some((cert@, key@)),
                        client_ca_root: Some(ca@),
                        client_auth_optional: false,
                    })
                },
                ConfigType::Client(client) => {
                    &&& !self.server
                    &&& client_settings(client) == (ClientTlsView {
                        identity: Some((cert@, key@)),
                        ca_certificates: seq![ca@],
                    })
                },
            },
    {
        let identity = identity_from_pem(&cert, &key);
        let ca_cert = certificate_from_pem(&ca);
        if self.server {
            let config = ServerTlsConfig::new().identity(identity).client_ca_root(
                ca_cert,
            ).client_auth_optional(false);
            ConfigType::Server(config)
        } else {
            let config = ClientTlsConfig::new().identity(identity).ca_certificate(ca_cert);
            assert(client_settings(config).ca_certificates =~= seq![ca@]);
            ConfigType::Client(config)
        }
    }
}

impl ConfigType {
    /// The settings of a server, if these are.
    pub fn server_config(self) -> (config: Option<ServerTlsConfig>)
        ensures
            config == match self {
                ConfigType::Server(x) => Some(x),
                ConfigType::Client(_) => None,
            },
    {
        match self {
            ConfigType::Server(x) => Some(x),
            _ => None,
        }
    }

    /// The settings of a client, if these are.
    pub fn client_config(self) -> (config: Option<ClientTlsConfig>)
        ensures
            config == match self {
                ConfigType::Server(_) => None,
                ConfigType::Client(x) => Some(x),
            },
    {
        match self {
            ConfigType::Client(x) => Some(x),
            _ => None,
        }
    }
}

} // verus!
