//! Where settings lie, and how connections are secured.
use proglog::config::files::{
    config_file, ACL_MODEL_FILE, ACL_POLICY_FILE, CA_FILE, NOBODY_CLIENT_CERT_FILE,
    NOBODY_CLIENT_KEY_FILE, ROOT_CLIENT_CERT_FILE, ROOT_CLIENT_KEY_FILE, SERVER_CERT_FILE,
    SERVER_KEY_FILE,
};
use proglog::config::tls::TlsConfig;

fn some(text: &str) -> Option<String> {
    Some(text.to_string())
}

#[test]
fn named_directory_comes_first() {
    assert_eq!(config_file(CA_FILE, some("/etc/proglog"), None), "/etc/proglog/ca.pem");
    assert_eq!(config_file(CA_FILE, some("/etc/proglog/"), None), "/etc/proglog/ca.pem");
    assert_eq!(config_file(CA_FILE, some("/etc"), some("/home/a")), "/etc/ca.pem");
    assert_eq!(config_file("/tmp/x", some("/etc"), None), "/tmp/x");
}

#[test]
fn home_directory_comes_next() {
    assert_eq!(
        config_file(ACL_MODEL_FILE, None, some("/home/a")),
        "/home/a/.proglog/model.conf"
    );
    assert_eq!(
        config_file(ACL_POLICY_FILE, some(""), some("/")),
        "/.proglog/policy.csv"
    );
}

#[test]
fn names_of_settings() {
    assert_eq!(SERVER_CERT_FILE, "server.pem");
    assert_eq!(SERVER_KEY_FILE, "server-key.pem");
    assert_eq!(ROOT_CLIENT_CERT_FILE, "root-client.pem");
    assert_eq!(ROOT_CLIENT_KEY_FILE, "root-client-key.pem");
    assert_eq!(NOBODY_CLIENT_CERT_FILE, "nobody-client.pem");
    assert_eq!(NOBODY_CLIENT_KEY_FILE, "nobody-client-key.pem");
}

fn tls(server: bool) -> TlsConfig {
    TlsConfig {
        cert_file: "cert".to_string(),
        key_file: "key".to_string(),
        ca_file: "ca".to_string(),
        server,
    }
}

#[test]
fn client_settings_hold_the_files() {
    let config = tls(false).setup(vec![1, 2], vec![3, 4], vec![5, 6]);
    let client = config.client_config().unwrap();
    let text = format!("{:?}", client);
    assert!(text.contains("certs: [Certificate { pem: [5, 6] }]"), "{}", text);
    assert!(
        text.contains("Some(Identity { cert: Certificate { pem: [1, 2] }, key: [3, 4] })"),
        "{}",
        text
    );
}

#[test]
fn settings_are_for_one_end() {
    let config = tls(false).setup(vec![], vec![], vec![]);
    assert!(config.server_config().is_none());
    let config = tls(true).setup(vec![], vec![], vec![]);
    assert!(config.client_config().is_none());
    let config = tls(true).setup(vec![1], vec![2], vec![3]);
    let server = config.server_config().unwrap();
    // There is an identity, but its bytes are no key.
    assert!(tonic::transport::Server::builder().tls_config(server).is_err());
}
