use etcd_store::config::EtcdConfig;
use etcd_store::connect::{connect_etcd, Credentials, TlsFiles};

fn config() -> EtcdConfig {
    EtcdConfig {
        addr: "a:2379,b:2379".to_string(),
        prefix: "/zinc/observe/".to_string(),
        connect_timeout: 5,
        command_timeout: 10,
        lock_wait_timeout: 60,
        user: String::new(),
        password: String::new(),
        cert_auth: false,
        ca_file: "ca.pem".to_string(),
        cert_file: "cert.pem".to_string(),
        key_file: "key.pem".to_string(),
        domain_name: "example.org".to_string(),
        load_page_size: 100,
    }
}

#[test]
fn a_plain_connection_shows_nothing() {
    let plan = connect_etcd(&config());
    assert_eq!(plan.endpoints, vec!["a:2379".to_string(), "b:2379".to_string()]);
    assert_eq!(plan.timeout, 10);
    assert_eq!(plan.connect_timeout, 5);
    assert_eq!(plan.credentials, None);
    assert_eq!(plan.tls, None);
}

#[test]
fn a_user_and_certificates_are_shown_if_they_are_set() {
    let mut settings = config();
    settings.user = "root".to_string();
    settings.password = "secret".to_string();
    settings.cert_auth = true;
    let plan = connect_etcd(&settings);
    assert_eq!(
        plan.credentials,
        Some(Credentials {
            user: "root".to_string(),
            password: "secret".to_string(),
        })
    );
    assert_eq!(
        plan.tls,
        Some(TlsFiles {
            ca_file: "ca.pem".to_string(),
            cert_file: "cert.pem".to_string(),
            key_file: "key.pem".to_string(),
            domain_name: "example.org".to_string(),
        })
    );
}

#[test]
fn addresses_stand_between_commas() {
    for addr in ["", ",", "a", "a,", ",a", "a,,b", "größe:1,€:2"] {
        let mut settings = config();
        settings.addr = addr.to_string();
        let endpoints = connect_etcd(&settings).endpoints;
        let wanted: Vec<String> = addr.split(',').map(|part| part.to_string()).collect();
        assert_eq!(endpoints, wanted);
        assert_eq!(endpoints.join(","), addr);
    }
}
