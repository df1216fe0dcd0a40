//! Validation of combined configurations.

use podcomp::config::{
    profiles_active, validate, ComposeConf, ConfigConf, NetworkConf, SecretConf, ServiceConf,
    VolumeConf,
};

fn strings(items: &[&str]) -> Vec<String> {
    items.iter().map(|s| String::from(*s)).collect()
}

fn plain_service(name: &str) -> ServiceConf {
    ServiceConf {
        name: String::from(name),
        has_build: false,
        has_image: true,
        network_mode_host: false,
        has_ports: false,
        depends_on: Vec::new(),
        networks: Vec::new(),
        volumes: Vec::new(),
        configs: Vec::new(),
        secrets: Vec::new(),
    }
}

fn plain_network(name: &str) -> NetworkConf {
    NetworkConf {
        name: String::from(name),
        external: false,
        has_driver: false,
        has_driver_opts: false,
        has_ipv6: false,
        has_ipam: false,
        has_internal: false,
        has_labels: false,
    }
}

fn empty_conf() -> ComposeConf {
    ComposeConf {
        services: Vec::new(),
        networks: Vec::new(),
        volumes: Vec::new(),
        configs: Vec::new(),
        secrets: Vec::new(),
    }
}

#[test]
fn valid_configuration() {
    let mut c = empty_conf();
    let mut web = plain_service("web");
    web.depends_on = strings(&["db"]);
    web.networks = strings(&["default"]);
    c.services.push(web);
    c.services.push(plain_service("db"));
    c.networks.push(plain_network("default"));
    assert!(validate(&c).is_ok());
}

#[test]
fn missing_image_and_build() {
    let mut c = empty_conf();
    let mut s = plain_service("web");
    s.has_image = false;
    c.services.push(s);
    assert_eq!(
        validate(&c).unwrap_err().message(),
        "Service \"web\" has neither an image nor a build context specified"
    );
}

#[test]
fn host_mode_with_ports() {
    let mut c = empty_conf();
    let mut s = plain_service("web");
    s.network_mode_host = true;
    s.has_ports = true;
    c.services.push(s);
    assert_eq!(
        validate(&c).unwrap_err().message(),
        "Service \"web\" cannot have port mappings due to host network mode"
    );
}

#[test]
fn undefined_dependency() {
    let mut c = empty_conf();
    let mut s = plain_service("web");
    s.depends_on = strings(&["db"]);
    c.services.push(s);
    assert_eq!(
        validate(&c).unwrap_err().message(),
        "Service \"web\" depends on undefined service \"db\""
    );
}

#[test]
fn undefined_network() {
    let mut c = empty_conf();
    let mut s = plain_service("web");
    s.networks = strings(&["backend"]);
    c.services.push(s);
    assert_eq!(
        validate(&c).unwrap_err().message(),
        "Service \"web\" refers to undefined network \"backend\""
    );
}

#[test]
fn undefined_volume() {
    let mut c = empty_conf();
    let mut s = plain_service("web");
    s.volumes = strings(&["data"]);
    c.services.push(s);
    assert_eq!(
        validate(&c).unwrap_err().message(),
        "Service \"web\" refers to undefined volume \"data\""
    );
}

#[test]
fn undefined_config_and_secret() {
    let mut c = empty_conf();
    let mut s = plain_service("web");
    s.configs = strings(&["cfg"]);
    c.services.push(s);
    assert_eq!(
        validate(&c).unwrap_err().message(),
        "Service \"web\" refers to undefined config \"cfg\""
    );
    let mut c2 = empty_conf();
    let mut s2 = plain_service("web");
    s2.secrets = strings(&["tls"]);
    c2.services.push(s2);
    assert_eq!(
        validate(&c2).unwrap_err().message(),
        "Service \"web\" refers to undefined secret \"tls\""
    );
}

#[test]
fn conflicting_external_network() {
    let mut c = empty_conf();
    let mut n = plain_network("backend");
    n.external = true;
    n.has_driver = true;
    c.networks.push(n);
    assert_eq!(
        validate(&c).unwrap_err().message(),
        "Conflicting parameters specified for network \"backend\""
    );
}

#[test]
fn conflicting_external_volume() {
    let mut c = empty_conf();
    c.volumes.push(VolumeConf {
        name: String::from("data"),
        external: true,
        has_driver: false,
        has_driver_opts: false,
        has_labels: true,
    });
    assert_eq!(
        validate(&c).unwrap_err().message(),
        "Conflicting parameters specified for volume \"data\""
    );
}

#[test]
fn conflicting_external_config_and_secret() {
    let mut c = empty_conf();
    c.configs.push(ConfigConf { name: String::from("cfg"), external: true, has_file: true });
    assert_eq!(
        validate(&c).unwrap_err().message(),
        "Conflicting parameters specified for config \"cfg\""
    );
    let mut c2 = empty_conf();
    c2.secrets.push(SecretConf {
        name: String::from("tls"),
        external: true,
        has_file: false,
        has_environment: true,
    });
    assert_eq!(
        validate(&c2).unwrap_err().message(),
        "Conflicting parameters specified for secret \"tls\""
    );
}

#[test]
fn external_resources_without_parameters() {
    let mut c = empty_conf();
    let mut n = plain_network("backend");
    n.external = true;
    c.networks.push(n);
    c.configs.push(ConfigConf { name: String::from("cfg"), external: true, has_file: false });
    assert!(validate(&c).is_ok());
}

#[test]
fn profile_selection() {
    assert!(profiles_active(&strings(&[]), &strings(&[])));
    assert!(profiles_active(&strings(&[]), &strings(&["debug"])));
    assert!(profiles_active(&strings(&["debug", "ci"]), &strings(&["ci"])));
    assert!(!profiles_active(&strings(&["debug"]), &strings(&["ci"])));
    assert!(!profiles_active(&strings(&["debug"]), &strings(&[])));
}
