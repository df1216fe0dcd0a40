//! Command-line value parsers, volume declarations, selection, naming,
//! fingerprints and the runtime version gate.

use podcomp::digest::content_digest;
use podcomp::names::{resource_name, sanitize_name};
use podcomp::podman::Version;
use podcomp::select::{group_containers, live_services, ContainerRecord};
use podcomp::util::{parse_container_path, parse_key_val, parse_key_val_opt};
use podcomp::port::parse_port_short;
use podcomp::volume::{parse_volume_short, ServiceVolumeBind, ServiceVolumeType};

#[test]
fn key_val_split() {
    let (k, v) = parse_key_val("FOO=bar=baz").unwrap();
    assert_eq!(k, "FOO");
    assert_eq!(v, "bar=baz");
}

#[test]
fn key_val_missing_separator() {
    let err = parse_key_val("FOO").unwrap_err();
    assert_eq!(err.message(), "no '=' found in 'FOO'");
}

#[test]
fn key_val_opt_forms() {
    assert_eq!(
        parse_key_val_opt("FOO=bar"),
        (String::from("FOO"), Some(String::from("bar")))
    );
    assert_eq!(parse_key_val_opt("FOO"), (String::from("FOO"), None));
    assert_eq!(
        parse_key_val_opt("FOO="),
        (String::from("FOO"), Some(String::new()))
    );
}

#[test]
fn container_path_forms() {
    assert_eq!(
        parse_container_path("web:/srv/http"),
        (Some(String::from("web")), String::from("/srv/http"))
    );
    assert_eq!(parse_container_path("/srv/http"), (None, String::from("/srv/http")));
}

#[test]
fn volume_target_only() {
    let (v, unknown) = parse_volume_short("/data").unwrap();
    assert_eq!(v.kind, ServiceVolumeType::Volume);
    assert_eq!(v.source, None);
    assert_eq!(v.target, "/data");
    assert!(unknown.is_empty());
}

#[test]
fn volume_bind_source() {
    let (v, _) = parse_volume_short("./src:/app").unwrap();
    assert_eq!(v.kind, ServiceVolumeType::Bind);
    assert_eq!(v.source, Some(String::from("./src")));
    assert_eq!(v.target, "/app");
}

#[test]
fn volume_named_source() {
    let (v, _) = parse_volume_short("data:/var/lib").unwrap();
    assert_eq!(v.kind, ServiceVolumeType::Volume);
    assert_eq!(v.source, Some(String::from("data")));
    assert_eq!(v.target, "/var/lib");
}

#[test]
fn volume_options() {
    let (v, unknown) = parse_volume_short("/host:/app:ro,z,rslave,nocopy,weird").unwrap();
    assert_eq!(v.kind, ServiceVolumeType::Bind);
    assert_eq!(v.read_only, Some(true));
    let bind = v.bind.unwrap();
    assert_eq!(bind.propagation, Some(String::from("rslave")));
    assert_eq!(bind.selinux, Some(String::from("z")));
    assert_eq!(bind.create_host_path, None);
    assert_eq!(v.volume.unwrap().nocopy, Some(true));
    assert_eq!(unknown, vec![String::from("weird")]);
}

#[test]
fn volume_target_with_options() {
    let (v, _) = parse_volume_short("data:rw").unwrap();
    assert_eq!(v.kind, ServiceVolumeType::Volume);
    assert_eq!(v.source, None);
    assert_eq!(v.target, "data");
    assert_eq!(v.read_only, Some(false));
}

#[test]
fn volume_too_many_colons() {
    let err = parse_volume_short("a:b:c:d").unwrap_err();
    assert_eq!(err.message(), "a:b:c:d: too many colons");
}

#[test]
fn volume_bind_defaults() {
    let bind = ServiceVolumeBind::new();
    assert_eq!(bind.propagation, None);
    assert_eq!(bind.create_host_path, None);
    assert_eq!(bind.selinux, None);
}

#[test]
fn digest_known_values() {
    assert_eq!(
        content_digest(&Vec::new()),
        "e3b0c44298fc1c149afbf4c8996fb92427ae41e4649b934ca495991b7852b855"
    );
    assert_eq!(
        content_digest(&b"abc".to_vec()),
        "ba7816bf8f01cfea414140de5dae2223b00361a396177a9cb410ff61f20015ad"
    );
}

#[test]
fn version_gate() {
    assert!(Version { major: 4, minor: 3, patch: 0 }.supported());
    assert!(Version { major: 4, minor: 10, patch: 1 }.supported());
    assert!(Version { major: 5, minor: 0, patch: 0 }.supported());
    assert!(!Version { major: 4, minor: 2, patch: 9 }.supported());
    assert!(!Version { major: 3, minor: 9, patch: 9 }.supported());
}

#[test]
fn sanitize_project_names() {
    assert_eq!(sanitize_name("My Project"), "myproject");
    assert_eq!(sanitize_name("--Demo.App-1"), "demo.app-1");
    assert_eq!(sanitize_name("!!!"), "");
    assert_eq!(sanitize_name("plain_name"), "plain_name");
}

#[test]
fn resource_names() {
    let project = String::from("shop");
    let key = String::from("default");
    assert_eq!(resource_name(false, Some(&project), &key), "shop_default");
    assert_eq!(resource_name(true, Some(&project), &key), "default");
    assert_eq!(resource_name(false, None, &key), "default");
}

fn record(service: Option<&str>, name: Option<&str>) -> ContainerRecord {
    ContainerRecord {
        service: service.map(String::from),
        name: name.map(String::from),
    }
}

fn strings(items: &[&str]) -> Vec<String> {
    items.iter().map(|s| String::from(*s)).collect()
}

#[test]
fn grouping_by_service() {
    let records = vec![
        record(Some("web"), Some("web1")),
        record(Some("db"), Some("db1")),
        record(Some("web"), Some("web2")),
        record(Some("other"), Some("o1")),
        record(None, Some("stray")),
        record(Some("web"), None),
    ];
    let groups = group_containers(&records, &strings(&["web", "db"]), &strings(&[]));
    assert_eq!(groups.len(), 2);
    assert_eq!(groups[0].0, "web");
    assert_eq!(groups[0].1, strings(&["web1", "web2"]));
    assert_eq!(groups[1].0, "db");
    assert_eq!(groups[1].1, strings(&["db1"]));
}

#[test]
fn grouping_defaults_to_configured() {
    let records = vec![
        record(Some("web"), Some("web1")),
        record(Some("rogue"), Some("r1")),
    ];
    let groups = group_containers(&records, &strings(&[]), &strings(&["web", "db"]));
    assert_eq!(groups.len(), 1);
    assert_eq!(groups[0].0, "web");
}

#[test]
fn live_service_join() {
    let records = vec![
        record(Some("web"), Some("web1")),
        record(Some("db"), Some("db1")),
    ];
    let groups = group_containers(&records, &strings(&[]), &strings(&["web", "db"]));
    let config = vec![
        (String::from("web"), strings(&["db"])),
        (String::from("db"), strings(&[])),
    ];
    let live = live_services(groups, &config);
    assert_eq!(live.len(), 2);
    assert_eq!(live[0].name, "web");
    assert_eq!(live[0].containers, strings(&["web1"]));
    assert_eq!(live[0].prerequisites, strings(&["db"]));
    assert_eq!(live[1].name, "db");
    assert!(live[1].prerequisites.is_empty());
}

#[test]
fn port_short_forms() {
    let p = parse_port_short("80");
    assert_eq!(p.target, "80");
    assert_eq!(p.published, None);
    assert_eq!(p.host_ip, None);
    assert_eq!(p.protocol, None);

    let p = parse_port_short("8080:80/udp");
    assert_eq!(p.target, "80");
    assert_eq!(p.published, Some(String::from("8080")));
    assert_eq!(p.host_ip, None);
    assert_eq!(p.protocol, Some(String::from("udp")));

    let p = parse_port_short("127.0.0.1:8080:80");
    assert_eq!(p.target, "80");
    assert_eq!(p.published, Some(String::from("8080")));
    assert_eq!(p.host_ip, Some(String::from("127.0.0.1")));

    let p = parse_port_short(":80");
    assert_eq!(p.target, "80");
    assert_eq!(p.published, None);
}
