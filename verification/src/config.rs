//! Validation of a combined configuration before any command runs.
//!
//! Every service must have an image or a build context, must not publish
//! ports under host network mode, and may refer only to defined services,
//! networks, volumes, configs and secrets. A resource declared external may
//! carry no other parameters. Validation succeeds exactly when no rule is
//! violated; a reported error always names a real violation.

use vstd::prelude::*;

use crate::graph::{contains_name, has_name};
use crate::util::names_view;

verus! {

/// What validation reads of one service.
pub struct ServiceConf {
    pub name: String,
    pub has_build: bool,
    pub has_image: bool,
    pub network_mode_host: bool,
    pub has_ports: bool,
    pub depends_on: Vec<String>,
    pub networks: Vec<String>,
    pub volumes: Vec<String>,
    pub configs: Vec<String>,
    pub secrets: Vec<String>,
}

/// What validation reads of one network.
pub struct NetworkConf {
    pub name: String,
    pub external: bool,
    pub has_driver: bool,
    pub has_driver_opts: bool,
    pub has_ipv6: bool,
    pub has_ipam: bool,
    pub has_internal: bool,
    pub has_labels: bool,
}

/// What validation reads of one volume.
pub struct VolumeConf {
    pub name: String,
    pub external: bool,
    pub has_driver: bool,
    pub has_driver_opts: bool,
    pub has_labels: bool,
}

/// What validation reads of one config.
pub struct ConfigConf {
    pub name: String,
    pub external: bool,
    pub has_file: bool,
}

/// What validation reads of one secret.
pub struct SecretConf {
    pub name: String,
    pub external: bool,
    pub has_file: bool,
    pub has_environment: bool,
}

/// The combined configuration, reduced to what validation reads.
pub struct ComposeConf {
    pub services: Vec<ServiceConf>,
    pub networks: Vec<NetworkConf>,
    pub volumes: Vec<VolumeConf>,
    pub configs: Vec<ConfigConf>,
    pub secrets: Vec<SecretConf>,
}

/// A name is among the declared services.
pub open spec fn service_defined(cs: Seq<ServiceConf>, n: Seq<char>) -> bool {
    exists|i: int| 0 <= i < cs.len() && (#[trigger] cs[i]).name@ == n
}

/// A name is among the declared networks.
pub open spec fn network_defined(ns: Seq<NetworkConf>, n: Seq<char>) -> bool {
    exists|i: int| 0 <= i < ns.len() && (#[trigger] ns[i]).name@ == n
}

/// A name is among the declared volumes.
pub open spec fn volume_defined(vs: Seq<VolumeConf>, n: Seq<char>) -> bool {
    exists|i: int| 0 <= i < vs.len() && (#[trigger] vs[i]).name@ == n
}

/// A name is among the declared configs.
pub open spec fn config_defined(cs: Seq<ConfigConf>, n: Seq<char>) -> bool {
    exists|i: int| 0 <= i < cs.len() && (#[trigger] cs[i]).name@ == n
}

/// A name is among the declared secrets.
pub open spec fn secret_defined(ss: Seq<SecretConf>, n: Seq<char>) -> bool {
    exists|i: int| 0 <= i < ss.len() && (#[trigger] ss[i]).name@ == n
}

/// One service violates no rule.
pub open spec fn service_ok(c: ComposeConf, s: ServiceConf) -> bool {
    &&& s.has_build || s.has_image
    &&& !(s.network_mode_host && s.has_ports)
    &&& forall|k: int|
        0 <= k < s.depends_on@.len() ==> service_defined(c.services@, (#[trigger] s.depends_on@[k])@)
    &&& forall|k: int|
        0 <= k < s.networks@.len() ==> network_defined(c.networks@, (#[trigger] s.networks@[k])@)
    &&& forall|k: int|
        0 <= k < s.volumes@.len() ==> volume_defined(c.volumes@, (#[trigger] s.volumes@[k])@)
    &&& forall|k: int|
        0 <= k < s.configs@.len() ==> config_defined(c.configs@, (#[trigger] s.configs@[k])@)
    &&& forall|k: int|
        0 <= k < s.secrets@.len() ==> secret_defined(c.secrets@, (#[trigger] s.secrets@[k])@)
}

/// An external network carries no other parameters.
pub open spec fn network_ok(n: NetworkConf) -> bool {
    !(n.external && (n.has_driver || n.has_driver_opts || n.has_ipv6 || n.has_ipam
        || n.has_internal || n.has_labels))
}

/// An external volume carries no other parameters.
pub open spec fn volume_ok(v: VolumeConf) -> bool {
    !(v.external && (v.has_driver || v.has_driver_opts || v.has_labels))
}

/// An external config carries no file.
pub open spec fn config_ok(cf: ConfigConf) -> bool {
    !(cf.external && cf.has_file)
}

/// An external secret carries no file and no environment source.
pub open spec fn secret_ok(sc: SecretConf) -> bool {
    !(sc.external && (sc.has_file || sc.has_environment))
}

/// The whole configuration violates no rule.
pub open spec fn compose_ok(c: ComposeConf) -> bool {
    &&& forall|i: int| 0 <= i < c.services@.len() ==> service_ok(c, #[trigger] c.services@[i])
    &&& forall|i: int| 0 <= i < c.networks@.len() ==> network_ok(#[trigger] c.networks@[i])
    &&& forall|i: int| 0 <= i < c.volumes@.len() ==> volume_ok(#[trigger] c.volumes@[i])
    &&& forall|i: int| 0 <= i < c.configs@.len() ==> config_ok(#[trigger] c.configs@[i])
    &&& forall|i: int| 0 <= i < c.secrets@.len() ==> secret_ok(#[trigger] c.secrets@[i])
}

/// A validation failure; each variant names what is wrong and where.
#[derive(Debug)]
pub enum ValidationError {
    NoImageOrBuild { service: String },
    HostModePorts { service: String },
    UndefinedDependency { service: String, dependency: String },
    UndefinedNetwork { service: String, network: String },
    UndefinedVolume { service: String, volume: String },
    UndefinedConfig { service: String, config: String },
    UndefinedSecret { service: String, secret: String },
    ConflictingNetwork { name: String },
    ConflictingVolume { name: String },
    ConflictingConfig { name: String },
    ConflictingSecret { name: String },
}

/// The reported error names a violation the configuration really has.
pub open spec fn error_justified(c: ComposeConf, e: ValidationError) -> bool {
    match e {
        ValidationError::NoImageOrBuild { service } => exists|i: int|
            0 <= i < c.services@.len() && {
                let s = #[trigger] c.services@[i];
                s.name@ == service@ && !s.has_build && !s.has_image
            },
        ValidationError::HostModePorts { service } => exists|i: int|
            0 <= i < c.services@.len() && {
                let s = #[trigger] c.services@[i];
                s.name@ == service@ && s.network_mode_host && s.has_ports
            },
        ValidationError::UndefinedDependency { service, dependency } => exists|i: int|
            0 <= i < c.services@.len() && {
                let s = #[trigger] c.services@[i];
                s.name@ == service@ && has_name(s.depends_on@, dependency@) && !service_defined(
                    c.services@,
                    dependency@,
                )
            },
        ValidationError::UndefinedNetwork { service, network } => exists|i: int|
            0 <= i < c.services@.len() && {
                let s = #[trigger] c.services@[i];
                s.name@ == service@ && has_name(s.networks@, network@) && !network_defined(
                    c.networks@,
                    network@,
                )
            },
        ValidationError::UndefinedVolume { service, volume } => exists|i: int|
            0 <= i < c.services@.len() && {
                let s = #[trigger] c.services@[i];
                s.name@ == service@ && has_name(s.volumes@, volume@) && !volume_defined(
                    c.volumes@,
                    volume@,
                )
            },
        ValidationError::UndefinedConfig { service, config } => exists|i: int|
            0 <= i < c.services@.len() && {
                let s = #[trigger] c.services@[i];
                s.name@ == service@ && has_name(s.configs@, config@) && !config_defined(
                    c.configs@,
                    config@,
                )
            },
        ValidationError::UndefinedSecret { service, secret } => exists|i: int|
            0 <= i < c.services@.len() && {
                let s = #[trigger] c.services@[i];
                s.name@ == service@ && has_name(s.secrets@, secret@) && !secret_defined(
                    c.secrets@,
                    secret@,
                )
            },
        ValidationError::ConflictingNetwork { name } => exists|i: int|
            0 <= i < c.networks@.len() && (#[trigger] c.networks@[i]).name@ == name@
                && !network_ok(c.networks@[i]),
        ValidationError::ConflictingVolume { name } => exists|i: int|
            0 <= i < c.volumes@.len() && (#[trigger] c.volumes@[i]).name@ == name@ && !volume_ok(
                c.volumes@[i],
            ),
        ValidationError::ConflictingConfig { name } => exists|i: int|
            0 <= i < c.configs@.len() && (#[trigger] c.configs@[i]).name@ == name@ && !config_ok(
                c.configs@[i],
            ),
        ValidationError::ConflictingSecret { name } => exists|i: int|
            0 <= i < c.secrets@.len() && (#[trigger] c.secrets@[i]).name@ == name@ && !secret_ok(
                c.secrets@[i],
            ),
    }
}

/// The declared service names, in order.
fn service_names(services: &Vec<ServiceConf>) -> (r: Vec<String>)
    ensures
        r@.len() == services@.len(),
        forall|i: int| 0 <= i < r@.len() ==> #[trigger] r@[i]@ == services@[i].name@,
        forall|n: Seq<char>| #[trigger] has_name(r@, n) == service_defined(services@, n),
{
    let mut r: Vec<String> = Vec::new();
    let mut i: usize = 0;
    while i < services.len()
        invariant
            i <= services@.len(),
            r@.len() == i,
            forall|k: int| 0 <= k < i ==> #[trigger] r@[k]@ == services@[k].name@,
        decreases services@.len() - i,
    {
        r.push(services[i].name.clone());
        i = i + 1;
    }
    proof {
        assert forall|n: Seq<char>| #[trigger] has_name(r@, n) == service_defined(services@, n) by {
            if has_name(r@, n) {
                let k = choose|k: int| 0 <= k < r@.len() && #[trigger] r@[k]@ == n;
                assert(services@[k].name@ == n);
            }
            if service_defined(services@, n) {
                let k = choose|k: int| 0 <= k < services@.len() && (#[trigger] services@[k]).name@
                    == n;
                assert(r@[k]@ == n);
            }
        }
    }
    r
}

/// The declared network names, in order.
fn network_names(networks: &Vec<NetworkConf>) -> (r: Vec<String>)
    ensures
        forall|n: Seq<char>| #[trigger] has_name(r@, n) == network_defined(networks@, n),
{
    let mut r: Vec<String> = Vec::new();
    let mut i: usize = 0;
    while i < networks.len()
        invariant
            i <= networks@.len(),
            r@.len() == i,
            forall|k: int| 0 <= k < i ==> #[trigger] r@[k]@ == networks@[k].name@,
        decreases networks@.len() - i,
    {
        r.push(networks[i].name.clone());
        i = i + 1;
    }
    proof {
        assert forall|n: Seq<char>| #[trigger] has_name(r@, n) == network_defined(networks@, n) by {
            if has_name(r@, n) {
                let k = choose|k: int| 0 <= k < r@.len() && #[trigger] r@[k]@ == n;
                assert(networks@[k].name@ == n);
            }
            if network_defined(networks@, n) {
                let k = choose|k: int| 0 <= k < networks@.len() && (#[trigger] networks@[k]).name@
                    == n;
                assert(r@[k]@ == n);
            }
        }
    }
    r
}

/// The declared volume names, in order.
fn volume_names(volumes: &Vec<VolumeConf>) -> (r: Vec<String>)
    ensures
        forall|n: Seq<char>| #[trigger] has_name(r@, n) == volume_defined(volumes@, n),
{
    let mut r: Vec<String> = Vec::new();
    let mut i: usize = 0;
    while i < volumes.len()
        invariant
            i <= volumes@.len(),
            r@.len() == i,
            forall|k: int| 0 <= k < i ==> #[trigger] r@[k]@ == volumes@[k].name@,
        decreases volumes@.len() - i,
    {
        r.push(volumes[i].name.clone());
        i = i + 1;
    }
    proof {
        assert forall|n: Seq<char>| #[trigger] has_name(r@, n) == volume_defined(volumes@, n) by {
            if has_name(r@, n) {
                let k = choose|k: int| 0 <= k < r@.len() && #[trigger] r@[k]@ == n;
                assert(volumes@[k].name@ == n);
            }
            if volume_defined(volumes@, n) {
                let k = choose|k: int| 0 <= k < volumes@.len() && (#[trigger] volumes@[k]).name@
                    == n;
                assert(r@[k]@ == n);
            }
        }
    }
    r
}

/// The declared config names, in order.
fn config_names(configs: &Vec<ConfigConf>) -> (r: Vec<String>)
    ensures
        forall|n: Seq<char>| #[trigger] has_name(r@, n) == config_defined(configs@, n),
{
    let mut r: Vec<String> = Vec::new();
    let mut i: usize = 0;
    while i < configs.len()
        invariant
            i <= configs@.len(),
            r@.len() == i,
            forall|k: int| 0 <= k < i ==> #[trigger] r@[k]@ == configs@[k].name@,
        decreases configs@.len() - i,
    {
        r.push(configs[i].name.clone());
        i = i + 1;
    }
    proof {
        assert forall|n: Seq<char>| #[trigger] has_name(r@, n) == config_defined(configs@, n) by {
            if has_name(r@, n) {
                let k = choose|k: int| 0 <= k < r@.len() && #[trigger] r@[k]@ == n;
                assert(configs@[k].name@ == n);
            }
            if config_defined(configs@, n) {
                let k = choose|k: int| 0 <= k < configs@.len() && (#[trigger] configs@[k]).name@
                    == n;
                assert(r@[k]@ == n);
            }
        }
    }
    r
}

/// The declared secret names, in order.
fn secret_names(secrets: &Vec<SecretConf>) -> (r: Vec<String>)
    ensures
        forall|n: Seq<char>| #[trigger] has_name(r@, n) == secret_defined(secrets@, n),
{
    let mut r: Vec<String> = Vec::new();
    let mut i: usize = 0;
    while i < secrets.len()
        invariant
            i <= secrets@.len(),
            r@.len() == i,
            forall|k: int| 0 <= k < i ==> #[trigger] r@[k]@ == secrets@[k].name@,
        decreases secrets@.len() - i,
    {
        r.push(secrets[i].name.clone());
        i = i + 1;
    }
    proof {
        assert forall|n: Seq<char>| #[trigger] has_name(r@, n) == secret_defined(secrets@, n) by {
            if has_name(r@, n) {
                let k = choose|k: int| 0 <= k < r@.len() && #[trigger] r@[k]@ == n;
                assert(secrets@[k].name@ == n);
            }
            if secret_defined(secrets@, n) {
                let k = choose|k: int| 0 <= k < secrets@.len() && (#[trigger] secrets@[k]).name@
                    == n;
                assert(r@[k]@ == n);
            }
        }
    }
    r
}

/// The first undefined name in `refs`, if any: the index of a reference
/// whose name is not among `defined`.
fn first_undefined(refs: &Vec<String>, defined: &Vec<String>) -> (r: Option<usize>)
    ensures
        match r {
            Some(k) => (k as int) < refs@.len() && !has_name(defined@, refs@[k as int]@),
            None => forall|k: int| 0 <= k < refs@.len() ==> has_name(defined@, (#[trigger] refs@[k])@),
        },
{
    let mut k: usize = 0;
    while k < refs.len()
        invariant
            k <= refs@.len(),
            forall|m: int| 0 <= m < k ==> has_name(defined@, (#[trigger] refs@[m])@),
        decreases refs@.len() - k,
    {
        if !contains_name(defined, &refs[k]) {
            return Some(k);
        }
        k = k + 1;
    }
    None
}

/// Validates the combined configuration: succeeds exactly when no rule is
/// violated, and otherwise reports an error naming a real violation.
pub fn validate(c: &ComposeConf) -> (r: Result<(), ValidationError>)
    ensures
        r is Ok <==> compose_ok(*c),
        match r {
            Ok(()) => true,
            Err(e) => error_justified(*c, e),
        },
{
    let services_defined = service_names(&c.services);
    let networks_defined = network_names(&c.networks);
    let volumes_defined = volume_names(&c.volumes);
    let configs_defined = config_names(&c.configs);
    let secrets_defined = secret_names(&c.secrets);
    let ns = c.services.len();
    let mut i: usize = 0;
    while i < ns
        invariant
            i <= ns,
            ns == c.services@.len(),
            forall|m: int| 0 <= m < i ==> service_ok(*c, #[trigger] c.services@[m]),
            forall|n: Seq<char>| #[trigger] has_name(services_defined@, n) == service_defined(
                c.services@,
                n,
            ),
            forall|n: Seq<char>| #[trigger] has_name(networks_defined@, n) == network_defined(
                c.networks@,
                n,
            ),
            forall|n: Seq<char>| #[trigger] has_name(volumes_defined@, n) == volume_defined(
                c.volumes@,
                n,
            ),
            forall|n: Seq<char>| #[trigger] has_name(configs_defined@, n) == config_defined(
                c.configs@,
                n,
            ),
            forall|n: Seq<char>| #[trigger] has_name(secrets_defined@, n) == secret_defined(
                c.secrets@,
                n,
            ),
        decreases ns - i,
    {
        let s = &c.services[i];
        if !s.has_build && !s.has_image {
            return Err(ValidationError::NoImageOrBuild { service: s.name.clone() });
        }
        if s.network_mode_host && s.has_ports {
            return Err(ValidationError::HostModePorts { service: s.name.clone() });
        }
        if let Some(k) = first_undefined(&s.depends_on, &services_defined) {
            proof {
                assert(has_name(s.depends_on@, s.depends_on@[k as int]@)) by {
                    assert(s.depends_on@[k as int]@ == s.depends_on@[k as int]@);
                }
            }
            return Err(
                ValidationError::UndefinedDependency {
                    service: s.name.clone(),
                    dependency: s.depends_on[k].clone(),
                },
            );
        }
        if let Some(k) = first_undefined(&s.networks, &networks_defined) {
            proof {
                assert(has_name(s.networks@, s.networks@[k as int]@));
            }
            return Err(
                ValidationError::UndefinedNetwork {
                    service: s.name.clone(),
                    network: s.networks[k].clone(),
                },
            );
        }
        if let Some(k) = first_undefined(&s.volumes, &volumes_defined) {
            proof {
                assert(has_name(s.volumes@, s.volumes@[k as int]@));
            }
            return Err(
                ValidationError::UndefinedVolume {
                    service: s.name.clone(),
                    volume: s.volumes[k].clone(),
                },
            );
        }
        if let Some(k) = first_undefined(&s.configs, &configs_defined) {
            proof {
                assert(has_name(s.configs@, s.configs@[k as int]@));
            }
            return Err(
                ValidationError::UndefinedConfig {
                    service: s.name.clone(),
                    config: s.configs[k].clone(),
                },
            );
        }
        if let Some(k) = first_undefined(&s.secrets, &secrets_defined) {
            proof {
                assert(has_name(s.secrets@, s.secrets@[k as int]@));
            }
            return Err(
                ValidationError::UndefinedSecret {
                    service: s.name.clone(),
                    secret: s.secrets[k].clone(),
                },
            );
        }
        i = i + 1;
    }
    let nn = c.networks.len();
    let mut i: usize = 0;
    while i < nn
        invariant
            i <= nn,
            nn == c.networks@.len(),
            forall|m: int| 0 <= m < i ==> network_ok(#[trigger] c.networks@[m]),
        decreases nn - i,
    {
        let n = &c.networks[i];
        if n.external && (n.has_driver || n.has_driver_opts || n.has_ipv6 || n.has_ipam
            || n.has_internal || n.has_labels) {
            return Err(ValidationError::ConflictingNetwork { name: n.name.clone() });
        }
        i = i + 1;
    }
    let nv = c.volumes.len();
    let mut i: usize = 0;
    while i < nv
        invariant
            i <= nv,
            nv == c.volumes@.len(),
            forall|m: int| 0 <= m < i ==> volume_ok(#[trigger] c.volumes@[m]),
        decreases nv - i,
    {
        let v = &c.volumes[i];
        if v.external && (v.has_driver || v.has_driver_opts || v.has_labels) {
            return Err(ValidationError::ConflictingVolume { name: v.name.clone() });
        }
        i = i + 1;
    }
    let nc = c.configs.len();
    let mut i: usize = 0;
    while i < nc
        invariant
            i <= nc,
            nc == c.configs@.len(),
            forall|m: int| 0 <= m < i ==> config_ok(#[trigger] c.configs@[m]),
        decreases nc - i,
    {
        let cf = &c.configs[i];
        if cf.external && cf.has_file {
            return Err(ValidationError::ConflictingConfig { name: cf.name.clone() });
        }
        i = i + 1;
    }
    let nsec = c.secrets.len();
    let mut i: usize = 0;
    while i < nsec
        invariant
            i <= nsec,
            nsec == c.secrets@.len(),
            forall|m: int| 0 <= m < i ==> secret_ok(#[trigger] c.secrets@[m]),
        decreases nsec - i,
    {
        let sc = &c.secrets[i];
        if sc.external && (sc.has_file || sc.has_environment) {
            return Err(ValidationError::ConflictingSecret { name: sc.name.clone() });
        }
        i = i + 1;
    }
    Ok(())
}



/// A service takes part in the project when it declares no profiles, or
/// when at least one of its profiles is enabled.
pub fn profiles_active(profiles: &Vec<String>, enabled: &Vec<String>) -> (r: bool)
    ensures
        r == (profiles@.len() == 0 || exists|i: int|
            0 <= i < profiles@.len() && has_name(enabled@, (#[trigger] profiles@[i])@)),
{
    if profiles.len() == 0 {
        return true;
    }
    let mut i: usize = 0;
    while i < profiles.len()
        invariant
            i <= profiles@.len(),
            forall|k: int| 0 <= k < i ==> !has_name(enabled@, (#[trigger] profiles@[k])@),
        decreases profiles@.len() - i,
    {
        if contains_name(enabled, &profiles[i]) {
            return true;
        }
        i = i + 1;
    }
    false
}

/// Builds `a` + `name` + `b`.
fn join3(a: &str, name: &String, b: &str) -> (r: String)
    ensures
        r@ == a@ + name@ + b@,
{
    let mut m = String::from_str(a);
    m.append(name.as_str());
    m.append(b);
    m
}

/// Builds `a` + `n1` + `b` + `n2` + `c`.
fn join5(a: &str, n1: &String, b: &str, n2: &String, c: &str) -> (r: String)
    ensures
        r@ == a@ + n1@ + b@ + n2@ + c@,
{
    let mut m = String::from_str(a);
    m.append(n1.as_str());
    m.append(b);
    m.append(n2.as_str());
    m.append(c);
    m
}

impl ValidationError {
    /// The user-facing description of the error.
    pub fn message(&self) -> (r: String)
        ensures
            r@ == match *self {
                ValidationError::NoImageOrBuild { service } => "Service \""@ + service@
                    + "\" has neither an image nor a build context specified"@,
                ValidationError::HostModePorts { service } => "Service \""@ + service@
                    + "\" cannot have port mappings due to host network mode"@,
                ValidationError::UndefinedDependency { service, dependency } => "Service \""@
                    + service@ + "\" depends on undefined service \""@ + dependency@ + "\""@,
                ValidationError::UndefinedNetwork { service, network } => "Service \""@ + service@
                    + "\" refers to undefined network \""@ + network@ + "\""@,
                ValidationError::UndefinedVolume { service, volume } => "Service \""@ + service@
                    + "\" refers to undefined volume \""@ + volume@ + "\""@,
                ValidationError::UndefinedConfig { service, config } => "Service \""@ + service@
                    + "\" refers to undefined config \""@ + config@ + "\""@,
                ValidationError::UndefinedSecret { service, secret } => "Service \""@ + service@
                    + "\" refers to undefined secret \""@ + secret@ + "\""@,
                ValidationError::ConflictingNetwork { name } => "Conflicting parameters specified for network \""@
                    + name@ + "\""@,
                ValidationError::ConflictingVolume { name } => "Conflicting parameters specified for volume \""@
                    + name@ + "\""@,
                ValidationError::ConflictingConfig { name } => "Conflicting parameters specified for config \""@
                    + name@ + "\""@,
                ValidationError::ConflictingSecret { name } => "Conflicting parameters specified for secret \""@
                    + name@ + "\""@,
            },
    {
        match self {
            ValidationError::NoImageOrBuild { service } => join3(
                "Service \"",
                service,
                "\" has neither an image nor a build context specified",
            ),
            ValidationError::HostModePorts { service } => join3(
                "Service \"",
                service,
                "\" cannot have port mappings due to host network mode",
            ),
            ValidationError::UndefinedDependency { service, dependency } => join5(
                "Service \"",
                service,
                "\" depends on undefined service \"",
                dependency,
                "\"",
            ),
            ValidationError::UndefinedNetwork { service, network } => join5(
                "Service \"",
                service,
                "\" refers to undefined network \"",
                network,
                "\"",
            ),
            ValidationError::UndefinedVolume { service, volume } => join5(
                "Service \"",
                service,
                "\" refers to undefined volume \"",
                volume,
                "\"",
            ),
            ValidationError::UndefinedConfig { service, config } => join5(
                "Service \"",
                service,
                "\" refers to undefined config \"",
                config,
                "\"",
            ),
            ValidationError::UndefinedSecret { service, secret } => join5(
                "Service \"",
                service,
                "\" refers to undefined secret \"",
                secret,
                "\"",
            ),
            ValidationError::ConflictingNetwork { name } => join3(
                "Conflicting parameters specified for network \"",
                name,
                "\"",
            ),
            ValidationError::ConflictingVolume { name } => join3(
                "Conflicting parameters specified for volume \"",
                name,
                "\"",
            ),
            ValidationError::ConflictingConfig { name } => join3(
                "Conflicting parameters specified for config \"",
                name,
                "\"",
            ),
            ValidationError::ConflictingSecret { name } => join3(
                "Conflicting parameters specified for secret \"",
                name,
                "\"",
            ),
        }
    }
}

} // verus!
