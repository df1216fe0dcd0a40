//! The short syntax of a service volume declaration.
//!
//! A mount is written `TARGET`, `SOURCE:TARGET`, `TARGET:OPTIONS` or
//! `SOURCE:TARGET:OPTIONS`; more colons are an error. A two-part form is
//! `SOURCE:TARGET` only when the second part is an absolute path. A source
//! beginning with `/` or `.` makes the mount a bind mount, any other source
//! a named volume. The options are comma-separated: `rw`/`ro` set
//! read-only, the propagation words and `z`/`Z` set bind options,
//! `copy`/`nocopy` set the volume copy flag; empty options are ignored and
//! anything else is reported back as unknown.

use vstd::prelude::*;

use crate::util::{names_view, split_char, split_on, str_eq};

verus! {

/// What kind of mount a declaration denotes.
#[derive(Clone, Copy, PartialEq, Eq, Structural, Debug)]
pub enum ServiceVolumeType {
    Volume,
    Bind,
    Tmpfs,
}

/// Bind-mount options of a service volume.
#[derive(Debug)]
pub struct ServiceVolumeBind {
    pub propagation: Option<String>,
    pub create_host_path: Option<bool>,
    pub selinux: Option<String>,
}

impl ServiceVolumeBind {
    /// Bind options with nothing set.
    pub fn new() -> (r: Self)
        ensures
            r.propagation is None,
            r.create_host_path is None,
            r.selinux is None,
    {
        ServiceVolumeBind { propagation: None, create_host_path: None, selinux: None }
    }
}

/// Named-volume options of a service volume.
#[derive(Debug)]
pub struct ServiceVolumeVolume {
    pub nocopy: Option<bool>,
}

/// One service volume, as a short-syntax declaration describes it.
#[derive(Debug)]
pub struct ServiceVolume {
    pub kind: ServiceVolumeType,
    pub source: Option<String>,
    pub target: String,
    pub read_only: Option<bool>,
    pub bind: Option<ServiceVolumeBind>,
    pub volume: Option<ServiceVolumeVolume>,
}

/// The effect of the option words, folded left to right: a later word
/// overrides an earlier one of the same kind, and unknown words are kept
/// in order.
pub struct VolumeOptionsModel {
    pub read_only: Option<bool>,
    pub propagation: Option<Seq<char>>,
    pub selinux: Option<Seq<char>>,
    pub nocopy: Option<bool>,
    pub unknown: Seq<Seq<char>>,
}

/// A bind propagation word.
pub open spec fn is_propagation(o: Seq<char>) -> bool {
    ||| o == "shared"@
    ||| o == "rshared"@
    ||| o == "slave"@
    ||| o == "rslave"@
    ||| o == "private"@
    ||| o == "rprivate"@
    ||| o == "unbindable"@
    ||| o == "runbindable"@
}

/// The effect of one option word.
pub open spec fn apply_opt(m: VolumeOptionsModel, o: Seq<char>) -> VolumeOptionsModel {
    if o == "rw"@ {
        VolumeOptionsModel { read_only: Some(false), ..m }
    } else if o == "ro"@ {
        VolumeOptionsModel { read_only: Some(true), ..m }
    } else if is_propagation(o) {
        VolumeOptionsModel { propagation: Some(o), ..m }
    } else if o == "z"@ || o == "Z"@ {
        VolumeOptionsModel { selinux: Some(o), ..m }
    } else if o == "copy"@ {
        VolumeOptionsModel { nocopy: Some(false), ..m }
    } else if o == "nocopy"@ {
        VolumeOptionsModel { nocopy: Some(true), ..m }
    } else if o.len() == 0 {
        m
    } else {
        VolumeOptionsModel { unknown: m.unknown.push(o), ..m }
    }
}

/// The effect of a list of option words.
pub open spec fn fold_opts(opts: Seq<Seq<char>>) -> VolumeOptionsModel
    decreases opts.len(),
{
    if opts.len() == 0 {
        VolumeOptionsModel {
            read_only: None,
            propagation: None,
            selinux: None,
            nocopy: None,
            unknown: Seq::empty(),
        }
    } else {
        apply_opt(fold_opts(opts.drop_last()), opts.last())
    }
}

/// The part begins with `/`.
pub open spec fn starts_slash(p: Seq<char>) -> bool {
    p.len() > 0 && p[0] == '/'
}

/// The part names a host path (`/` or `.`), making the mount a bind mount.
pub open spec fn starts_bindish(p: Seq<char>) -> bool {
    p.len() > 0 && (p[0] == '/' || p[0] == '.')
}

/// The source of the mount, by the colon-separated parts.
pub open spec fn vol_source(parts: Seq<Seq<char>>) -> Option<Seq<char>> {
    if parts.len() == 2 && starts_slash(parts[1]) {
        Some(parts[0])
    } else if parts.len() == 3 {
        Some(parts[0])
    } else {
        None
    }
}

/// The target of the mount, by the colon-separated parts.
pub open spec fn vol_target(parts: Seq<Seq<char>>) -> Seq<char> {
    if parts.len() == 1 {
        parts[0]
    } else if parts.len() == 2 && starts_slash(parts[1]) {
        parts[1]
    } else if parts.len() == 2 {
        parts[0]
    } else {
        parts[1]
    }
}

/// The options part of the mount, by the colon-separated parts; empty when
/// the form has none.
pub open spec fn vol_opts_str(parts: Seq<Seq<char>>) -> Seq<char> {
    if parts.len() == 2 && !starts_slash(parts[1]) {
        parts[1]
    } else if parts.len() == 3 {
        parts[2]
    } else {
        Seq::empty()
    }
}

/// The kind of the mount: a bind mount when its source is a host path.
pub open spec fn vol_kind(parts: Seq<Seq<char>>) -> ServiceVolumeType {
    match vol_source(parts) {
        Some(src) => if starts_bindish(src) {
            ServiceVolumeType::Bind
        } else {
            ServiceVolumeType::Volume
        },
        None => ServiceVolumeType::Volume,
    }
}

/// Error returned for a mount declaration with too many colons.
#[derive(Debug)]
pub struct VolumeError {
    pub input: String,
}

impl VolumeError {
    /// The user-facing description of the error.
    pub fn message(&self) -> (r: String)
        ensures
            r@ == self.input@ + ": too many colons"@,
    {
        let mut m = self.input.clone();
        m.append(": too many colons");
        m
    }
}

/// Whether the first character of `p` is `c`.
fn first_char_is(p: &String, c: char) -> (r: bool)
    ensures
        r == (p@.len() > 0 && p@[0] == c),
{
    let s = p.as_str();
    if s.unicode_len() == 0 {
        false
    } else {
        s.get_char(0) == c
    }
}

/// Parses one short-syntax mount declaration into the volume it denotes
/// and the list of unknown option words, or rejects it for having too many
/// colons.
pub fn parse_volume_short(s: &str) -> (r: Result<(ServiceVolume, Vec<String>), VolumeError>)
    ensures
        match r {
            Ok((v, unknown)) => {
                let parts = split_char(s@, ':');
                let m = fold_opts(split_char(vol_opts_str(parts), ','));
                &&& parts.len() <= 3
                &&& v.target@ == vol_target(parts)
                &&& match v.source {
                    Some(src) => vol_source(parts) == Some(src@),
                    None => vol_source(parts) is None,
                }
                &&& v.kind == vol_kind(parts)
                &&& v.read_only == m.read_only
                &&& match v.bind {
                    Some(b) => {
                        &&& m.propagation is Some || m.selinux is Some
                        &&& b.create_host_path is None
                        &&& match b.propagation {
                            Some(p) => m.propagation == Some(p@),
                            None => m.propagation is None,
                        }
                        &&& match b.selinux {
                            Some(z) => m.selinux == Some(z@),
                            None => m.selinux is None,
                        }
                    },
                    None => m.propagation is None && m.selinux is None,
                }
                &&& match v.volume {
                    Some(vv) => vv.nocopy == m.nocopy && m.nocopy is Some,
                    None => m.nocopy is None,
                }
                &&& names_view(unknown@) == m.unknown
            },
            Err(e) => split_char(s@, ':').len() > 3 && e.input@ == s@,
        },
{
    let mut parts = split_on(s, ':');
    let ghost partsv = split_char(s@, ':');
    proof {
        crate::util::lemma_names_view_index(parts@);
    }
    if parts.len() > 3 {
        return Err(VolumeError { input: String::from_str(s) });
    }
    let kind: ServiceVolumeType;
    let source: Option<String>;
    let target: String;
    let options: String;
    if parts.len() == 1 {
        target = parts.remove(0);
        source = None;
        kind = ServiceVolumeType::Volume;
        options = String::new();
    } else if parts.len() == 2 {
        if first_char_is(&parts[1], '/') {
            let src = parts.remove(0);
            target = parts.remove(0);
            kind = if first_char_is(&src, '/') || first_char_is(&src, '.') {
                ServiceVolumeType::Bind
            } else {
                ServiceVolumeType::Volume
            };
            source = Some(src);
            options = String::new();
        } else {
            target = parts.remove(0);
            options = parts.remove(0);
            source = None;
            kind = ServiceVolumeType::Volume;
        }
    } else {
        let src = parts.remove(0);
        target = parts.remove(0);
        options = parts.remove(0);
        kind = if first_char_is(&src, '/') || first_char_is(&src, '.') {
            ServiceVolumeType::Bind
        } else {
            ServiceVolumeType::Volume
        };
        source = Some(src);
    }
    proof {
        assert(vol_opts_str(partsv) == options@);
        assert(vol_target(partsv) == target@);
    }
    let opts = split_on(options.as_str(), ',');
    let ghost optsv = split_char(options@, ',');
    proof {
        crate::util::lemma_names_view_index(opts@);
    }
    let mut read_only: Option<bool> = None;
    let mut propagation: Option<String> = None;
    let mut selinux: Option<String> = None;
    let mut nocopy: Option<bool> = None;
    let mut unknown: Vec<String> = Vec::new();
    let no = opts.len();
    let mut i: usize = 0;
    proof {
        assert(optsv.subrange(0, 0) =~= Seq::<Seq<char>>::empty());
        assert(names_view(unknown@) =~= Seq::<Seq<char>>::empty());
    }
    while i < no
        invariant
            i <= no,
            no == opts@.len(),
            optsv == split_char(options@, ','),
            names_view(opts@) == optsv,
            forall|k: int| 0 <= k < opts@.len() ==> #[trigger] opts@[k]@ == optsv[k],
            ({
                let m = fold_opts(optsv.subrange(0, i as int));
                &&& read_only == m.read_only
                &&& match propagation {
                    Some(p) => m.propagation == Some(p@),
                    None => m.propagation is None,
                }
                &&& match selinux {
                    Some(z) => m.selinux == Some(z@),
                    None => m.selinux is None,
                }
                &&& nocopy == m.nocopy
                &&& names_view(unknown@) == m.unknown
            }),
        decreases no - i,
    {
        proof {
            assert(optsv.subrange(0, i + 1).drop_last() =~= optsv.subrange(0, i as int));
            assert(optsv.subrange(0, i + 1).last() == optsv[i as int]);
        }
        let o = &opts[i];
        let os = o.as_str();
        let ghost pre_unknown = unknown@;
        if str_eq(os, "rw") {
            read_only = Some(false);
        } else if str_eq(os, "ro") {
            read_only = Some(true);
        } else if str_eq(os, "shared") || str_eq(os, "rshared") || str_eq(os, "slave") || str_eq(
            os,
            "rslave",
        ) || str_eq(os, "private") || str_eq(os, "rprivate") || str_eq(os, "unbindable") || str_eq(
            os,
            "runbindable",
        ) {
            propagation = Some(o.clone());
        } else if str_eq(os, "z") || str_eq(os, "Z") {
            selinux = Some(o.clone());
        } else if str_eq(os, "copy") {
            nocopy = Some(false);
        } else if str_eq(os, "nocopy") {
            nocopy = Some(true);
        } else if os.unicode_len() == 0 {
        } else {
            unknown.push(o.clone());
            proof {
                assert(names_view(unknown@) =~= names_view(pre_unknown).push(o@));
            }
        }
        i = i + 1;
    }
    proof {
        assert(optsv.subrange(0, no as int) =~= optsv);
    }
    let bind = if propagation.is_some() || selinux.is_some() {
        Some(ServiceVolumeBind { propagation, create_host_path: None, selinux })
    } else {
        None
    };
    let volume = if let Some(nc) = nocopy {
        Some(ServiceVolumeVolume { nocopy: Some(nc) })
    } else {
        None
    };
    Ok((ServiceVolume { kind, source, target, read_only, bind, volume }, unknown))
}

} // verus!
