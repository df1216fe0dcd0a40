//! The short syntax of a port mapping.
//!
//! A mapping is written `TARGET`, `PUBLISHED:TARGET` or
//! `HOST_IP:PUBLISHED:TARGET`, counted from the right, and the target may
//! carry `/PROTOCOL`. An empty published part means none; parts to the left
//! of the host address are ignored.

use vstd::prelude::*;

use crate::util::{names_view, split_char, split_on};

verus! {

/// One port mapping, as a short-syntax declaration describes it.
#[derive(Debug)]
pub struct Port {
    pub target: String,
    pub published: Option<String>,
    pub host_ip: Option<String>,
    pub protocol: Option<String>,
}

/// The container-side piece of the mapping: its last colon-separated part.
pub open spec fn port_container_part(parts: Seq<Seq<char>>) -> Seq<char> {
    parts.last()
}

/// Parses one short-syntax port mapping.
pub fn parse_port_short(s: &str) -> (r: Port)
    ensures
        ({
            let parts = split_char(s@, ':');
            let cparts = split_char(port_container_part(parts), '/');
            &&& r.target@ == cparts[0]
            &&& match r.protocol {
                Some(p) => cparts.len() >= 2 && p@ == cparts[1],
                None => cparts.len() < 2,
            }
            &&& match r.published {
                Some(p) => parts.len() >= 2 && parts[parts.len() - 2].len() > 0 && p@
                    == parts[parts.len() - 2],
                None => parts.len() < 2 || parts[parts.len() - 2].len() == 0,
            }
            &&& match r.host_ip {
                Some(h) => parts.len() >= 3 && h@ == parts[parts.len() - 3],
                None => parts.len() < 3,
            }
        }),
{
    let parts = split_on(s, ':');
    proof {
        crate::util::lemma_names_view_index(parts@);
    }
    let n = parts.len();
    let container = &parts[n - 1];
    let cparts = split_on(container.as_str(), '/');
    proof {
        crate::util::lemma_names_view_index(cparts@);
    }
    let target = cparts[0].clone();
    let protocol = if cparts.len() >= 2 {
        Some(cparts[1].clone())
    } else {
        None
    };
    let published = if n >= 2 && parts[n - 2].as_str().unicode_len() > 0 {
        Some(parts[n - 2].clone())
    } else {
        None
    };
    let host_ip = if n >= 3 {
        Some(parts[n - 3].clone())
    } else {
        None
    };
    Port { target, published, host_ip, protocol }
}

} // verus!
