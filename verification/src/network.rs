//! Virtual-network configuration: the creation request shape and the
//! network document generated from it. Defining, starting and removing
//! networks on the hypervisor stays with the caller.

use vstd::prelude::*;

verus! {

use vstd::string::StringExecFns;
use crate::text::eq_str;
use crate::text::split_char_spec;
use crate::text::split_char;
use crate::text::first_index;
use crate::types::opt_view;

/// A request to create a virtual network.
#[derive(Debug, Clone)]
pub struct NetworkCreateConfig {
    pub name: String,
    pub forward_mode: String,
    pub bridge_name: Option<String>,
    pub ip_range: Option<String>,
    pub dhcp_enabled: bool,
    pub dhcp_range_start: Option<String>,
    pub dhcp_range_end: Option<String>,
    pub auto_start: bool,
}

/// The DHCP block, present only when DHCP is enabled; range bounds
/// default to the conventional pool.
pub open spec fn dhcp_section_spec(
    enabled: bool,
    start: Option<Seq<char>>,
    end: Option<Seq<char>>,
) -> Seq<char> {
    if enabled {
        "      <dhcp>\n        <range start='"@ + (match start {
            Some(v) => v,
            None => "192.168.1.2"@,
        }) + "' end='"@ + (match end {
            Some(v) => v,
            None => "192.168.1.254"@,
        }) + "'/>\n      </dhcp>"@
    } else {
        Seq::empty()
    }
}

/// The bridge line; an unnamed bridge takes the conventional name.
pub open spec fn bridge_section_spec(bridge: Option<Seq<char>>) -> Seq<char> {
    match bridge {
        Some(b) => "  <bridge name='"@ + b + "' stp='on' delay='0'/>\n"@,
        None => "  <bridge name='virbr0' stp='on' delay='0'/>\n"@,
    }
}

/// The forward block for each supported mode; an unknown mode falls back
/// to plain NAT, and `none` emits nothing.
pub open spec fn forward_section_spec(mode: Seq<char>) -> Seq<char> {
    if mode == "nat"@ {
        "  <forward mode='nat'>\n    <nat>\n      <port start='1024' end='65535'/>\n    </nat>\n  </forward>\n"@
    } else if mode == "route"@ {
        "  <forward mode='route'/>\n"@
    } else if mode == "bridge"@ {
        "  <forward mode='bridge'/>\n"@
    } else if mode == "none"@ {
        Seq::empty()
    } else {
        "  <forward mode='nat'/>\n"@
    }
}

/// The address of the IP block: the part of the configured range before
/// any prefix length, or the conventional gateway address.
pub open spec fn ip_address_spec(ip_range: Option<Seq<char>>) -> Seq<char> {
    match ip_range {
        Some(r) => split_char_spec(r, '/')[0],
        None => "192.168.1.1"@,
    }
}

pub open spec fn ip_section_spec(
    ip_range: Option<Seq<char>>,
    dhcp: Seq<char>,
) -> Seq<char> {
    "    <ip address='"@ + ip_address_spec(ip_range) + "' netmask='255.255.255.0'>\n"@ + dhcp
        + "\n    </ip>"@
}

/// The whole network document for a creation request.
pub open spec fn network_xml_spec(c: NetworkCreateConfig) -> Seq<char> {
    "<network>\n  <name>"@ + c.name@ + "</name>\n"@ + forward_section_spec(c.forward_mode@)
        + bridge_section_spec(opt_view(c.bridge_name)) + ip_section_spec(
        opt_view(c.ip_range),
        dhcp_section_spec(
            c.dhcp_enabled,
            opt_view(c.dhcp_range_start),
            opt_view(c.dhcp_range_end),
        ),
    ) + "\n</network>"@
}

/// Manager of virtual networks; the generation half lives here, the
/// hypervisor calls with the caller.
pub struct NetworkManager;

impl NetworkManager {
    /// Generate the network document for a creation request.
    #[verifier::rlimit(100)]
    pub fn generate_network_xml(config: &NetworkCreateConfig) -> (r: String)
        ensures
            r@ == network_xml_spec(*config),
    {
        let mut r = String::from_str("<network>\n  <name>");
        r.append(config.name.as_str());
        r.append("</name>\n");
        if eq_str(config.forward_mode.as_str(), "nat") {
            r.append(
                "  <forward mode='nat'>\n    <nat>\n      <port start='1024' end='65535'/>\n    </nat>\n  </forward>\n",
            );
        } else if eq_str(config.forward_mode.as_str(), "route") {
            r.append("  <forward mode='route'/>\n");
        } else if eq_str(config.forward_mode.as_str(), "bridge") {
            r.append("  <forward mode='bridge'/>\n");
        } else if eq_str(config.forward_mode.as_str(), "none") {
        } else {
            r.append("  <forward mode='nat'/>\n");
        }
        match &config.bridge_name {
            Some(b) => {
                r.append("  <bridge name='");
                r.append(b.as_str());
                r.append("' stp='on' delay='0'/>\n");
            },
            None => {
                r.append("  <bridge name='virbr0' stp='on' delay='0'/>\n");
            },
        }
        r.append("    <ip address='");
        match &config.ip_range {
            Some(range) => {
                let segs = split_char(range.as_str(), '/');
                proof {
                    assert(segs.deep_view() == split_char_spec(range@, '/'));
                    assert(split_char_spec(range@, '/').len() >= 1) by {
                        let found = first_index(
                            range@.len() as int,
                            0,
                            crate::text::char_pred(range@, '/'),
                        );
                        if found is Some {
                        }
                    }
                    assert(segs@[0]@ == segs.deep_view()[0]);
                }
                r.append(segs[0].as_str());
            },
            None => {
                r.append("192.168.1.1");
            },
        }
        r.append("' netmask='255.255.255.0'>\n");
        if config.dhcp_enabled {
            r.append("      <dhcp>\n        <range start='");
            match &config.dhcp_range_start {
                Some(v) => {
                    r.append(v.as_str());
                },
                None => {
                    r.append("192.168.1.2");
                },
            }
            r.append("' end='");
            match &config.dhcp_range_end {
                Some(v) => {
                    r.append(v.as_str());
                },
                None => {
                    r.append("192.168.1.254");
                },
            }
            r.append("'/>\n      </dhcp>");
        }
        r.append("\n    </ip>");
        r.append("\n</network>");
        proof {
            assert(r@ =~= network_xml_spec(*config));
        }
        r
    }
}

} // verus!
