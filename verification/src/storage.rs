//! Storage volumes: the volume and clone documents generated for the
//! pool, and the format read back out of a volume document. Creating,
//! resizing and deleting volumes on the hypervisor stays with the caller.

use vstd::prelude::*;

verus! {

use vstd::string::StringExecFns;
use crate::text::dec_str;
use crate::text::u64_to_string;
use crate::types::VolumeConfig;
use crate::xml_parser::XmlParser;
use crate::xml_parser::find_attr_from;

/// The volume document for a creation request: the name doubles as the
/// key, and an absent allocation means fully allocated.
pub open spec fn volume_xml_spec(c: VolumeConfig) -> Seq<char> {
    let alloc = (match c.allocation {
        Some(a) => a,
        None => c.capacity,
    });
    "<volume type='file'>\n  <name>"@ + c.name@ + "</name>\n  <key>"@ + c.name@
        + "</key>\n  <source>\n  </source>\n  <capacity unit='bytes'>"@ + dec_str(
        c.capacity as int,
    ) + "</capacity>\n  <allocation unit='bytes'>"@ + dec_str(alloc as int)
        + "</allocation>\n  <target>\n    <format type='"@ + c.format@
        + "'/>\n  </target>\n</volume>"@
}

/// The clone document: as the volume document, thin by default, with a
/// backing-store reference to the source volume's path.
pub open spec fn clone_volume_xml_spec(c: VolumeConfig, source_path: Seq<char>) -> Seq<char> {
    let alloc = (match c.allocation {
        Some(a) => a,
        None => 0u64,
    });
    "<volume type='file'>\n  <name>"@ + c.name@ + "</name>\n  <key>"@ + c.name@
        + "</key>\n  <source>\n  </source>\n  <capacity unit='bytes'>"@ + dec_str(
        c.capacity as int,
    ) + "</capacity>\n  <allocation unit='bytes'>"@ + dec_str(alloc as int)
        + "</allocation>\n  <target>\n    <format type='"@ + c.format@
        + "'/>\n  </target>\n  <backingStore>\n    <path>"@ + source_path
        + "</path>\n    <format type='qcow2'/>\n  </backingStore>\n</volume>"@
}

/// Manager of storage volumes; the generation and parsing halves live
/// here, the hypervisor calls with the caller.
pub struct StorageManager;

impl StorageManager {
    /// Generate the volume document for a creation request.
    pub fn generate_volume_xml(config: &VolumeConfig) -> (r: String)
        ensures
            r@ == volume_xml_spec(*config),
    {
        let alloc = (match config.allocation {
            Some(a) => a,
            None => config.capacity,
        });
        let mut r = String::from_str("<volume type='file'>\n  <name>");
        r.append(config.name.as_str());
        r.append("</name>\n  <key>");
        r.append(config.name.as_str());
        r.append("</key>\n  <source>\n  </source>\n  <capacity unit='bytes'>");
        let cap = u64_to_string(config.capacity);
        r.append(cap.as_str());
        r.append("</capacity>\n  <allocation unit='bytes'>");
        let al = u64_to_string(alloc);
        r.append(al.as_str());
        r.append("</allocation>\n  <target>\n    <format type='");
        r.append(config.format.as_str());
        r.append("'/>\n  </target>\n</volume>");
        r
    }

    /// Generate the clone document, backed by the source volume's path.
    pub fn generate_clone_volume_xml(config: &VolumeConfig, source_path: &str) -> (r: String)
        ensures
            r@ == clone_volume_xml_spec(*config, source_path@),
    {
        let alloc = (match config.allocation {
            Some(a) => a,
            None => 0u64,
        });
        let mut r = String::from_str("<volume type='file'>\n  <name>");
        r.append(config.name.as_str());
        r.append("</name>\n  <key>");
        r.append(config.name.as_str());
        r.append("</key>\n  <source>\n  </source>\n  <capacity unit='bytes'>");
        let cap = u64_to_string(config.capacity);
        r.append(cap.as_str());
        r.append("</capacity>\n  <allocation unit='bytes'>");
        let al = u64_to_string(alloc);
        r.append(al.as_str());
        r.append("</allocation>\n  <target>\n    <format type='");
        r.append(config.format.as_str());
        r.append("'/>\n  </target>\n  <backingStore>\n    <path>");
        r.append(source_path);
        r.append("</path>\n    <format type='qcow2'/>\n  </backingStore>\n</volume>");
        r
    }

    /// The image format a volume document declares, defaulting to raw.
    pub fn parse_volume_format_from_xml(volume_xml: &str) -> (r: String)
        ensures
            r@ == (match find_attr_from(volume_xml@, "format"@, "type"@, 0) {
                Some(v) => v,
                None => "raw"@,
            }),
    {
        match XmlParser::extract_attribute_value(volume_xml, "format", "type") {
            Some(v) => v,
            None => String::from_str("raw"),
        }
    }
}

} // verus!
