use vstd::prelude::*;
use vstd::string::StringSliceAdditionalSpecFns;

verus! {

/// Fixed strings and field values of the OASIS file format.
pub struct OasisBytes {}

impl OasisBytes {
    pub const MAGIC_BYTES: &'static str = "%SEMI-OASIS\r\n";
    pub const CURVI_MAGIC_BYTES: &'static str = "%SEMI-OASIS-CURVILINEAR\r\n";
    pub const VERSION_STRING: &'static str = "1.0";

    pub const TABLE_OFFSETS_IN_START_RECORD: u8 = 0;
    pub const TABLE_OFFSETS_IN_END_RECORD: u8 = 1;

    pub const END_RECORD_VALIDATION_NONE: u8 = 0;
    pub const END_RECORD_VALIDATION_CRC32: u8 = 1;
    pub const END_RECORD_VALIDATION_CHECKSUM32: u8 = 2;

    /// Size in bytes that the END record is laid out for.
    pub const END_RECORD_LENGTH: usize = 256;
}

/// Which flavour of OASIS a file is: it selects the magic bytes.
#[derive(Debug, Clone, Copy, PartialEq, Eq)]
pub enum OasisType {
    STANDARD,
    CURVILINEAR,
}

/// The bytes of `VERSION_STRING`: "1.0".
pub open spec fn version_bytes() -> Seq<u8> {
    seq![0x31u8, 0x2eu8, 0x30u8]
}

pub proof fn lemma_version_bytes()
    ensures
        OasisBytes::VERSION_STRING.spec_bytes() == version_bytes(),
{
    reveal_strlit("1.0");
    broadcast use vstd::string::is_ascii_spec_bytes;
    assert(vstd::string::is_ascii(OasisBytes::VERSION_STRING));
    assert(OasisBytes::VERSION_STRING.spec_bytes() =~= version_bytes());
}

/// The bytes of `MAGIC_BYTES`: "%SEMI-OASIS" and CR LF.
pub open spec fn standard_magic() -> Seq<u8> {
    seq![0x25u8, 0x53, 0x45, 0x4d, 0x49, 0x2d, 0x4f, 0x41, 0x53, 0x49, 0x53, 0x0d, 0x0a]
}

/// The bytes of `CURVI_MAGIC_BYTES`: "%SEMI-OASIS-CURVILINEAR" and CR LF.
pub open spec fn curvilinear_magic() -> Seq<u8> {
    seq![
        0x25u8, 0x53, 0x45, 0x4d, 0x49, 0x2d, 0x4f, 0x41, 0x53, 0x49, 0x53, 0x2d, 0x43, 0x55, 0x52,
        0x56, 0x49, 0x4c, 0x49, 0x4e, 0x45, 0x41, 0x52, 0x0d, 0x0a,
    ]
}

pub proof fn lemma_magic_bytes()
    ensures
        OasisBytes::MAGIC_BYTES.spec_bytes() == standard_magic(),
        OasisBytes::CURVI_MAGIC_BYTES.spec_bytes() == curvilinear_magic(),
{
    reveal_strlit("%SEMI-OASIS\r\n");
    reveal_strlit("%SEMI-OASIS-CURVILINEAR\r\n");
    broadcast use vstd::string::is_ascii_spec_bytes;
    assert(vstd::string::is_ascii(OasisBytes::MAGIC_BYTES));
    assert(vstd::string::is_ascii(OasisBytes::CURVI_MAGIC_BYTES));
    assert(OasisBytes::MAGIC_BYTES.spec_bytes() =~= standard_magic());
    assert(OasisBytes::CURVI_MAGIC_BYTES.spec_bytes() =~= curvilinear_magic());
}

} // verus!
