//! The tags and attribute keys of the description, as far as proofs need to
//! tell them apart.

use vstd::prelude::*;

verus! {

/// The length and the first character of every tag. Two tags differ in one of
/// them, or in their third character.
pub proof fn lemma_tag_shapes()
    ensures
        "name"@.len() == 4 && "name"@[0] == 'n',
        "size"@.len() == 4 && "size"@[0] == 's',
        "description"@.len() == 11 && "description"@[0] == 'd',
        "peripherals"@.len() == 11 && "peripherals"@[0] == 'p',
        "baseAddress"@.len() == 11 && "baseAddress"@[0] == 'b',
        "headerStructName"@.len() == 16,
        "addressOffset"@.len() == 13,
        "addressUnitBits"@.len() == 15,
        "resetValue"@.len() == 10 && "resetValue"@[0] == 'r',
        "peripheral"@.len() == 10 && "peripheral"@[0] == 'p',
        "mpuPresent"@.len() == 10 && "mpuPresent"@[0] == 'm',
        "fpuPresent"@.len() == 10 && "fpuPresent"@[0] == 'f',
        "resetMask"@.len() == 9 && "resetMask"@[2] == 's',
        "registers"@.len() == 9 && "registers"@[2] == 'g',
        "dim"@.len() == 3 && "dim"@[0] == 'd',
        "cpu"@.len() == 3 && "cpu"@[0] == 'c',
        "dimIncrement"@.len() == 12 && "dimIncrement"@[0] == 'd',
        "nvicPrioBits"@.len() == 12 && "nvicPrioBits"@[0] == 'n',
        "dimIndex"@.len() == 8 && "dimIndex"@[0] == 'd',
        "revision"@.len() == 8 && "revision"@[0] == 'r',
        "version"@.len() == 7 && "version"@[0] == 'v',
        "cluster"@.len() == 7 && "cluster"@[0] == 'c',
        "width"@.len() == 5,
        "device"@.len() == 6,
        "vendorSystickConfig"@.len() == 19,
{
    reveal_strlit("name");
    reveal_strlit("size");
    reveal_strlit("description");
    reveal_strlit("peripherals");
    reveal_strlit("baseAddress");
    reveal_strlit("headerStructName");
    reveal_strlit("addressOffset");
    reveal_strlit("addressUnitBits");
    reveal_strlit("resetValue");
    reveal_strlit("peripheral");
    reveal_strlit("mpuPresent");
    reveal_strlit("fpuPresent");
    reveal_strlit("resetMask");
    reveal_strlit("registers");
    reveal_strlit("dim");
    reveal_strlit("cpu");
    reveal_strlit("dimIncrement");
    reveal_strlit("nvicPrioBits");
    reveal_strlit("dimIndex");
    reveal_strlit("revision");
    reveal_strlit("version");
    reveal_strlit("cluster");
    reveal_strlit("width");
    reveal_strlit("device");
    reveal_strlit("vendorSystickConfig");
}

/// The length and the first character of every attribute key.
pub proof fn lemma_key_shapes()
    ensures
        "xmlns:xs"@.len() == 8,
        "schemaVersion"@.len() == 13,
        "xs:noNamespaceSchemaLocation"@.len() == 28,
{
    reveal_strlit("xmlns:xs");
    reveal_strlit("schemaVersion");
    reveal_strlit("xs:noNamespaceSchemaLocation");
}

} // verus!
