//! The register properties that an entity hands down to the registers below it.

use vstd::prelude::*;
use crate::element::{
    elements_view, first_named, lemma_all_well_formed_concat, lemma_first_named_concat, Element,
    ElementView,
};
use crate::encode::{
    lemma_first_named_optional_number, lemma_number_leaf_decodes,
    lemma_optional_number_well_formed, optional_number, push_optional_number, EncodeChildren,
};
use crate::error::{SVDError, SVDErrorView};
use crate::parse::{get_optional_child_as, optional_child_as, Parse};
use crate::tags::lemma_tag_shapes;

verus! {

/// Defaults for the registers of an entity: each is inherited where a register
/// does not state its own.
#[derive(Clone, Copy, Debug, PartialEq, Eq, Structural)]
pub struct RegisterProperties {
    /// Width of a register in bits.
    pub size: Option<u32>,
    /// Value of a register after reset.
    pub reset_value: Option<u32>,
    /// The bits of a register that have a defined value after reset.
    pub reset_mask: Option<u32>,
}

impl View for RegisterProperties {
    type V = RegisterProperties;

    open spec fn view(&self) -> RegisterProperties {
        *self
    }
}

impl DeepView for RegisterProperties {
    type V = RegisterProperties;

    open spec fn deep_view(&self) -> RegisterProperties {
        *self
    }
}

/// `tag` is one of the tags under which register properties are written.
pub open spec fn is_register_property_tag(tag: Seq<char>) -> bool {
    tag == "size"@ || tag == "resetValue"@ || tag == "resetMask"@
}

impl Parse for RegisterProperties {
    type Object = RegisterProperties;

    open spec fn accepts(tree: ElementView) -> bool {
        true
    }

    /// Each property is read from the child of its tag, where `tree` has one.
    open spec fn decoded(tree: ElementView) -> Result<RegisterProperties, SVDErrorView> {
        match optional_child_as::<u32>(tree, "size"@) {
            Err(e) => Err(e),
            Ok(size) => match optional_child_as::<u32>(tree, "resetValue"@) {
                Err(e) => Err(e),
                Ok(reset_value) => match optional_child_as::<u32>(tree, "resetMask"@) {
                    Err(e) => Err(e),
                    Ok(reset_mask) => Ok(RegisterProperties { size, reset_value, reset_mask }),
                },
            },
        }
    }

    fn parse(tree: &Element) -> (r: Result<RegisterProperties, SVDError>) {
        let size = get_optional_child_as::<u32>("size", tree)?;
        let reset_value = get_optional_child_as::<u32>("resetValue", tree)?;
        let reset_mask = get_optional_child_as::<u32>("resetMask", tree)?;
        let properties = RegisterProperties { size, reset_value, reset_mask };
        assert(Self::decoded(tree@) == Ok::<RegisterProperties, SVDErrorView>(properties));
        assert(properties.deep_view() == properties);
        Ok(properties)
    }
}

impl EncodeChildren for RegisterProperties {
    /// One decimal leaf for each property that is stated.
    open spec fn encoded_children(v: RegisterProperties) -> Seq<ElementView> {
        optional_number("size"@, v.size) + optional_number("resetValue"@, v.reset_value)
            + optional_number("resetMask"@, v.reset_mask)
    }

    proof fn lemma_encoded_well_formed(v: RegisterProperties) {
        broadcast use lemma_all_well_formed_concat, lemma_optional_number_well_formed;

    }

    fn encode(&self) -> (r: Result<Vec<Element>, SVDError>) {
        let mut children: Vec<Element> = Vec::new();
        assert(elements_view(children@) =~= Seq::empty());
        push_optional_number(&mut children, "size", self.size);
        push_optional_number(&mut children, "resetValue", self.reset_value);
        push_optional_number(&mut children, "resetMask", self.reset_mask);
        assert(elements_view(children@) =~= Self::encoded_children(*self));
        Ok(children)
    }
}

/// The written register properties are elements with property tags only.
pub proof fn lemma_register_properties_tags(v: RegisterProperties, name: Seq<char>)
    requires
        !is_register_property_tag(name),
    ensures
        first_named(RegisterProperties::encoded_children(v), name) is None,
{
    broadcast use lemma_first_named_concat, lemma_first_named_optional_number;

}

/// Register properties that were written among the children of `tree` are read
/// back as they were, where no other child of `tree` bears one of their tags.
pub proof fn lemma_register_properties_round_trip(
    tree: ElementView,
    before: Seq<ElementView>,
    after: Seq<ElementView>,
    v: RegisterProperties,
)
    requires
        tree.children == before + RegisterProperties::encoded_children(v) + after,
        first_named(before, "size"@) is None,
        first_named(before, "resetValue"@) is None,
        first_named(before, "resetMask"@) is None,
        first_named(after, "size"@) is None,
        first_named(after, "resetValue"@) is None,
        first_named(after, "resetMask"@) is None,
    ensures
        RegisterProperties::decoded(tree) == Ok::<RegisterProperties, SVDErrorView>(v),
{
    broadcast use
        lemma_first_named_concat,
        lemma_first_named_optional_number,
        lemma_number_leaf_decodes,
    ;

    lemma_tag_shapes();
}

} // verus!
