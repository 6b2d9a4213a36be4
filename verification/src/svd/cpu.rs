//! The processor of the device.

use vstd::prelude::*;
use crate::element::{
    elements_view, lemma_first_named_concat, lemma_first_named_single, Element, ElementView,
};
use crate::encode::{
    boolean_element_of, boolean_leaf, lemma_boolean_leaf_decodes, lemma_number_leaf_decodes,
    number_element, number_leaf, push_element, text_element, text_leaf, Encode,
};
use crate::error::{SVDError, SVDErrorView};
use crate::parse::{child_as, get_child_as, Parse};
use crate::tags::lemma_tag_shapes;
use crate::types::BoolParse;

verus! {

/// Mathematical model of [`Cpu`].
pub ghost struct CpuView {
    pub name: Seq<char>,
    pub revision: Seq<char>,
    pub mpu_present: bool,
    pub fpu_present: bool,
    pub nvic_priority_bits: u32,
    pub has_vendor_systick: bool,
}

/// The processor of the device.
#[derive(Clone, Debug, PartialEq, Eq)]
pub struct Cpu {
    pub name: String,
    pub revision: String,
    pub mpu_present: bool,
    pub fpu_present: bool,
    pub nvic_priority_bits: u32,
    pub has_vendor_systick: bool,
}

impl View for Cpu {
    type V = CpuView;

    open spec fn view(&self) -> CpuView {
        CpuView {
            name: self.name@,
            revision: self.revision@,
            mpu_present: self.mpu_present,
            fpu_present: self.fpu_present,
            nvic_priority_bits: self.nvic_priority_bits,
            has_vendor_systick: self.has_vendor_systick,
        }
    }
}

impl DeepView for Cpu {
    type V = CpuView;

    open spec fn deep_view(&self) -> CpuView {
        self@
    }
}

impl Parse for Cpu {
    type Object = Cpu;

    open spec fn accepts(tree: ElementView) -> bool {
        true
    }

    /// Every field is read from the required child of its tag.
    open spec fn decoded(tree: ElementView) -> Result<CpuView, SVDErrorView> {
        match tree.child_text("name"@) {
            Err(e) => Err(e),
            Ok(name) => match tree.child_text("revision"@) {
                Err(e) => Err(e),
                Ok(revision) => match child_as::<BoolParse>(tree, "mpuPresent"@) {
                    Err(e) => Err(e),
                    Ok(mpu_present) => match child_as::<BoolParse>(tree, "fpuPresent"@) {
                        Err(e) => Err(e),
                        Ok(fpu_present) => match child_as::<u32>(tree, "nvicPrioBits"@) {
                            Err(e) => Err(e),
                            Ok(nvic_priority_bits) => match child_as::<BoolParse>(
                                tree,
                                "vendorSystickConfig"@,
                            ) {
                                Err(e) => Err(e),
                                Ok(has_vendor_systick) => Ok(
                                    CpuView {
                                        name,
                                        revision,
                                        mpu_present,
                                        fpu_present,
                                        nvic_priority_bits,
                                        has_vendor_systick,
                                    },
                                ),
                            },
                        },
                    },
                },
            },
        }
    }

    fn parse(tree: &Element) -> (r: Result<Cpu, SVDError>) {
        let name = tree.get_child_text("name")?;
        let revision = tree.get_child_text("revision")?;
        let mpu_present = get_child_as::<BoolParse>("mpuPresent", tree)?;
        let fpu_present = get_child_as::<BoolParse>("fpuPresent", tree)?;
        let nvic_priority_bits = get_child_as::<u32>("nvicPrioBits", tree)?;
        let has_vendor_systick = get_child_as::<BoolParse>("vendorSystickConfig", tree)?;
        Ok(
            Cpu {
                name,
                revision,
                mpu_present,
                fpu_present,
                nvic_priority_bits,
                has_vendor_systick,
            },
        )
    }
}

impl Encode for Cpu {
    /// An element `cpu` with one leaf for each field.
    open spec fn encoded(v: CpuView) -> ElementView {
        ElementView {
            name: "cpu"@,
            text: None,
            attributes: Seq::empty(),
            children: seq![text_leaf("name"@, v.name)] + seq![text_leaf("revision"@, v.revision)]
                + seq![boolean_leaf("mpuPresent"@, v.mpu_present)] + seq![
                boolean_leaf("fpuPresent"@, v.fpu_present),
            ] + seq![number_leaf("nvicPrioBits"@, v.nvic_priority_bits)] + seq![
                boolean_leaf("vendorSystickConfig"@, v.has_vendor_systick),
            ],
        }
    }

    proof fn lemma_encoded_well_formed(v: CpuView) {
        broadcast use
            crate::element::lemma_all_well_formed_concat,
            crate::element::lemma_all_well_formed_single,
            crate::element::lemma_leaf_well_formed,
        ;

        crate::element::lemma_well_formed(Self::encoded(v));

    }

    fn encode(&self) -> (r: Result<Element, SVDError>) {
        let mut children: Vec<Element> = Vec::new();
        assert(elements_view(children@) =~= Seq::empty());
        push_element(&mut children, text_element("name", &self.name));
        push_element(&mut children, text_element("revision", &self.revision));
        push_element(&mut children, boolean_element_of("mpuPresent", self.mpu_present));
        push_element(&mut children, boolean_element_of("fpuPresent", self.fpu_present));
        push_element(&mut children, number_element("nvicPrioBits", self.nvic_priority_bits));
        push_element(
            &mut children,
            boolean_element_of("vendorSystickConfig", self.has_vendor_systick),
        );
        let e = Element {
            name: String::from_str("cpu"),
            text: None,
            attributes: Vec::new(),
            children,
        };
        proof {
            crate::element::lemma_children_view(e);
            assert(e@.attributes =~= Seq::empty());
            assert(e@.children =~= Self::encoded(self@).children);
        }
        Ok(e)
    }
}

/// A processor that was written is read back as it was.
pub proof fn lemma_cpu_round_trip(v: CpuView)
    ensures
        Cpu::decoded(Cpu::encoded(v)) == Ok::<CpuView, SVDErrorView>(v),
{
    broadcast use
        lemma_first_named_concat,
        lemma_first_named_single,
        lemma_number_leaf_decodes,
        lemma_boolean_leaf_decodes,
    ;

    lemma_tag_shapes();
}

} // verus!
