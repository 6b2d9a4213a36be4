//! A peripheral of the device.

use vstd::prelude::*;
use crate::element::{
    elements_view, first_named, has_name, lemma_children_view, lemma_filter_all,
    lemma_first_named_concat, lemma_first_named_empty, lemma_first_named_single, text_view,
    Element, ElementView,
};
use crate::encode::{
    encode_each, encoder, lemma_each_round_trip, lemma_first_named_optional_leaf,
    lemma_first_named_optional_number, lemma_number_leaf_decodes, number_element, number_leaf,
    optional_leaf, push_element, push_optional_text, text_element, text_leaf, Encode,
    EncodeChildren,
};
use crate::error::{nested_child, SVDError, SVDErrorView};
use crate::parse::{child_as, decoded_each, decoder, get_child_as, parse_tagged, Parse};
use crate::svd::cluster::{lemma_cluster_round_trip, Cluster, ClusterView};
use crate::svd::registerproperties::{lemma_register_properties_round_trip, RegisterProperties};
use crate::tags::lemma_tag_shapes;

verus! {

/// Mathematical model of [`Peripheral`].
pub ghost struct PeripheralView {
    pub name: Seq<char>,
    pub description: Option<Seq<char>>,
    pub base_address: u32,
    pub default_register_properties: RegisterProperties,
    pub clusters: Option<Seq<ClusterView>>,
}

/// A peripheral of the device.
#[derive(Clone, Debug, PartialEq, Eq)]
pub struct Peripheral {
    pub name: String,
    pub description: Option<String>,
    /// The address at which the registers of the peripheral start.
    pub base_address: u32,
    /// Defaults for the registers of the peripheral.
    pub default_register_properties: RegisterProperties,
    /// The clusters of registers, where the peripheral states its registers.
    pub clusters: Option<Vec<Cluster>>,
}

impl View for Peripheral {
    type V = PeripheralView;

    open spec fn view(&self) -> PeripheralView {
        PeripheralView {
            name: self.name@,
            description: text_view(self.description),
            base_address: self.base_address,
            default_register_properties: self.default_register_properties,
            clusters: self.clusters.deep_view(),
        }
    }
}

impl DeepView for Peripheral {
    type V = PeripheralView;

    open spec fn deep_view(&self) -> PeripheralView {
        self@
    }
}

/// The clusters that the child `registers` of `tree` holds, where `tree` has
/// such a child: every child of it with the tag `cluster`, in order. The first
/// cluster that fails is reported with its position among the clusters.
pub open spec fn decoded_clusters(tree: ElementView) -> Result<
    Option<Seq<ClusterView>>,
    SVDErrorView,
> {
    match tree.child("registers"@) {
        None => Ok(None),
        Some(registers) => match decoded_each(
            registers.children.filter(has_name("cluster"@)),
            decoder::<Cluster>(),
        ) {
            Ok(clusters) => Ok(Some(clusters)),
            Err((i, e)) => Err(nested_child(registers.name, i, e)),
        },
    }
}

/// The element `registers` that holds `clusters`, where they are stated.
pub open spec fn registers_element(clusters: Option<Seq<ClusterView>>) -> Seq<ElementView> {
    match clusters {
        None => Seq::empty(),
        Some(cs) => seq![
            ElementView {
                name: "registers"@,
                text: None,
                attributes: Seq::empty(),
                children: cs.map_values(encoder::<Cluster>()),
            },
        ],
    }
}

/// The elements that write a peripheral.
pub open spec fn peripheral_children(v: PeripheralView) -> Seq<ElementView> {
    seq![text_leaf("name"@, v.name)] + optional_leaf("description"@, v.description) + seq![
        number_leaf("baseAddress"@, v.base_address),
    ] + RegisterProperties::encoded_children(v.default_register_properties) + registers_element(
        v.clusters,
    )
}

impl PeripheralView {
    /// Every cluster of the peripheral is well formed.
    pub open spec fn well_formed(self) -> bool {
        self.clusters matches Some(cs) ==> forall|i: int|
            0 <= i < cs.len() ==> (#[trigger] cs[i]).well_formed()
    }

    /// Every cluster of the peripheral can be written and read back.
    pub open spec fn readable(self) -> bool {
        self.clusters matches Some(cs) ==> forall|i: int|
            0 <= i < cs.len() ==> (#[trigger] cs[i]).readable()
    }
}

impl Parse for Peripheral {
    type Object = Peripheral;

    open spec fn accepts(tree: ElementView) -> bool {
        true
    }

    /// Name and base address are required children; the description, the
    /// register properties and the registers are optional ones.
    open spec fn decoded(tree: ElementView) -> Result<PeripheralView, SVDErrorView> {
        match tree.child_text("name"@) {
            Err(e) => Err(e),
            Ok(name) => match tree.child_text_opt("description"@) {
                Err(e) => Err(e),
                Ok(description) => match child_as::<u32>(tree, "baseAddress"@) {
                    Err(e) => Err(e),
                    Ok(base_address) => match RegisterProperties::decoded(tree) {
                        Err(e) => Err(e),
                        Ok(default_register_properties) => match decoded_clusters(tree) {
                            Err(e) => Err(e),
                            Ok(clusters) => Ok(
                                PeripheralView {
                                    name,
                                    description,
                                    base_address,
                                    default_register_properties,
                                    clusters,
                                },
                            ),
                        },
                    },
                },
            },
        }
    }

    fn parse(tree: &Element) -> (r: Result<Peripheral, SVDError>) {
        let name = tree.get_child_text("name")?;
        let description = tree.get_child_text_opt("description")?;
        let base_address = get_child_as::<u32>("baseAddress", tree)?;
        let default_register_properties = RegisterProperties::parse(tree)?;
        let clusters = match tree.get_child("registers") {
            None => None,
            Some(registers) => {
                proof {
                    lemma_children_view(*registers);
                }
                match parse_tagged::<Cluster>(&registers.children, "cluster") {
                    Ok(cs) => Some(cs),
                    Err((i, cause)) => {
                        return Err(SVDError::nest_child(&registers.name, i, cause));
                    },
                }
            },
        };
        let peripheral = Peripheral {
            name,
            description,
            base_address,
            default_register_properties,
            clusters,
        };
        proof {
            assert(tree@.child_text("name"@) == Ok::<Seq<char>, SVDErrorView>(peripheral.name@));
            assert(tree@.child_text_opt("description"@) == Ok::<Option<Seq<char>>, SVDErrorView>(
                peripheral@.description,
            ));
            assert(child_as::<u32>(tree@, "baseAddress"@) == Ok::<u32, SVDErrorView>(
                peripheral.base_address,
            ));
            assert(RegisterProperties::decoded(tree@) == Ok::<RegisterProperties, SVDErrorView>(
                peripheral.default_register_properties,
            ));
            assert(decoded_clusters(tree@) == Ok::<Option<Seq<ClusterView>>, SVDErrorView>(
                peripheral@.clusters,
            ));
            assert(Self::decoded(tree@) == Ok::<PeripheralView, SVDErrorView>(peripheral@));
            assert(peripheral.deep_view() == peripheral@);
        }
        Ok(peripheral)
    }
}

impl Encode for Peripheral {
    /// An element `peripheral` with one child for each field that is stated.
    open spec fn encoded(v: PeripheralView) -> ElementView {
        ElementView {
            name: "peripheral"@,
            text: None,
            attributes: Seq::empty(),
            children: peripheral_children(v),
        }
    }

    proof fn lemma_encoded_well_formed(v: PeripheralView) {
        broadcast use
            crate::element::lemma_all_well_formed_concat,
            crate::element::lemma_all_well_formed_single,
            crate::element::lemma_leaf_well_formed,
            crate::encode::lemma_optional_leaf_well_formed,
        ;

        crate::element::lemma_well_formed(Self::encoded(v));

        RegisterProperties::lemma_encoded_well_formed(v.default_register_properties);
        match v.clusters {
            Some(cs) => crate::encode::lemma_each_well_formed::<Cluster>(cs),
            None => {},
        }
    }

    fn encode(&self) -> (r: Result<Element, SVDError>) {
        let mut children: Vec<Element> = Vec::new();
        assert(elements_view(children@) =~= Seq::empty());
        push_element(&mut children, text_element("name", &self.name));
        push_optional_text(&mut children, "description", &self.description);
        push_element(&mut children, number_element("baseAddress", self.base_address));
        let ghost before = elements_view(children@);
        let mut properties = self.default_register_properties.encode()?;
        let ghost written = elements_view(properties@);
        children.append(&mut properties);
        assert(elements_view(children@) =~= before + written);
        match &self.clusters {
            None => {
                assert(elements_view(children@) + Seq::<ElementView>::empty() =~= elements_view(
                    children@,
                ));
            },
            Some(cs) => {
                let registers = Element {
                    name: String::from_str("registers"),
                    text: None,
                    attributes: Vec::new(),
                    children: encode_each(cs),
                };
                proof {
                    lemma_children_view(registers);
                    assert(registers@.attributes =~= Seq::empty());
                }
                push_element(&mut children, registers);
            },
        }
        let e = Element {
            name: String::from_str("peripheral"),
            text: None,
            attributes: Vec::new(),
            children,
        };
        proof {
            lemma_children_view(e);
            assert(e@.attributes =~= Seq::empty());
            assert(e@.children =~= peripheral_children(self@));
        }
        Ok(e)
    }
}

/// The clusters that were written are read back as they were.
pub proof fn lemma_clusters_round_trip(tree: ElementView, before: Seq<ElementView>, v: PeripheralView)
    requires
        tree.children == before + registers_element(v.clusters),
        first_named(before, "registers"@) is None,
        v.well_formed(),
        v.readable(),
    ensures
        decoded_clusters(tree) == Ok::<Option<Seq<ClusterView>>, SVDErrorView>(v.clusters),
{
    broadcast use lemma_first_named_concat, lemma_first_named_single, lemma_first_named_empty;

    match v.clusters {
        None => {},
        Some(cs) => {
            let written = cs.map_values(encoder::<Cluster>());
            assert forall|i: int| 0 <= i < written.len() implies has_name("cluster"@)(
                #[trigger] written[i],
            ) by {
                assert(written[i] == Cluster::encoded(cs[i]));
            }
            lemma_filter_all(written, has_name("cluster"@));
            assert forall|i: int| 0 <= i < cs.len() implies decoder::<Cluster>()(
                encoder::<Cluster>()(#[trigger] cs[i]),
            ) == Ok::<ClusterView, SVDErrorView>(cs[i]) by {
                lemma_cluster_round_trip(cs[i]);
            }
            lemma_each_round_trip(cs, encoder::<Cluster>(), decoder::<Cluster>());
        },
    }
}

/// A peripheral whose clusters are well formed and can be read back is read
/// back as it was written.
pub proof fn lemma_peripheral_round_trip(v: PeripheralView)
    requires
        v.well_formed(),
        v.readable(),
    ensures
        Peripheral::decoded(Peripheral::encoded(v)) == Ok::<PeripheralView, SVDErrorView>(v),
{
    broadcast use
        lemma_first_named_concat,
        lemma_first_named_single,
        lemma_first_named_empty,
        lemma_first_named_optional_leaf,
        lemma_first_named_optional_number,
        lemma_number_leaf_decodes,
    ;

    lemma_tag_shapes();
    let tree = Peripheral::encoded(v);
    let head = seq![text_leaf("name"@, v.name)] + optional_leaf("description"@, v.description)
        + seq![number_leaf("baseAddress"@, v.base_address)];
    let properties = RegisterProperties::encoded_children(v.default_register_properties);
    assert(first_named(registers_element(v.clusters), "size"@) is None);
    assert(first_named(registers_element(v.clusters), "resetValue"@) is None);
    assert(first_named(registers_element(v.clusters), "resetMask"@) is None);
    lemma_register_properties_round_trip(
        tree,
        head,
        registers_element(v.clusters),
        v.default_register_properties,
    );
    crate::svd::registerproperties::lemma_register_properties_tags(
        v.default_register_properties,
        "registers"@,
    );
    lemma_clusters_round_trip(tree, head + properties, v);
}

/// Every peripheral that is decoded holds well formed clusters that can be
/// written and read back.
pub proof fn lemma_peripheral_decoded_readable(tree: ElementView)
    ensures
        Peripheral::decoded(tree) matches Ok(v) ==> v.well_formed() && v.readable(),
{
    if let Ok(v) = Peripheral::decoded(tree) {
        if let Some(registers) = tree.child("registers"@) {
            let items = registers.children.filter(has_name("cluster"@));
            lemma_decoded_clusters_readable(items);
        }
    }
}

/// Every cluster of a list that is decoded is well formed and can be written
/// and read back.
pub proof fn lemma_decoded_clusters_readable(items: Seq<ElementView>)
    ensures
        decoded_each(items, decoder::<Cluster>()) matches Ok(cs) ==> forall|i: int|
            0 <= i < cs.len() ==> (#[trigger] cs[i]).well_formed() && cs[i].readable(),
    decreases items.len(),
{
    if items.len() > 0 {
        lemma_decoded_clusters_readable(items.drop_last());
        crate::svd::cluster::lemma_cluster_decoded_valid(items.last());
    }
}

} // verus!
