//! The device: the root of the description.

use vstd::prelude::*;
use crate::element::{
    attribute_value, elements_view, first_named, lemma_attribute_with, lemma_children_view,
    lemma_first_named_concat, lemma_first_named_empty, lemma_first_named_single, new_element,
    text_view, with_attribute, Element, ElementView,
};
use crate::encode::{
    encode_each, encoder, lemma_each_round_trip, lemma_first_named_optional_leaf,
    lemma_first_named_optional_number, lemma_number_leaf_decodes, optional_leaf, optional_number,
    push_element, push_optional_number, push_optional_text, text_leaf, Encode, EncodeChildren,
};
use crate::error::{nested_child, result_view, SVDError, SVDErrorView};
use crate::parse::{
    decoded_each, decoder, lemma_decoded_each_all, lemma_decoded_each_first_failure, optional,
    optional_child_as, parse_each, u32, Parse,
};
use crate::svd::cpu::{lemma_cpu_round_trip, Cpu, CpuView};
use crate::svd::peripheral::{lemma_peripheral_round_trip, Peripheral, PeripheralView};
use crate::svd::registerproperties::{
    lemma_register_properties_round_trip, lemma_register_properties_tags, RegisterProperties,
};
use crate::tags::{lemma_key_shapes, lemma_tag_shapes};

verus! {

/// Mathematical model of [`Device`].
pub ghost struct DeviceView {
    pub name: Seq<char>,
    pub schema_version: Option<Seq<char>>,
    pub version: Option<Seq<char>>,
    pub description: Option<Seq<char>>,
    pub address_unit_bits: Option<u32>,
    pub width: Option<u32>,
    pub cpu: Option<CpuView>,
    pub peripherals: Seq<PeripheralView>,
    pub default_register_properties: RegisterProperties,
}

/// The device that a document describes.
#[derive(Clone, Debug, PartialEq, Eq)]
pub struct Device {
    pub name: String,
    /// The version of the schema that the document follows.
    pub schema_version: Option<String>,
    pub version: Option<String>,
    pub description: Option<String>,
    /// The number of bits that one address selects.
    pub address_unit_bits: Option<u32>,
    /// The width of the data bus in bits. Decoding never states it.
    pub width: Option<u32>,
    pub cpu: Option<Cpu>,
    /// The peripherals, in document order. A device without any peripheral is
    /// decoded like any other.
    pub peripherals: Vec<Peripheral>,
    /// Defaults for every register of the device.
    pub default_register_properties: RegisterProperties,
}

impl View for Device {
    type V = DeviceView;

    open spec fn view(&self) -> DeviceView {
        DeviceView {
            name: self.name@,
            schema_version: text_view(self.schema_version),
            version: text_view(self.version),
            description: text_view(self.description),
            address_unit_bits: self.address_unit_bits,
            width: self.width,
            cpu: self.cpu.deep_view(),
            peripherals: self.peripherals.deep_view(),
            default_register_properties: self.default_register_properties,
        }
    }
}

impl DeepView for Device {
    type V = DeviceView;

    open spec fn deep_view(&self) -> DeviceView {
        self@
    }
}

/// The peripherals that the required child `peripherals` of `tree` holds: one
/// for every child of it, in order. The first peripheral that fails to decode
/// is reported with its position.
pub open spec fn decoded_peripherals(tree: ElementView) -> Result<
    Seq<PeripheralView>,
    SVDErrorView,
> {
    match tree.required_child("peripherals"@) {
        Err(e) => Err(e),
        Ok(list) => match decoded_each(list.children, decoder::<Peripheral>()) {
            Ok(peripherals) => Ok(peripherals),
            Err((i, e)) => Err(nested_child(list.name, i, e)),
        },
    }
}

/// The name of the schema file for the schema version `version`.
pub open spec fn schema_location(version: Seq<char>) -> Seq<char> {
    "CMSIS-SVD_Schema_"@ + version + ".xsd"@
}

/// The attributes that the element of a device carries.
pub open spec fn device_attributes(schema_version: Option<Seq<char>>) -> Seq<
    (Seq<char>, Seq<char>),
> {
    let base = with_attribute(
        Seq::empty(),
        "xmlns:xs"@,
        "http://www.w3.org/2001/XMLSchema-instance"@,
    );
    match schema_version {
        None => base,
        Some(version) => with_attribute(
            with_attribute(base, "schemaVersion"@, version),
            "xs:noNamespaceSchemaLocation"@,
            schema_location(version),
        ),
    }
}

/// The element `cpu`, where the device states its processor.
pub open spec fn cpu_element(cpu: Option<CpuView>) -> Seq<ElementView> {
    match cpu {
        Some(c) => seq![Cpu::encoded(c)],
        None => Seq::empty(),
    }
}

/// The element `peripherals` that holds `peripherals`.
pub open spec fn peripherals_element(peripherals: Seq<PeripheralView>) -> ElementView {
    ElementView {
        name: "peripherals"@,
        text: None,
        attributes: Seq::empty(),
        children: peripherals.map_values(encoder::<Peripheral>()),
    }
}

/// The children of the element of a device.
pub open spec fn device_children(v: DeviceView) -> Seq<ElementView> {
    seq![text_leaf("name"@, v.name)] + optional_leaf("version"@, v.version) + optional_leaf(
        "description"@,
        v.description,
    ) + optional_number("addressUnitBits"@, v.address_unit_bits) + optional_number(
        "width"@,
        v.width,
    ) + RegisterProperties::encoded_children(v.default_register_properties) + cpu_element(v.cpu)
        + seq![peripherals_element(v.peripherals)]
}

impl DeviceView {
    /// Every peripheral of the device holds well formed clusters.
    pub open spec fn well_formed(self) -> bool {
        forall|i: int|
            0 <= i < self.peripherals.len() ==> (#[trigger] self.peripherals[i]).well_formed()
    }

    /// The device can be written and read back: it states no bus width, and
    /// every peripheral can be written and read back.
    pub open spec fn readable(self) -> bool {
        &&& self.width is None
        &&& forall|i: int|
            0 <= i < self.peripherals.len() ==> (#[trigger] self.peripherals[i]).readable()
    }
}

impl Parse for Device {
    type Object = Device;

    open spec fn accepts(tree: ElementView) -> bool {
        true
    }

    /// The name is a required child and the schema version an optional
    /// attribute. Processor, version, description and address unit are
    /// optional children; a failure in one of them is wrapped with the tag of
    /// `tree`. The peripherals are the children of the required child
    /// `peripherals`, and the register properties are read from `tree` itself.
    /// The bus width is never stated. The first failure in this order is the
    /// result.
    open spec fn decoded(tree: ElementView) -> Result<DeviceView, SVDErrorView> {
        match tree.child_text("name"@) {
            Err(e) => Err(e),
            Ok(name) => match optional_child_as::<Cpu>(tree, "cpu"@) {
                Err(e) => Err(e),
                Ok(cpu) => match tree.child_text_opt("version"@) {
                    Err(e) => Err(e),
                    Ok(version) => match tree.child_text_opt("description"@) {
                        Err(e) => Err(e),
                        Ok(description) => match optional_child_as::<u32>(
                            tree,
                            "addressUnitBits"@,
                        ) {
                            Err(e) => Err(e),
                            Ok(address_unit_bits) => match decoded_peripherals(tree) {
                                Err(e) => Err(e),
                                Ok(peripherals) => match RegisterProperties::decoded(tree) {
                                    Err(e) => Err(e),
                                    Ok(default_register_properties) => Ok(
                                        DeviceView {
                                            name,
                                            schema_version: tree.attribute("schemaVersion"@),
                                            version,
                                            description,
                                            address_unit_bits,
                                            width: None,
                                            cpu,
                                            peripherals,
                                            default_register_properties,
                                        },
                                    ),
                                },
                            },
                        },
                    },
                },
            },
        }
    }

    fn parse(tree: &Element) -> (r: Result<Device, SVDError>) {
        let name = tree.get_child_text("name")?;
        let schema_version = match tree.attribute("schemaVersion") {
            Some(s) => Some(s.clone()),
            None => None,
        };
        let cpu = match optional("cpu", tree, Cpu::parse) {
            Ok(cpu) => cpu,
            Err(cause) => {
                return Err(SVDError::nest(&tree.name, cause));
            },
        };
        assert(result_view(Ok::<Option<Cpu>, SVDError>(cpu)) == optional_child_as::<Cpu>(
            tree@,
            "cpu"@,
        ));
        let version = tree.get_child_text_opt("version")?;
        let description = tree.get_child_text_opt("description")?;
        let address_unit_bits = match optional("addressUnitBits", tree, u32) {
            Ok(bits) => bits,
            Err(cause) => {
                return Err(SVDError::nest(&tree.name, cause));
            },
        };
        assert(result_view(Ok::<Option<u32>, SVDError>(address_unit_bits)) == optional_child_as::<
            u32,
        >(tree@, "addressUnitBits"@));
        let list = tree.get_child_elem("peripherals")?;
        proof {
            lemma_children_view(*list);
        }
        let peripherals = match parse_each::<Peripheral>(&list.children) {
            Ok(ps) => ps,
            Err((i, cause)) => {
                return Err(SVDError::nest_child(&list.name, i, cause));
            },
        };
        let default_register_properties = RegisterProperties::parse(tree)?;
        let device = Device {
            name,
            schema_version,
            version,
            description,
            address_unit_bits,
            width: None,
            cpu,
            peripherals,
            default_register_properties,
        };
        proof {
            assert(tree@.child_text("name"@) == Ok::<Seq<char>, SVDErrorView>(device.name@));
            assert(tree@.child_text_opt("version"@) == Ok::<Option<Seq<char>>, SVDErrorView>(
                device@.version,
            ));
            assert(tree@.child_text_opt("description"@) == Ok::<Option<Seq<char>>, SVDErrorView>(
                device@.description,
            ));
            assert(decoded_peripherals(tree@) == Ok::<Seq<PeripheralView>, SVDErrorView>(
                device@.peripherals,
            ));
            assert(RegisterProperties::decoded(tree@) == Ok::<RegisterProperties, SVDErrorView>(
                device.default_register_properties,
            ));
            assert(device@.schema_version == tree@.attribute("schemaVersion"@));
            assert(Self::decoded(tree@) == Ok::<DeviceView, SVDErrorView>(device@));
            assert(device.deep_view() == device@);
        }
        Ok(device)
    }
}

impl Encode for Device {
    /// An element `device` that carries the schema attributes and one child for
    /// each field that is stated, the peripherals last.
    open spec fn encoded(v: DeviceView) -> ElementView {
        ElementView {
            name: "device"@,
            text: None,
            attributes: device_attributes(v.schema_version),
            children: device_children(v),
        }
    }

    proof fn lemma_encoded_well_formed(v: DeviceView) {
        broadcast use
            crate::element::lemma_all_well_formed_concat,
            crate::element::lemma_all_well_formed_single,
            crate::element::lemma_leaf_well_formed,
            crate::encode::lemma_optional_leaf_well_formed,
            crate::encode::lemma_optional_number_well_formed,
        ;

        crate::element::lemma_well_formed(Self::encoded(v));

        RegisterProperties::lemma_encoded_well_formed(v.default_register_properties);
        crate::encode::lemma_each_well_formed::<Peripheral>(v.peripherals);
        match v.cpu {
            Some(c) => Cpu::lemma_encoded_well_formed(c),
            None => {},
        }
        let base = with_attribute(
            Seq::empty(),
            "xmlns:xs"@,
            "http://www.w3.org/2001/XMLSchema-instance"@,
        );
        crate::element::lemma_with_attribute_unique(
            Seq::empty(),
            "xmlns:xs"@,
            "http://www.w3.org/2001/XMLSchema-instance"@,
        );
        match v.schema_version {
            Some(version) => {
                crate::element::lemma_with_attribute_unique(base, "schemaVersion"@, version);
                crate::element::lemma_with_attribute_unique(
                    with_attribute(base, "schemaVersion"@, version),
                    "xs:noNamespaceSchemaLocation"@,
                    schema_location(version),
                );
            },
            None => {},
        }
    }

    fn encode(&self) -> (r: Result<Element, SVDError>) {
        let mut elem = new_element("device", None);
        elem.set_attribute(
            String::from_str("xmlns:xs"),
            String::from_str("http://www.w3.org/2001/XMLSchema-instance"),
        );
        match &self.schema_version {
            Some(schema_version) => {
                elem.set_attribute(String::from_str("schemaVersion"), schema_version.clone());
                let mut location = String::from_str("CMSIS-SVD_Schema_");
                location.append(schema_version.as_str());
                location.append(".xsd");
                elem.set_attribute(String::from_str("xs:noNamespaceSchemaLocation"), location);
            },
            None => {},
        }
        assert(elem@.attributes == device_attributes(self@.schema_version));

        let mut children: Vec<Element> = Vec::new();
        assert(elements_view(children@) =~= Seq::empty());
        push_element(&mut children, new_element("name", Some(self.name.clone())));
        push_optional_text(&mut children, "version", &self.version);
        push_optional_text(&mut children, "description", &self.description);
        push_optional_number(&mut children, "addressUnitBits", self.address_unit_bits);
        push_optional_number(&mut children, "width", self.width);

        let ghost head = elements_view(children@);
        let mut properties = self.default_register_properties.encode()?;
        let ghost written = elements_view(properties@);
        children.append(&mut properties);
        assert(elements_view(children@) =~= head + written);

        match &self.cpu {
            Some(v) => {
                push_element(&mut children, v.encode()?);
            },
            None => {
                assert(elements_view(children@) + Seq::<ElementView>::empty() =~= elements_view(
                    children@,
                ));
            },
        }

        let list = Element {
            name: String::from_str("peripherals"),
            text: None,
            attributes: Vec::new(),
            children: encode_each(&self.peripherals),
        };
        proof {
            lemma_children_view(list);
            assert(list@.attributes =~= Seq::empty());
            assert(list@ == peripherals_element(self@.peripherals));
        }
        push_element(&mut children, list);

        let e = Element {
            name: elem.name,
            text: elem.text,
            attributes: elem.attributes,
            children,
        };
        proof {
            lemma_children_view(e);
            assert(e@.children =~= device_children(self@));
        }
        Ok(e)
    }
}

/// What comes before the peripherals in a device decodes.
pub open spec fn device_head_decodes(tree: ElementView) -> bool {
    &&& tree.child_text("name"@) is Ok
    &&& optional_child_as::<Cpu>(tree, "cpu"@) is Ok
    &&& tree.child_text_opt("version"@) is Ok
    &&& tree.child_text_opt("description"@) is Ok
    &&& optional_child_as::<u32>(tree, "addressUnitBits"@) is Ok
}

/// Where the peripheral at position `i` is the first that fails to decode, the
/// device fails to decode. The failure names the list and the position `i` and
/// wraps the failure of that peripheral, where what comes before the
/// peripherals decodes.
pub proof fn lemma_first_malformed_peripheral(tree: ElementView, i: int)
    requires
        tree.child("peripherals"@) is Some,
        0 <= i < tree.child("peripherals"@)->0.children.len(),
        forall|j: int|
            0 <= j < i ==> Peripheral::decoded(
                #[trigger] tree.child("peripherals"@)->0.children[j],
            ) is Ok,
        Peripheral::decoded(tree.child("peripherals"@)->0.children[i]) is Err,
    ensures
        Device::decoded(tree) is Err,
        device_head_decodes(tree) ==> Device::decoded(tree) == Err::<DeviceView, SVDErrorView>(
            nested_child(
                "peripherals"@,
                i as nat,
                Peripheral::decoded(tree.child("peripherals"@)->0.children[i])->Err_0,
            ),
        ),
{
    let list = tree.child("peripherals"@)->0;
    crate::search::lemma_first_position(tree.children, crate::element::has_name("peripherals"@));
    assert(list.name == "peripherals"@);
    lemma_decoded_each_first_failure(list.children, decoder::<Peripheral>(), i);
}

/// A device is decoded with one peripheral for each child of the list, in
/// order; with none where the list is empty.
pub proof fn lemma_device_peripherals(tree: ElementView)
    ensures
        Device::decoded(tree) matches Ok(v) ==> {
            let list = tree.child("peripherals"@)->0;
            &&& tree.child("peripherals"@) is Some
            &&& v.peripherals.len() == list.children.len()
            &&& forall|j: int|
                0 <= j < list.children.len() ==> Peripheral::decoded(list.children[j]) == Ok::<
                    PeripheralView,
                    SVDErrorView,
                >(#[trigger] v.peripherals[j])
        },
{
    if let Ok(v) = Device::decoded(tree) {
        let list = tree.child("peripherals"@)->0;
        let f = decoder::<Peripheral>();
        if exists|j: int| 0 <= j < list.children.len() && f(list.children[j]) is Err {
            let k = choose|j: int| 0 <= j < list.children.len() && f(list.children[j]) is Err;
            lemma_some_failure(list.children, f, k);
        }
        lemma_decoded_each_all(list.children, f);
    }
}

/// Where some element fails to decode, decoding the list fails.
pub proof fn lemma_some_failure<V>(
    items: Seq<ElementView>,
    f: spec_fn(ElementView) -> Result<V, SVDErrorView>,
    k: int,
)
    requires
        0 <= k < items.len(),
        f(items[k]) is Err,
    ensures
        decoded_each(items, f) is Err,
    decreases items.len(),
{
    if k < items.len() - 1 {
        let init = items.drop_last();
        assert(init[k] == items[k]);
        lemma_some_failure(init, f, k);
    }
}

/// The peripherals that were written are read back as they were.
pub proof fn lemma_peripherals_round_trip(
    tree: ElementView,
    before: Seq<ElementView>,
    peripherals: Seq<PeripheralView>,
)
    requires
        tree.children == before + seq![peripherals_element(peripherals)],
        first_named(before, "peripherals"@) is None,
        forall|i: int|
            0 <= i < peripherals.len() ==> (#[trigger] peripherals[i]).well_formed()
                && peripherals[i].readable(),
    ensures
        decoded_peripherals(tree) == Ok::<Seq<PeripheralView>, SVDErrorView>(peripherals),
{
    broadcast use lemma_first_named_concat, lemma_first_named_single;

    assert forall|i: int| 0 <= i < peripherals.len() implies decoder::<Peripheral>()(
        encoder::<Peripheral>()(#[trigger] peripherals[i]),
    ) == Ok::<PeripheralView, SVDErrorView>(peripherals[i]) by {
        lemma_peripheral_round_trip(peripherals[i]);
    }
    lemma_each_round_trip(peripherals, encoder::<Peripheral>(), decoder::<Peripheral>());
}

/// A device that is well formed and can be read back is read back as it was
/// written.
pub proof fn lemma_device_round_trip(v: DeviceView)
    requires
        v.well_formed(),
        v.readable(),
    ensures
        Device::decoded(Device::encoded(v)) == Ok::<DeviceView, SVDErrorView>(v),
{
    broadcast use
        lemma_first_named_concat,
        lemma_first_named_single,
        lemma_first_named_empty,
        lemma_first_named_optional_leaf,
        lemma_first_named_optional_number,
        lemma_number_leaf_decodes,
    ;

    lemma_tag_shapes();
    lemma_key_shapes();
    let tree = Device::encoded(v);
    let head = seq![text_leaf("name"@, v.name)] + optional_leaf("version"@, v.version)
        + optional_leaf("description"@, v.description) + optional_number(
        "addressUnitBits"@,
        v.address_unit_bits,
    ) + optional_number("width"@, v.width);
    let properties = RegisterProperties::encoded_children(v.default_register_properties);
    let tail = cpu_element(v.cpu) + seq![peripherals_element(v.peripherals)];
    assert(tree.children =~= head + properties + tail);
    lemma_register_properties_round_trip(tree, head, tail, v.default_register_properties);
    lemma_register_properties_tags(v.default_register_properties, "cpu"@);
    lemma_register_properties_tags(v.default_register_properties, "peripherals"@);
    lemma_peripherals_round_trip(tree, head + properties + cpu_element(v.cpu), v.peripherals);
    match v.cpu {
        Some(c) => lemma_cpu_round_trip(c),
        None => {},
    }
    // The schema version is the only attribute that decoding reads.
    let base = with_attribute(
        Seq::empty(),
        "xmlns:xs"@,
        "http://www.w3.org/2001/XMLSchema-instance"@,
    );
    lemma_attribute_with(
        Seq::empty(),
        "xmlns:xs"@,
        "http://www.w3.org/2001/XMLSchema-instance"@,
        "schemaVersion"@,
    );
    match v.schema_version {
        Some(version) => {
            lemma_attribute_with(base, "schemaVersion"@, version, "schemaVersion"@);
            lemma_attribute_with(
                with_attribute(base, "schemaVersion"@, version),
                "xs:noNamespaceSchemaLocation"@,
                schema_location(version),
                "schemaVersion"@,
            );
        },
        None => {},
    }
    assert(attribute_value(Seq::empty(), "schemaVersion"@) is None) by {
        crate::search::lemma_first_position_is(
            Seq::<(Seq<char>, Seq<char>)>::empty(),
            crate::element::has_key("schemaVersion"@),
            0,
        );
    }
}

/// Every device that is decoded is well formed and can be written and read back.
pub proof fn lemma_device_decoded_readable(tree: ElementView)
    ensures
        Device::decoded(tree) matches Ok(v) ==> v.well_formed() && v.readable(),
{
    if let Ok(v) = Device::decoded(tree) {
        let list = tree.required_child("peripherals"@)->Ok_0;
        lemma_decoded_peripherals_readable(list.children);
    }
}

/// Every peripheral of a list that is decoded is well formed and can be
/// written and read back.
pub proof fn lemma_decoded_peripherals_readable(items: Seq<ElementView>)
    ensures
        decoded_each(items, decoder::<Peripheral>()) matches Ok(ps) ==> forall|i: int|
            0 <= i < ps.len() ==> (#[trigger] ps[i]).well_formed() && ps[i].readable(),
    decreases items.len(),
{
    if items.len() > 0 {
        lemma_decoded_peripherals_readable(items.drop_last());
        crate::svd::peripheral::lemma_peripheral_decoded_readable(items.last());
    }
}

/// Decoding what was written from a decoded device gives the device back.
pub proof fn lemma_device_decode_encode_decode(tree: ElementView)
    ensures
        Device::decoded(tree) matches Ok(v) ==> Device::decoded(Device::encoded(v)) == Ok::<
            DeviceView,
            SVDErrorView,
        >(v),
{
    if let Ok(v) = Device::decoded(tree) {
        lemma_device_decoded_readable(tree);
        lemma_device_round_trip(v);
    }
}

} // verus!
