use std::ops::Deref;

use svd_parser::element::{new_element, Element};
use svd_parser::encode::{Encode, EncodeChildren};
use svd_parser::error::{LiteralFault, SVDError, Violation};
use svd_parser::parse::{parse_each, parse_tagged, Parse};
use svd_parser::svd::cluster::Cluster;
use svd_parser::svd::clusterinfo::ClusterInfo;
use svd_parser::svd::cpu::Cpu;
use svd_parser::svd::device::Device;
use svd_parser::svd::peripheral::Peripheral;
use svd_parser::svd::registerclusterarrayinfo::RegisterClusterArrayInfo;
use svd_parser::svd::registerproperties::RegisterProperties;

fn leaf(tag: &str, text: &str) -> Element {
    new_element(tag, Some(text.to_string()))
}

fn node(tag: &str, children: Vec<Element>) -> Element {
    let mut e = Element::new(tag);
    for c in children {
        e.push_child(c);
    }
    e
}

fn strings(items: &[&str]) -> Vec<String> {
    items.iter().map(|s| s.to_string()).collect()
}

fn no_properties() -> RegisterProperties {
    RegisterProperties { size: None, reset_value: None, reset_mask: None }
}

fn cluster_fields(name: &str) -> Vec<Element> {
    vec![leaf("name", name), leaf("description", "ports"), leaf("addressOffset", "0x100")]
}

fn info(name: &str) -> ClusterInfo {
    ClusterInfo {
        name: name.to_string(),
        description: "ports".to_string(),
        header_struct_name: None,
        address_offset: 0x100,
        default_register_properties: no_properties(),
        children: vec![],
    }
}

fn array_cluster(name: &str, dim: &str, index: Option<&str>) -> Element {
    let mut fields = cluster_fields(name);
    fields.push(leaf("dim", dim));
    fields.push(leaf("dimIncrement", "4"));
    if let Some(i) = index {
        fields.push(leaf("dimIndex", i));
    }
    node("cluster", fields)
}

fn violated(violation: Violation) -> SVDError {
    SVDError::Violated { element: "cluster".to_string(), violation }
}

fn nested(element: &str, cause: SVDError) -> SVDError {
    SVDError::Nested { element: element.to_string(), cause: Box::new(cause) }
}

fn peripheral_element(name: &str, base: &str) -> Element {
    node("peripheral", vec![leaf("name", name), leaf("baseAddress", base)])
}

fn peripheral(name: &str, base: u32) -> Peripheral {
    Peripheral {
        name: name.to_string(),
        description: None,
        base_address: base,
        default_register_properties: no_properties(),
        clusters: None,
    }
}

fn cpu() -> Cpu {
    Cpu {
        name: "CM4".to_string(),
        revision: "r0p1".to_string(),
        mpu_present: true,
        fpu_present: false,
        nvic_priority_bits: 4,
        has_vendor_systick: false,
    }
}

fn cpu_element() -> Element {
    node(
        "cpu",
        vec![
            leaf("name", "CM4"),
            leaf("revision", "r0p1"),
            leaf("mpuPresent", "true"),
            leaf("fpuPresent", "0"),
            leaf("nvicPrioBits", "4"),
            leaf("vendorSystickConfig", "false"),
        ],
    )
}

#[test]
fn cluster_without_stride_is_single() {
    let tree = node("cluster", cluster_fields("GPIO"));
    assert_eq!(Cluster::parse(&tree), Ok(Cluster::Single(info("GPIO"))));
    // The placeholder is looked for in arrays only.
    let tree = node("cluster", cluster_fields("GPIO%s"));
    assert_eq!(Cluster::parse(&tree), Ok(Cluster::Single(info("GPIO%s"))));
    // Without a stride the other array fields are not read.
    let mut fields = cluster_fields("GPIO");
    fields.push(leaf("dim", "zz"));
    fields.push(leaf("dimIndex", "zz"));
    assert_eq!(Cluster::parse(&node("cluster", fields)), Ok(Cluster::Single(info("GPIO"))));
}

#[test]
fn cluster_with_stride_is_array() {
    let expected = Cluster::Array(
        info("GPIO%s"),
        RegisterClusterArrayInfo {
            dim: 3,
            dim_increment: 4,
            dim_index: Some(strings(&["0", "1", "2"])),
        },
    );
    assert_eq!(Cluster::parse(&array_cluster("GPIO%s", "3", Some("0-2"))), Ok(expected));
}

#[test]
fn cluster_array_end_to_end() {
    match Cluster::parse(&array_cluster("GPIO%s", "3", Some("0-2"))) {
        Ok(Cluster::Array(i, a)) => {
            assert_eq!(i.name, "GPIO%s");
            assert_eq!(a.dim, 3);
            assert_eq!(a.dim_increment, 4);
            assert_eq!(a.dim_index, Some(strings(&["0", "1", "2"])));
        }
        other => panic!("{:?}", other),
    }
}

#[test]
fn cluster_array_without_suffixes() {
    let expected = Cluster::Array(
        info("P%s"),
        RegisterClusterArrayInfo { dim: 8, dim_increment: 4, dim_index: None },
    );
    assert_eq!(Cluster::parse(&array_cluster("P%s", "8", None)), Ok(expected));
}

#[test]
fn cluster_array_name_needs_placeholder() {
    assert_eq!(
        Cluster::parse(&array_cluster("GPIO", "3", Some("0-2"))),
        Err(violated(Violation::MissingPlaceholder))
    );
    // The name is held against the rule before the suffixes are counted.
    assert_eq!(
        Cluster::parse(&array_cluster("GPIO", "3", Some("0-1"))),
        Err(violated(Violation::MissingPlaceholder))
    );
}

#[test]
fn cluster_array_counts_suffixes() {
    assert_eq!(
        Cluster::parse(&array_cluster("GPIO%s", "3", Some("0-1"))),
        Err(violated(Violation::IndexCountMismatch))
    );
    assert_eq!(
        Cluster::parse(&array_cluster("GPIO%s", "2", Some("A,B,C"))),
        Err(violated(Violation::IndexCountMismatch))
    );
    assert_eq!(
        Cluster::parse(&array_cluster("GPIO%s", "1", Some("3-1"))),
        Err(violated(Violation::IndexCountMismatch))
    );
}

#[test]
fn cluster_failures_name_their_element() {
    let tree = node("cluster", vec![leaf("name", "A")]);
    assert_eq!(
        Cluster::parse(&tree),
        Err(SVDError::MissingTag { element: "cluster".to_string(), tag: "description".to_string() })
    );
    let mut fields = cluster_fields("A%s");
    fields.push(leaf("dimIncrement", "4"));
    assert_eq!(
        Cluster::parse(&node("cluster", fields)),
        Err(SVDError::MissingTag { element: "cluster".to_string(), tag: "dim".to_string() })
    );
    assert_eq!(
        Cluster::parse(&array_cluster("A%s", "x", None)),
        Err(nested(
            "cluster",
            SVDError::InvalidLiteral { text: "x".to_string(), fault: LiteralFault::InvalidDigit }
        ))
    );
    assert_eq!(
        Cluster::parse(&array_cluster("A%s", "1", Some("A"))),
        Err(nested(
            "cluster",
            SVDError::InvalidLiteral { text: "A".to_string(), fault: LiteralFault::NotIndexList }
        ))
    );
    assert_eq!(
        Cluster::parse(&array_cluster("A%s", "1", Some("a-b"))),
        Err(nested(
            "cluster",
            SVDError::InvalidLiteral { text: "a-b".to_string(), fault: LiteralFault::InvalidDigit }
        ))
    );
}

#[test]
fn cluster_gives_its_description() {
    let single = Cluster::Single(info("A"));
    assert_eq!(single.deref(), &info("A"));
    let array = Cluster::Array(
        info("B%s"),
        RegisterClusterArrayInfo { dim: 2, dim_increment: 4, dim_index: None },
    );
    assert_eq!(array.deref().name, "B%s");
    assert_eq!(array.name, "B%s");
    assert_eq!(array.address_offset, 0x100);
    assert_eq!(&*single, &info("A"));
}

#[test]
fn new_array_holds_the_rules() {
    let element = "cluster".to_string();
    let array = RegisterClusterArrayInfo { dim: 2, dim_increment: 4, dim_index: None };
    assert_eq!(
        Cluster::new_array(&element, info("A%s"), array.clone()),
        Ok(Cluster::Array(info("A%s"), array.clone()))
    );
    assert_eq!(
        Cluster::new_array(&element, info("A"), array),
        Err(violated(Violation::MissingPlaceholder))
    );
    let array =
        RegisterClusterArrayInfo { dim: 2, dim_increment: 4, dim_index: Some(strings(&["x"])) };
    assert_eq!(
        Cluster::new_array(&element, info("A%s"), array),
        Err(violated(Violation::IndexCountMismatch))
    );
}

#[test]
fn cluster_encodes_base_then_array_fields() {
    let array = Cluster::Array(
        info("GPIO%s"),
        RegisterClusterArrayInfo { dim: 2, dim_increment: 4, dim_index: Some(strings(&["A", "B"])) },
    );
    let expected = node(
        "cluster",
        vec![
            leaf("name", "GPIO%s"),
            leaf("description", "ports"),
            leaf("addressOffset", "256"),
            leaf("dim", "2"),
            leaf("dimIncrement", "4"),
            leaf("dimIndex", "A,B"),
        ],
    );
    assert_eq!(array.encode(), Ok(expected));
    let single = Cluster::Single(info("GPIO"));
    assert_eq!(
        single.encode(),
        Ok(node(
            "cluster",
            vec![leaf("name", "GPIO"), leaf("description", "ports"), leaf("addressOffset", "256")]
        ))
    );
}

#[test]
fn clusters_read_back() {
    let full = ClusterInfo {
        name: "C%s".to_string(),
        description: "".to_string(),
        header_struct_name: Some("c_t".to_string()),
        address_offset: u32::MAX,
        default_register_properties: RegisterProperties {
            size: Some(32),
            reset_value: Some(0),
            reset_mask: Some(u32::MAX),
        },
        children: vec![
            Cluster::Single(info("inner")),
            Cluster::Array(
                info("deep%s"),
                RegisterClusterArrayInfo { dim: 2, dim_increment: 8, dim_index: None },
            ),
        ],
    };
    let clusters = vec![
        Cluster::Single(info("A")),
        Cluster::Single(full.clone()),
        Cluster::Array(
            full.clone(),
            RegisterClusterArrayInfo { dim: 0, dim_increment: 4, dim_index: Some(strings(&[])) },
        ),
        Cluster::Array(
            full.clone(),
            RegisterClusterArrayInfo { dim: 1, dim_increment: 4, dim_index: Some(strings(&["7"])) },
        ),
        Cluster::Array(
            full.clone(),
            RegisterClusterArrayInfo {
                dim: 3,
                dim_increment: 0,
                dim_index: Some(strings(&["x", "y", "z"])),
            },
        ),
        Cluster::Array(full, RegisterClusterArrayInfo { dim: 9, dim_increment: 1, dim_index: None }),
    ];
    for c in clusters {
        let written = c.encode().unwrap();
        assert_eq!(Cluster::parse(&written), Ok(c));
    }
}

#[test]
fn decoded_clusters_read_back() {
    for tree in [
        node("cluster", cluster_fields("GPIO")),
        array_cluster("GPIO%s", "3", Some("0-2")),
        array_cluster("GPIO%s", "1", Some("5-5")),
        array_cluster("GPIO%s", "0", Some("5-4")),
        array_cluster("GPIO%s", "2", Some("A,B")),
        array_cluster("GPIO%s", "2", None),
    ] {
        let first = Cluster::parse(&tree).unwrap();
        let second = Cluster::parse(&first.encode().unwrap()).unwrap();
        assert_eq!(first, second);
    }
}

#[test]
fn register_properties() {
    let tree = node("p", vec![leaf("size", "32"), leaf("resetMask", "0xFFFFFFFF")]);
    let expected = RegisterProperties { size: Some(32), reset_value: None, reset_mask: Some(u32::MAX) };
    assert_eq!(RegisterProperties::parse(&tree), Ok(expected));
    assert_eq!(
        expected.encode(),
        Ok(vec![leaf("size", "32"), leaf("resetMask", "4294967295")])
    );
    assert_eq!(RegisterProperties::parse(&Element::new("p")), Ok(no_properties()));
    assert_eq!(no_properties().encode(), Ok(vec![]));
    assert_eq!(
        RegisterProperties::parse(&node("p", vec![leaf("resetValue", "x")])),
        Err(nested(
            "p",
            SVDError::InvalidLiteral { text: "x".to_string(), fault: LiteralFault::InvalidDigit }
        ))
    );
}

#[test]
fn cpu_reads_back() {
    assert_eq!(Cpu::parse(&cpu_element()), Ok(cpu()));
    let written = cpu().encode().unwrap();
    assert_eq!(written.name, "cpu");
    assert_eq!(Cpu::parse(&written), Ok(cpu()));
    let mut broken = cpu_element();
    broken.children[2] = leaf("mpuPresent", "maybe");
    assert_eq!(
        Cpu::parse(&broken),
        Err(nested(
            "cpu",
            SVDError::InvalidLiteral { text: "maybe".to_string(), fault: LiteralFault::NotBoolean }
        ))
    );
}

#[test]
fn peripheral_with_clusters() {
    let tree = node(
        "peripheral",
        vec![
            leaf("name", "GPIOA"),
            leaf("description", "port A"),
            leaf("baseAddress", "0x40000000"),
            leaf("size", "32"),
            node(
                "registers",
                vec![
                    node("cluster", cluster_fields("A")),
                    node("register", vec![leaf("name", "R")]),
                    array_cluster("B%s", "2", Some("0-1")),
                ],
            ),
        ],
    );
    let expected = Peripheral {
        name: "GPIOA".to_string(),
        description: Some("port A".to_string()),
        base_address: 0x4000_0000,
        default_register_properties: RegisterProperties {
            size: Some(32),
            reset_value: None,
            reset_mask: None,
        },
        clusters: Some(vec![
            Cluster::Single(info("A")),
            Cluster::Array(
                info("B%s"),
                RegisterClusterArrayInfo {
                    dim: 2,
                    dim_increment: 4,
                    dim_index: Some(strings(&["0", "1"])),
                },
            ),
        ]),
    };
    assert_eq!(Peripheral::parse(&tree), Ok(expected.clone()));
    let written = expected.encode().unwrap();
    assert_eq!(Peripheral::parse(&written), Ok(expected));
}

#[test]
fn peripheral_reports_the_cluster_that_fails() {
    let tree = node(
        "peripheral",
        vec![
            leaf("name", "GPIOA"),
            leaf("baseAddress", "0"),
            node(
                "registers",
                vec![
                    node("register", vec![]),
                    node("cluster", cluster_fields("A")),
                    array_cluster("B", "2", None),
                    node("cluster", vec![]),
                ],
            ),
        ],
    );
    assert_eq!(
        Peripheral::parse(&tree),
        Err(SVDError::NestedChild {
            element: "registers".to_string(),
            index: 1,
            cause: Box::new(violated(Violation::MissingPlaceholder)),
        })
    );
}

#[test]
fn peripheral_without_registers() {
    assert_eq!(Peripheral::parse(&peripheral_element("T", "16")), Ok(peripheral("T", 16)));
    let mut with_empty = peripheral_element("T", "16");
    with_empty.push_child(Element::new("registers"));
    let mut expected = peripheral("T", 16);
    expected.clusters = Some(vec![]);
    assert_eq!(Peripheral::parse(&with_empty), Ok(expected.clone()));
    assert_eq!(Peripheral::parse(&expected.encode().unwrap()), Ok(expected));
}

#[test]
fn lists_stop_at_the_first_failure() {
    let items = vec![leaf("a", "1"), leaf("b", "x"), leaf("a", "y"), leaf("a", "4")];
    assert_eq!(
        parse_each::<u32>(&items),
        Err((1, SVDError::InvalidLiteral { text: "x".to_string(), fault: LiteralFault::InvalidDigit }))
    );
    assert_eq!(
        parse_tagged::<u32>(&items, "a"),
        Err((1, SVDError::InvalidLiteral { text: "y".to_string(), fault: LiteralFault::InvalidDigit }))
    );
    assert_eq!(parse_tagged::<u32>(&items, "c"), Ok(vec![]));
    let good = vec![leaf("a", "1"), leaf("b", "0x2"), leaf("a", "#11")];
    assert_eq!(parse_each::<u32>(&good), Ok(vec![1, 2, 3]));
    assert_eq!(parse_tagged::<u32>(&good, "a"), Ok(vec![1, 3]));
    assert_eq!(parse_each::<u32>(&vec![]), Ok(vec![]));
}

fn device_element(peripherals: Vec<Element>) -> Element {
    let mut tree = node(
        "device",
        vec![
            leaf("name", "STM32"),
            leaf("version", "1.2"),
            leaf("addressUnitBits", "8"),
            leaf("width", "32"),
            cpu_element(),
            leaf("resetValue", "0"),
            node("peripherals", peripherals),
        ],
    );
    tree.set_attribute("schemaVersion".to_string(), "1.1".to_string());
    tree
}

fn device(peripherals: Vec<Peripheral>) -> Device {
    Device {
        name: "STM32".to_string(),
        schema_version: Some("1.1".to_string()),
        version: Some("1.2".to_string()),
        description: None,
        address_unit_bits: Some(8),
        width: None,
        cpu: Some(cpu()),
        peripherals,
        default_register_properties: RegisterProperties {
            size: None,
            reset_value: Some(0),
            reset_mask: None,
        },
    }
}

#[test]
fn device_decodes() {
    let tree = device_element(vec![peripheral_element("A", "0"), peripheral_element("B", "0x10")]);
    assert_eq!(Device::parse(&tree), Ok(device(vec![peripheral("A", 0), peripheral("B", 16)])));
}

#[test]
fn device_with_no_peripheral() {
    let tree = device_element(vec![]);
    let decoded = Device::parse(&tree).unwrap();
    assert!(decoded.peripherals.is_empty());
    assert_eq!(decoded, device(vec![]));
    let minimal = node("device", vec![leaf("name", "D"), Element::new("peripherals")]);
    let decoded = Device::parse(&minimal).unwrap();
    assert_eq!(decoded.name, "D");
    assert_eq!(decoded.schema_version, None);
    assert_eq!(decoded.cpu, None);
    assert_eq!(decoded.address_unit_bits, None);
    assert!(decoded.peripherals.is_empty());
}

#[test]
fn device_fails_on_one_malformed_peripheral() {
    let tree = device_element(vec![
        peripheral_element("A", "0"),
        peripheral_element("B", "zz"),
        peripheral_element("C", "yy"),
    ]);
    assert_eq!(
        Device::parse(&tree),
        Err(SVDError::NestedChild {
            element: "peripherals".to_string(),
            index: 1,
            cause: Box::new(nested(
                "peripheral",
                SVDError::InvalidLiteral {
                    text: "zz".to_string(),
                    fault: LiteralFault::InvalidDigit
                }
            )),
        })
    );
    let tree = device_element(vec![node("peripheral", vec![leaf("baseAddress", "0")])]);
    assert_eq!(
        Device::parse(&tree),
        Err(SVDError::NestedChild {
            element: "peripherals".to_string(),
            index: 0,
            cause: Box::new(SVDError::MissingTag {
                element: "peripheral".to_string(),
                tag: "name".to_string()
            }),
        })
    );
}

#[test]
fn device_needs_name_and_peripherals() {
    assert_eq!(
        Device::parse(&node("device", vec![Element::new("peripherals")])),
        Err(SVDError::MissingTag { element: "device".to_string(), tag: "name".to_string() })
    );
    assert_eq!(
        Device::parse(&node("device", vec![leaf("name", "D")])),
        Err(SVDError::MissingTag { element: "device".to_string(), tag: "peripherals".to_string() })
    );
    assert_eq!(
        Device::parse(&node("device", vec![Element::new("name"), Element::new("peripherals")])),
        Err(SVDError::EmptyTag { element: "name".to_string() })
    );
}

#[test]
fn device_optional_children_may_be_absent_but_not_malformed() {
    let mut tree = node("device", vec![leaf("name", "D"), Element::new("peripherals")]);
    tree.push_child(leaf("addressUnitBits", "eight"));
    assert_eq!(
        Device::parse(&tree),
        Err(nested(
            "device",
            SVDError::InvalidLiteral { text: "eight".to_string(), fault: LiteralFault::InvalidDigit }
        ))
    );
    let mut tree = node("device", vec![leaf("name", "D"), Element::new("peripherals")]);
    tree.push_child(Element::new("cpu"));
    assert_eq!(
        Device::parse(&tree),
        Err(nested(
            "device",
            SVDError::MissingTag { element: "cpu".to_string(), tag: "name".to_string() }
        ))
    );
    let mut tree = node("device", vec![leaf("name", "D"), Element::new("peripherals")]);
    tree.push_child(Element::new("version"));
    assert_eq!(Device::parse(&tree), Err(SVDError::EmptyTag { element: "version".to_string() }));
}

#[test]
fn device_encodes() {
    let mut d = device(vec![peripheral("A", 0)]);
    d.width = Some(32);
    d.description = Some("chip".to_string());
    let e = d.encode().unwrap();
    assert_eq!(e.name, "device");
    assert_eq!(e.text, None);
    assert_eq!(
        e.attributes,
        vec![
            ("xmlns:xs".to_string(), "http://www.w3.org/2001/XMLSchema-instance".to_string()),
            ("schemaVersion".to_string(), "1.1".to_string()),
            ("xs:noNamespaceSchemaLocation".to_string(), "CMSIS-SVD_Schema_1.1.xsd".to_string()),
        ]
    );
    assert_eq!(
        e.children,
        vec![
            leaf("name", "STM32"),
            leaf("version", "1.2"),
            leaf("description", "chip"),
            leaf("addressUnitBits", "8"),
            leaf("width", "32"),
            leaf("resetValue", "0"),
            cpu().encode().unwrap(),
            node("peripherals", vec![node("peripheral", vec![leaf("name", "A"), leaf("baseAddress", "0")])]),
        ]
    );
    let plain = Device {
        name: "D".to_string(),
        schema_version: None,
        version: None,
        description: None,
        address_unit_bits: None,
        width: None,
        cpu: None,
        peripherals: vec![],
        default_register_properties: no_properties(),
    };
    let e = plain.encode().unwrap();
    assert_eq!(
        e.attributes,
        vec![("xmlns:xs".to_string(), "http://www.w3.org/2001/XMLSchema-instance".to_string())]
    );
    assert_eq!(e.children, vec![leaf("name", "D"), Element::new("peripherals")]);
}

#[test]
fn device_reads_back() {
    let mut with_clusters = peripheral("B", 16);
    with_clusters.clusters = Some(vec![
        Cluster::Single(info("S")),
        Cluster::Array(
            info("A%s"),
            RegisterClusterArrayInfo { dim: 1, dim_increment: 4, dim_index: Some(strings(&["3"])) },
        ),
    ]);
    let d = device(vec![peripheral("A", 0), with_clusters]);
    let written = d.encode().unwrap();
    assert_eq!(Device::parse(&written), Ok(d));

    let tree = device_element(vec![peripheral_element("A", "0")]);
    let first = Device::parse(&tree).unwrap();
    let second = Device::parse(&first.encode().unwrap()).unwrap();
    assert_eq!(first, second);
    // The tree that is written need not be the tree that was read.
    assert!(first.encode().unwrap() != tree);
}

#[test]
fn clusters_inside_clusters() {
    let mut inner_fields = cluster_fields("inner%s");
    inner_fields.push(node("cluster", cluster_fields("innermost")));
    inner_fields.push(leaf("dim", "2"));
    inner_fields.push(leaf("dimIncrement", "0x10"));
    let mut fields = cluster_fields("outer");
    fields.push(node("cluster", cluster_fields("first")));
    fields.push(node("register", vec![leaf("name", "R")]));
    fields.push(node("cluster", inner_fields));
    let tree = node("cluster", fields);

    let mut inner = info("inner%s");
    inner.children = vec![Cluster::Single(info("innermost"))];
    let mut outer = info("outer");
    outer.children = vec![
        Cluster::Single(info("first")),
        Cluster::Array(
            inner,
            RegisterClusterArrayInfo { dim: 2, dim_increment: 16, dim_index: None },
        ),
    ];
    let expected = Cluster::Single(outer);
    assert_eq!(Cluster::parse(&tree), Ok(expected.clone()));
    assert_eq!(Cluster::parse_tree(&tree), Ok(expected.clone()));
    let written = expected.encode().unwrap();
    assert_eq!(Cluster::parse(&written), Ok(expected.clone()));
    assert_eq!(expected.deref().children.len(), 2);
    assert_eq!(expected.duplicate(), expected);
}

#[test]
fn cluster_reports_the_cluster_inside_that_fails() {
    let mut fields = cluster_fields("outer");
    fields.push(node("cluster", cluster_fields("fine")));
    fields.push(array_cluster("broken", "2", None));
    fields.push(node("cluster", vec![]));
    let tree = node("cluster", fields);
    assert_eq!(
        Cluster::parse(&tree),
        Err(SVDError::NestedChild {
            element: "cluster".to_string(),
            index: 1,
            cause: Box::new(violated(Violation::MissingPlaceholder)),
        })
    );
    // The fields of the cluster itself are decoded before the clusters inside.
    let tree = node("cluster", vec![leaf("name", "outer"), node("cluster", vec![])]);
    assert_eq!(
        Cluster::parse(&tree),
        Err(SVDError::MissingTag { element: "cluster".to_string(), tag: "description".to_string() })
    );
}

#[test]
fn description_of_a_cluster() {
    let mut fields = cluster_fields("A");
    fields.push(leaf("headerStructName", "a_t"));
    fields.push(leaf("size", "16"));
    let mut expected = info("A");
    expected.header_struct_name = Some("a_t".to_string());
    expected.default_register_properties.size = Some(16);
    assert_eq!(ClusterInfo::parse(&node("anything", fields)), Ok(expected.clone()));
    let written = expected.encode().unwrap();
    assert_eq!(written.name, "cluster");
    assert_eq!(ClusterInfo::parse(&written), Ok(expected.clone()));
    assert_eq!(expected.duplicate(), expected);
}

#[test]
fn repetition() {
    let tree = node("x", vec![leaf("dim", "4"), leaf("dimIncrement", "0x4"), leaf("dimIndex", "A,B,C,D")]);
    let expected = RegisterClusterArrayInfo {
        dim: 4,
        dim_increment: 4,
        dim_index: Some(strings(&["A", "B", "C", "D"])),
    };
    assert_eq!(RegisterClusterArrayInfo::parse(&tree), Ok(expected.clone()));
    assert_eq!(expected.duplicate(), expected);
    let written = expected.encode().unwrap();
    assert_eq!(
        written.children,
        vec![leaf("dim", "4"), leaf("dimIncrement", "4"), leaf("dimIndex", "A,B,C,D")]
    );
    assert_eq!(RegisterClusterArrayInfo::parse(&written), Ok(expected));
    let tree = node("x", vec![leaf("dim", "4"), leaf("dimIncrement", "4"), Element::new("dimIndex")]);
    assert_eq!(
        RegisterClusterArrayInfo::parse(&tree),
        Err(nested("x", SVDError::EmptyTag { element: "dimIndex".to_string() }))
    );
}
