//! What a cluster is, apart from being repeated or not.

use vstd::prelude::*;
use crate::element::{
    elements_view, first_named, has_name, lemma_children_view, lemma_first_named_concat,
    lemma_first_named_single, text_view, Element, ElementView,
};
use crate::encode::{
    lemma_first_named_optional_leaf, number_element, number_leaf, optional_leaf, push_element,
    push_optional_text, text_element, text_leaf, Encode, EncodeChildren,
};
use crate::error::{nested_child, SVDError, SVDErrorView};
use crate::parse::{child_as, decoded_each, decoder, get_child_as, Parse};
use crate::svd::cluster::{cluster_decoded, cluster_encoded, Cluster, ClusterView};
use crate::svd::registerproperties::{lemma_register_properties_tags, RegisterProperties};

verus! {

/// Mathematical model of [`ClusterInfo`].
pub ghost struct ClusterInfoView {
    pub name: Seq<char>,
    pub description: Seq<char>,
    pub header_struct_name: Option<Seq<char>>,
    pub address_offset: u32,
    pub default_register_properties: RegisterProperties,
    pub children: Seq<ClusterView>,
}

/// The description of one cluster of registers.
#[derive(Debug, PartialEq, Eq)]
pub struct ClusterInfo {
    /// The name; that of a repeated cluster holds the placeholder `%s`.
    pub name: String,
    pub description: String,
    pub header_struct_name: Option<String>,
    /// The address of the cluster, relative to what holds it.
    pub address_offset: u32,
    /// Defaults for the registers of the cluster.
    pub default_register_properties: RegisterProperties,
    /// The clusters inside this one, in document order.
    pub children: Vec<Cluster>,
}

impl ClusterInfo {
    /// The model of the description.
    pub open spec fn model(&self) -> ClusterInfoView
        decreases self,
    {
        ClusterInfoView {
            name: self.name@,
            description: self.description@,
            header_struct_name: text_view(self.header_struct_name),
            address_offset: self.address_offset,
            default_register_properties: self.default_register_properties,
            children: Seq::new(
                self.children@.len(),
                |i: int|
                    if 0 <= i < self.children@.len() {
                        self.children@[i].model()
                    } else {
                        arbitrary()
                    },
            ),
        }
    }
}

impl View for ClusterInfo {
    type V = ClusterInfoView;

    open spec fn view(&self) -> ClusterInfoView {
        self.model()
    }
}

impl DeepView for ClusterInfo {
    type V = ClusterInfoView;

    open spec fn deep_view(&self) -> ClusterInfoView {
        self.model()
    }
}

/// The models of `clusters`, in order.
pub open spec fn clusters_view(clusters: Seq<Cluster>) -> Seq<ClusterView> {
    Seq::new(clusters.len(), |i: int| clusters[i]@)
}

/// The children of the model are the models of the children.
pub proof fn lemma_cluster_children_view(info: ClusterInfo)
    ensures
        info@.children == clusters_view(info.children@),
        info.children.deep_view() == clusters_view(info.children@),
{
    assert(info@.children =~= clusters_view(info.children@));
    assert(info.children.deep_view() =~= clusters_view(info.children@));
}

/// `tag` is one of the tags under which the description of a cluster is written.
pub open spec fn is_cluster_info_tag(tag: Seq<char>) -> bool {
    tag == "name"@ || tag == "description"@ || tag == "headerStructName"@ || tag
        == "addressOffset"@ || tag == "size"@ || tag == "resetValue"@ || tag == "resetMask"@ || tag
        == "cluster"@
}

/// The clusters among the first `n` elements of `children`: every element with
/// the tag `cluster`, decoded, in order. The first that fails is reported with
/// its position among the clusters.
pub open spec fn nested_decoded(children: Seq<ElementView>, n: int) -> Result<
    Seq<ClusterView>,
    (nat, SVDErrorView),
>
    decreases children, n,
{
    if n <= 0 || n > children.len() {
        Ok(Seq::empty())
    } else {
        match nested_decoded(children, n - 1) {
            Err(p) => Err(p),
            Ok(clusters) => if children[n - 1].name == "cluster"@ {
                match cluster_decoded(children[n - 1]) {
                    Ok(c) => Ok(clusters.push(c)),
                    Err(e) => Err((clusters.len(), e)),
                }
            } else {
                Ok(clusters)
            },
        }
    }
}

/// What decoding the description of a cluster from `tree` gives. Name,
/// description and address offset are required children; the name of the
/// header structure and the register properties are optional ones; every child
/// with the tag `cluster` is a cluster inside this one.
pub open spec fn cluster_info_decoded(tree: ElementView) -> Result<ClusterInfoView, SVDErrorView>
    decreases tree, 0int,
{
    match tree.child_text("name"@) {
        Err(e) => Err(e),
        Ok(name) => match tree.child_text("description"@) {
            Err(e) => Err(e),
            Ok(description) => match tree.child_text_opt("headerStructName"@) {
                Err(e) => Err(e),
                Ok(header_struct_name) => match child_as::<u32>(tree, "addressOffset"@) {
                    Err(e) => Err(e),
                    Ok(address_offset) => match RegisterProperties::decoded(tree) {
                        Err(e) => Err(e),
                        Ok(default_register_properties) => match nested_decoded(
                            tree.children,
                            tree.children.len() as int,
                        ) {
                            Err((i, e)) => Err(nested_child(tree.name, i, e)),
                            Ok(children) => Ok(
                                ClusterInfoView {
                                    name,
                                    description,
                                    header_struct_name,
                                    address_offset,
                                    default_register_properties,
                                    children,
                                },
                            ),
                        },
                    },
                },
            },
        }
    }
}

/// The element `cluster` that writes the description of a cluster: one leaf for
/// each field that is stated, then one element for each cluster inside.
pub open spec fn cluster_info_encoded(v: ClusterInfoView) -> ElementView
    decreases v,
{
    ElementView {
        name: "cluster"@,
        text: None,
        attributes: Seq::empty(),
        children: seq![text_leaf("name"@, v.name)] + seq![
            text_leaf("description"@, v.description),
        ] + optional_leaf("headerStructName"@, v.header_struct_name) + seq![
            number_leaf("addressOffset"@, v.address_offset),
        ] + RegisterProperties::encoded_children(v.default_register_properties) + Seq::new(
            v.children.len(),
            |i: int|
                if 0 <= i < v.children.len() {
                    cluster_encoded(v.children[i])
                } else {
                    arbitrary()
                },
        ),
    }
}

/// The leaves that write the fields of the description of a cluster.
pub open spec fn cluster_info_leaves(v: ClusterInfoView) -> Seq<ElementView> {
    seq![text_leaf("name"@, v.name)] + seq![text_leaf("description"@, v.description)]
        + optional_leaf("headerStructName"@, v.header_struct_name) + seq![
        number_leaf("addressOffset"@, v.address_offset),
    ]
}

/// The elements that write `clusters`, in order.
pub open spec fn clusters_encoded(clusters: Seq<ClusterView>) -> Seq<ElementView> {
    Seq::new(clusters.len(), |i: int| cluster_encoded(clusters[i]))
}

/// The elements that write the description of a cluster.
pub open spec fn cluster_info_children(v: ClusterInfoView) -> Seq<ElementView> {
    cluster_info_leaves(v) + RegisterProperties::encoded_children(v.default_register_properties)
        + clusters_encoded(v.children)
}

/// The element of a description holds its leaves, its register properties and
/// its clusters, in this order.
pub proof fn lemma_cluster_info_encoded(v: ClusterInfoView)
    ensures
        cluster_info_encoded(v).name == "cluster"@,
        cluster_info_encoded(v).text is None,
        cluster_info_encoded(v).attributes == Seq::<(Seq<char>, Seq<char>)>::empty(),
        cluster_info_encoded(v).children == cluster_info_children(v),
{
    assert(cluster_info_encoded(v).children =~= cluster_info_children(v));
}

impl ClusterInfo {
    /// Decodes the description of a cluster from `tree`.
    pub fn parse_tree(tree: &Element) -> (r: Result<ClusterInfo, SVDError>)
        ensures
            crate::error::result_view(r) == cluster_info_decoded(tree@),
        decreases tree, 0int,
    {
        let name = tree.get_child_text("name")?;
        let description = tree.get_child_text("description")?;
        let header_struct_name = tree.get_child_text_opt("headerStructName")?;
        let address_offset = get_child_as::<u32>("addressOffset", tree)?;
        let default_register_properties = RegisterProperties::parse(tree)?;
        let wanted = String::from_str("cluster");
        let mut children: Vec<Cluster> = Vec::new();
        let mut i: usize = 0;
        proof {
            lemma_children_view(*tree);
            assert(clusters_view(children@) =~= Seq::empty());
        }
        while i < tree.children.len()
            invariant
                i <= tree.children.len(),
                wanted@ == "cluster"@,
                tree@.children == elements_view(tree.children@),
                tree@.child_text("name"@) is Ok,
                tree@.child_text("description"@) is Ok,
                tree@.child_text_opt("headerStructName"@) is Ok,
                child_as::<u32>(tree@, "addressOffset"@) is Ok,
                RegisterProperties::decoded(tree@) is Ok,
                nested_decoded(tree@.children, i as int) == Ok::<
                    Seq<ClusterView>,
                    (nat, SVDErrorView),
                >(clusters_view(children@)),
            decreases tree.children.len() - i,
        {
            if tree.children[i].name == wanted {
                assert(tree.children[i as int]@.name == "cluster"@);
                match Cluster::parse_tree(&tree.children[i]) {
                    Ok(c) => {
                        let ghost before = clusters_view(children@);
                        children.push(c);
                        assert(clusters_view(children@) =~= before.push(c@));
                    },
                    Err(cause) => {
                        proof {
                            assert(tree@.children[i as int] == tree.children[i as int]@);
                            assert(clusters_view(children@).len() == children.len());
                            assert(nested_decoded(tree@.children, i + 1) == Err::<
                                Seq<ClusterView>,
                                (nat, SVDErrorView),
                            >((children.len() as nat, cause@)));
                            lemma_nested_failure(tree@.children, i + 1, tree.children.len() as int);
                        }
                        return Err(SVDError::nest_child(&tree.name, children.len(), cause));
                    },
                }
            }
            i += 1;
        }
        let info = ClusterInfo {
            name,
            description,
            header_struct_name,
            address_offset,
            default_register_properties,
            children,
        };
        proof {
            lemma_cluster_children_view(info);
            assert(tree@.child_text("name"@) == Ok::<Seq<char>, SVDErrorView>(info.name@));
            assert(tree@.child_text("description"@) == Ok::<Seq<char>, SVDErrorView>(
                info.description@,
            ));
            assert(tree@.child_text_opt("headerStructName"@) == Ok::<
                Option<Seq<char>>,
                SVDErrorView,
            >(info@.header_struct_name));
            assert(child_as::<u32>(tree@, "addressOffset"@) == Ok::<u32, SVDErrorView>(
                info.address_offset,
            ));
            assert(RegisterProperties::decoded(tree@) == Ok::<RegisterProperties, SVDErrorView>(
                info.default_register_properties,
            ));
            assert(cluster_info_decoded(tree@) == Ok::<ClusterInfoView, SVDErrorView>(info@));
            assert(info.deep_view() == info@);
        }
        Ok(info)
    }

    /// Writes the description as an element `cluster`.
    pub fn encode_tree(&self) -> (r: Element)
        ensures
            r@ == cluster_info_encoded(self@),
        decreases self,
    {
        let mut children: Vec<Element> = Vec::new();
        assert(elements_view(children@) =~= Seq::empty());
        push_element(&mut children, text_element("name", &self.name));
        push_element(&mut children, text_element("description", &self.description));
        push_optional_text(&mut children, "headerStructName", &self.header_struct_name);
        push_element(&mut children, number_element("addressOffset", self.address_offset));
        let mut properties = self.default_register_properties.encode().unwrap();
        let ghost leaves = elements_view(children@);
        let ghost written = elements_view(properties@);
        children.append(&mut properties);
        assert(elements_view(children@) =~= leaves + written);
        let ghost head = elements_view(children@);
        let mut i: usize = 0;
        proof {
            lemma_cluster_children_view(*self);
            assert(clusters_encoded(self@.children.take(0)) =~= Seq::empty());
            assert(head + Seq::<ElementView>::empty() =~= head);
        }
        while i < self.children.len()
            invariant
                i <= self.children.len(),
                self@.children == clusters_view(self.children@),
                elements_view(children@) == head + clusters_encoded(self@.children.take(i as int)),
            decreases self.children.len() - i,
        {
            let child = self.children[i].encode_tree();
            let ghost before = elements_view(children@);
            children.push(child);
            proof {
                assert(elements_view(children@) =~= before.push(child@));
                assert(clusters_encoded(self@.children.take(i + 1)) =~= clusters_encoded(
                    self@.children.take(i as int),
                ).push(cluster_encoded(self@.children[i as int])));
                assert(before.push(child@) =~= head + clusters_encoded(
                    self@.children.take(i + 1),
                ));
            }
            i += 1;
        }
        assert(self@.children.take(self.children.len() as int) =~= self@.children);
        let e = Element {
            name: String::from_str("cluster"),
            text: None,
            attributes: Vec::new(),
            children,
        };
        proof {
            lemma_children_view(e);
            lemma_cluster_info_encoded(self@);
            assert(e@.attributes =~= Seq::empty());
            assert(e@.children =~= cluster_info_children(self@));
        }
        e
    }

    /// A copy of the description.
    pub fn duplicate(&self) -> (r: ClusterInfo)
        ensures
            r@ == self@,
        decreases self,
    {
        let mut children: Vec<Cluster> = Vec::new();
        let mut i: usize = 0;
        while i < self.children.len()
            invariant
                i <= self.children.len(),
                children.len() == i,
                forall|j: int| 0 <= j < i ==> (#[trigger] children@[j])@ == self.children@[j]@,
            decreases self.children.len() - i,
        {
            children.push(self.children[i].duplicate());
            i += 1;
        }
        let r = ClusterInfo {
            name: self.name.clone(),
            description: self.description.clone(),
            header_struct_name: self.header_struct_name.clone(),
            address_offset: self.address_offset,
            default_register_properties: self.default_register_properties,
            children,
        };
        proof {
            lemma_cluster_children_view(r);
            lemma_cluster_children_view(*self);
            assert(r@.children =~= self@.children);
        }
        r
    }
}

/// Where the clusters among a prefix fail to decode, those among a longer
/// prefix fail in the same way.
pub proof fn lemma_nested_failure(children: Seq<ElementView>, n: int, m: int)
    requires
        0 <= n <= m <= children.len(),
        nested_decoded(children, n) is Err,
    ensures
        nested_decoded(children, m) == nested_decoded(children, n),
    decreases m - n,
{
    if n < m {
        lemma_nested_failure(children, n, m - 1);
    }
}

/// The clusters among the first `n` elements are what decoding each element
/// with the tag `cluster` gives.
pub proof fn lemma_nested_is_each(children: Seq<ElementView>, n: int)
    requires
        0 <= n <= children.len(),
    ensures
        nested_decoded(children, n) == decoded_each(
            children.take(n).filter(has_name("cluster"@)),
            decoder::<Cluster>(),
        ),
    decreases n,
{
    reveal(Seq::filter);
    let test = has_name("cluster"@);
    if n > 0 {
        lemma_nested_is_each(children, n - 1);
        assert(children.take(n).drop_last() =~= children.take(n - 1));
        assert(children.take(n).last() == children[n - 1]);
        let before = children.take(n - 1).filter(test);
        crate::parse::lemma_decoded_each_len(before, decoder::<Cluster>());
        if test(children[n - 1]) {
            let chosen = children.take(n).filter(test);
            assert(chosen.drop_last() =~= before);
            assert(chosen.last() == children[n - 1]);
        }
    } else {
        assert(children.take(0) =~= Seq::<ElementView>::empty());
    }
}

impl Parse for ClusterInfo {
    type Object = ClusterInfo;

    open spec fn accepts(tree: ElementView) -> bool {
        true
    }

    open spec fn decoded(tree: ElementView) -> Result<ClusterInfoView, SVDErrorView> {
        cluster_info_decoded(tree)
    }

    fn parse(tree: &Element) -> (r: Result<ClusterInfo, SVDError>) {
        ClusterInfo::parse_tree(tree)
    }
}

impl Encode for ClusterInfo {
    open spec fn encoded(v: ClusterInfoView) -> ElementView {
        cluster_info_encoded(v)
    }

    proof fn lemma_encoded_well_formed(v: ClusterInfoView) {
        crate::svd::cluster::lemma_cluster_info_encoded_well_formed(v);
    }

    fn encode(&self) -> (r: Result<Element, SVDError>) {
        Ok(self.encode_tree())
    }
}

/// The fields of the description of a cluster are written under their own
/// tags only.
pub proof fn lemma_cluster_info_tags(v: ClusterInfoView, name: Seq<char>)
    requires
        !is_cluster_info_tag(name),
    ensures
        first_named(cluster_info_children(v), name) is None,
{
    broadcast use
        lemma_first_named_concat,
        lemma_first_named_single,
        lemma_first_named_optional_leaf,
    ;

    lemma_register_properties_tags(v.default_register_properties, name);
    crate::svd::cluster::lemma_clusters_encoded_names(v.children);
    crate::element::lemma_first_named_absent(clusters_encoded(v.children), name);
}

} // verus!
