//! A cluster of registers, single or repeated.

use vstd::prelude::*;
use crate::element::{
    all_well_formed, first_named, has_name, lemma_all_well_formed_concat,
    lemma_all_well_formed_single, lemma_filter_absent, lemma_filter_all,
    lemma_first_named_concat, lemma_first_named_empty, lemma_first_named_single,
    lemma_leaf_well_formed, lemma_merged_well_formed, lemma_well_formed, Element, ElementView,
};
use crate::encode::{
    encoder, lemma_each_round_trip, lemma_first_named_optional_leaf,
    lemma_first_named_optional_number, lemma_number_leaf_decodes, lemma_optional_leaf_well_formed,
    Encode, EncodeChildren,
};
use crate::error::{SVDError, SVDErrorView, Violation};
use crate::literal::{contains_placeholder, has_placeholder, lemma_index_list_readable};
use crate::parse::{decoded_each, decoder, Parse};
use crate::svd::clusterinfo::{
    cluster_info_children, cluster_info_decoded, cluster_info_encoded, cluster_info_leaves,
    clusters_encoded, lemma_cluster_info_encoded, lemma_cluster_info_tags, lemma_nested_is_each,
    nested_decoded, ClusterInfo, ClusterInfoView,
};
use crate::svd::registerclusterarrayinfo::{
    array_children, array_readable, lemma_array_round_trip, lemma_array_tags,
    RegisterClusterArrayInfo, RegisterClusterArrayInfoView,
};
use crate::svd::registerproperties::{
    lemma_register_properties_round_trip, lemma_register_properties_tags, RegisterProperties,
};
use crate::tags::lemma_tag_shapes;

verus! {

/// Mathematical model of [`Cluster`].
pub ghost enum ClusterView {
    Single(ClusterInfoView),
    Array(ClusterInfoView, RegisterClusterArrayInfoView),
}

/// A cluster of registers: one occurrence, or an array of them.
#[derive(Debug, PartialEq, Eq)]
pub enum Cluster {
    Single(ClusterInfo),
    Array(ClusterInfo, RegisterClusterArrayInfo),
}

impl Cluster {
    /// The model of the cluster.
    pub open spec fn model(&self) -> ClusterView
        decreases self,
    {
        match self {
            Cluster::Single(info) => ClusterView::Single(info.model()),
            Cluster::Array(info, array) => ClusterView::Array(info.model(), array@),
        }
    }
}

impl View for Cluster {
    type V = ClusterView;

    open spec fn view(&self) -> ClusterView {
        self.model()
    }
}

impl DeepView for Cluster {
    type V = ClusterView;

    open spec fn deep_view(&self) -> ClusterView {
        self.model()
    }
}

impl ClusterView {
    /// The description that both variants share.
    pub open spec fn info(self) -> ClusterInfoView {
        match self {
            ClusterView::Single(info) => info,
            ClusterView::Array(info, _) => info,
        }
    }

    /// What holds of every cluster that was decoded: the name of an array
    /// holds the placeholder `%s`, and where its index suffixes are stated,
    /// there are as many as instances. The same holds of every cluster inside.
    /// The name of a single cluster is under no rule: it may hold the
    /// placeholder or not.
    pub open spec fn well_formed(self) -> bool
        decreases self,
    {
        match self {
            ClusterView::Single(info) => forall|i: int|
                0 <= i < info.children.len() ==> (#[trigger] info.children[i]).well_formed(),
            ClusterView::Array(info, array) => {
                &&& contains_placeholder(info.name)
                &&& array.dim_index matches Some(items) ==> items.len() == array.dim
                &&& forall|i: int|
                    0 <= i < info.children.len() ==> (#[trigger] info.children[i]).well_formed()
            },
        }
    }

    /// The cluster can be written and read back: the index suffixes of an array,
    /// where stated, are none, one decimal number, or two and more without a
    /// comma or a `-`. The same holds of every cluster inside.
    pub open spec fn readable(self) -> bool
        decreases self,
    {
        match self {
            ClusterView::Single(info) => forall|i: int|
                0 <= i < info.children.len() ==> (#[trigger] info.children[i]).readable(),
            ClusterView::Array(info, array) => {
                &&& array_readable(array)
                &&& forall|i: int|
                    0 <= i < info.children.len() ==> (#[trigger] info.children[i]).readable()
            },
        }
    }
}

/// The failure that reports that the entity in `element` broke `violation`.
pub open spec fn violated(element: Seq<char>, violation: Violation) -> SVDErrorView {
    SVDErrorView::Violated { element, violation }
}

/// The cluster made of `info` and `array`, or the rule that the two break.
pub open spec fn checked_array(
    element: Seq<char>,
    info: ClusterInfoView,
    array: RegisterClusterArrayInfoView,
) -> Result<ClusterView, SVDErrorView> {
    if !contains_placeholder(info.name) {
        Err(violated(element, Violation::MissingPlaceholder))
    } else if array.dim_index matches Some(items) && items.len() != array.dim {
        Err(violated(element, Violation::IndexCountMismatch))
    } else {
        Ok(ClusterView::Array(info, array))
    }
}

/// What decoding a cluster from `tree` gives. The description is decoded
/// first. The cluster is an array exactly where `tree` has a child
/// `dimIncrement`; the repetition is then decoded and held against the
/// description.
pub open spec fn cluster_decoded(tree: ElementView) -> Result<ClusterView, SVDErrorView>
    decreases tree, 1int,
{
    match cluster_info_decoded(tree) {
        Err(e) => Err(e),
        Ok(info) => if tree.child("dimIncrement"@) is Some {
            match RegisterClusterArrayInfo::decoded(tree) {
                Err(e) => Err(e),
                Ok(array) => checked_array(tree.name, info, array),
            }
        } else {
            Ok(ClusterView::Single(info))
        },
    }
}

/// The element that writes a cluster. A single cluster is written as its
/// description. An array is written as its description merged with its
/// repetition.
pub open spec fn cluster_encoded(v: ClusterView) -> ElementView
    decreases v,
{
    match v {
        ClusterView::Single(info) => cluster_info_encoded(info),
        ClusterView::Array(info, array) => cluster_info_encoded(info).merged(
            RegisterClusterArrayInfo::encoded(array),
        ),
    }
}

impl Parse for Cluster {
    type Object = Cluster;

    /// A cluster is decoded from an element `cluster` only.
    open spec fn accepts(tree: ElementView) -> bool {
        tree.name == "cluster"@
    }

    open spec fn decoded(tree: ElementView) -> Result<ClusterView, SVDErrorView> {
        cluster_decoded(tree)
    }

    fn parse(tree: &Element) -> (r: Result<Cluster, SVDError>) {
        Cluster::parse_tree(tree)
    }
}

impl Cluster {
    /// Decodes a cluster from `tree`, an element `cluster`.
    pub fn parse_tree(tree: &Element) -> (r: Result<Cluster, SVDError>)
        requires
            tree@.name == "cluster"@,
        ensures
            crate::error::result_view(r) == cluster_decoded(tree@),
        decreases tree, 1int,
    {
        let info = ClusterInfo::parse_tree(tree)?;
        if tree.get_child("dimIncrement").is_some() {
            let array_info = RegisterClusterArrayInfo::parse(tree)?;
            Cluster::new_array(&tree.name, info, array_info)
        } else {
            Ok(Cluster::Single(info))
        }
    }

    /// Makes an array of clusters from a description and a repetition that fit
    /// together; `element` names the element to blame where they do not.
    pub fn new_array(element: &String, info: ClusterInfo, array_info: RegisterClusterArrayInfo) -> (r:
        Result<Cluster, SVDError>)
        ensures
            crate::error::result_view(r) == checked_array(element@, info@, array_info@),
    {
        if !has_placeholder(info.name.as_str()) {
            return Err(
                SVDError::Violated {
                    element: element.clone(),
                    violation: Violation::MissingPlaceholder,
                },
            );
        }
        let mismatch = match &array_info.dim_index {
            Some(indices) => {
                assert(indices.deep_view().len() == indices.len());
                indices.len() != array_info.dim as usize
            },
            None => false,
        };
        if mismatch {
            return Err(
                SVDError::Violated {
                    element: element.clone(),
                    violation: Violation::IndexCountMismatch,
                },
            );
        }
        Ok(Cluster::Array(info, array_info))
    }

    /// Writes the cluster as an element.
    pub fn encode_tree(&self) -> (r: Element)
        ensures
            r@ == cluster_encoded(self@),
        decreases self,
    {
        match self {
            Cluster::Single(i) => i.encode_tree(),
            Cluster::Array(i, a) => {
                let mut e = i.encode_tree();
                e.merge(a.encode().unwrap());
                e
            },
        }
    }

    /// A copy of the cluster.
    pub fn duplicate(&self) -> (r: Cluster)
        ensures
            r@ == self@,
        decreases self,
    {
        match self {
            Cluster::Single(i) => Cluster::Single(i.duplicate()),
            Cluster::Array(i, a) => Cluster::Array(i.duplicate(), a.duplicate()),
        }
    }
}

impl Encode for Cluster {
    open spec fn encoded(v: ClusterView) -> ElementView {
        cluster_encoded(v)
    }

    proof fn lemma_encoded_well_formed(v: ClusterView) {
        lemma_cluster_encoded_well_formed(v);
    }

    fn encode(&self) -> (r: Result<Element, SVDError>) {
        Ok(self.encode_tree())
    }
}

impl core::ops::Deref for Cluster {
    type Target = ClusterInfo;

    /// The description that both variants share.
    fn deref(&self) -> (r: &ClusterInfo)
        ensures
            r@ == self@.info(),
    {
        match self {
            Cluster::Single(info) => info,
            Cluster::Array(info, _) => info,
        }
    }
}

impl Clone for Cluster {
    fn clone(&self) -> (r: Cluster)
        ensures
            r@ == self@,
    {
        self.duplicate()
    }
}

impl Clone for ClusterInfo {
    fn clone(&self) -> (r: ClusterInfo)
        ensures
            r@ == self@,
    {
        self.duplicate()
    }
}

/// An element is decoded to an array exactly where it has a child `dimIncrement`.
pub proof fn lemma_cluster_variant(tree: ElementView)
    ensures
        cluster_decoded(tree) matches Ok(c) ==> (c is Array <==> tree.child("dimIncrement"@)
            is Some),
{
}

/// Where `tree` has a child `dimIncrement` and both the description and the
/// repetition decode, the result is decided by the two rules: a name without
/// placeholder is the first violation, a wrong number of index suffixes the
/// second, and the array is the result where neither is broken.
pub proof fn lemma_cluster_array_rules(tree: ElementView)
    requires
        tree.child("dimIncrement"@) is Some,
        cluster_info_decoded(tree) is Ok,
        RegisterClusterArrayInfo::decoded(tree) is Ok,
    ensures
        ({
            let info = cluster_info_decoded(tree)->Ok_0;
            let array = RegisterClusterArrayInfo::decoded(tree)->Ok_0;
            cluster_decoded(tree) == if !contains_placeholder(info.name) {
                Err::<ClusterView, SVDErrorView>(
                    violated(tree.name, Violation::MissingPlaceholder),
                )
            } else if array.dim_index is Some && array.dim_index->0.len() != array.dim {
                Err(violated(tree.name, Violation::IndexCountMismatch))
            } else {
                Ok(ClusterView::Array(info, array))
            }
        }),
{
}

/// Every cluster that is decoded is well formed and can be written and read
/// back, and so is every cluster inside it.
pub proof fn lemma_cluster_decoded_valid(tree: ElementView)
    ensures
        cluster_decoded(tree) matches Ok(c) ==> c.well_formed() && c.readable(),
    decreases tree, 1int,
{
    if let Ok(c) = cluster_decoded(tree) {
        lemma_nested_decoded_valid(tree.children, tree.children.len() as int);
        if let Some(child) = tree.child("dimIndex"@) {
            if let Some(text) = child.text {
                lemma_index_list_readable(text);
            }
        }
    }
}

/// Every cluster among the first `n` elements that is decoded is well formed
/// and can be written and read back.
pub proof fn lemma_nested_decoded_valid(children: Seq<ElementView>, n: int)
    ensures
        nested_decoded(children, n) matches Ok(cs) ==> forall|i: int|
            0 <= i < cs.len() ==> (#[trigger] cs[i]).well_formed() && cs[i].readable(),
    decreases children, n,
{
    if 0 < n <= children.len() {
        lemma_nested_decoded_valid(children, n - 1);
        lemma_cluster_decoded_valid(children[n - 1]);
    }
}

/// Decoding what was written from a decoded cluster gives the cluster back.
pub proof fn lemma_cluster_decode_encode_decode(tree: ElementView)
    ensures
        cluster_decoded(tree) matches Ok(c) ==> cluster_decoded(cluster_encoded(c)) == Ok::<
            ClusterView,
            SVDErrorView,
        >(c),
{
    if let Ok(c) = cluster_decoded(tree) {
        lemma_cluster_decoded_valid(tree);
        lemma_cluster_round_trip(c);
    }
}

/// The element of a cluster bears the tag `cluster`.
pub proof fn lemma_cluster_encoded_name(c: ClusterView)
    ensures
        cluster_encoded(c).name == "cluster"@,
{
    lemma_cluster_info_encoded(c.info());
}

/// Each of the elements that write clusters bears the tag `cluster`.
pub proof fn lemma_clusters_encoded_names(clusters: Seq<ClusterView>)
    ensures
        forall|i: int|
            0 <= i < clusters_encoded(clusters).len() ==> (#[trigger] clusters_encoded(
                clusters,
            )[i]).name == "cluster"@,
{
    assert forall|i: int| 0 <= i < clusters_encoded(clusters).len() implies (
    #[trigger] clusters_encoded(clusters)[i]).name == "cluster"@ by {
        lemma_cluster_encoded_name(clusters[i]);
    }
}

/// The element that writes the description of a cluster is well formed.
pub proof fn lemma_cluster_info_encoded_well_formed(v: ClusterInfoView)
    ensures
        cluster_info_encoded(v).well_formed(),
    decreases v, 0int,
{
    broadcast use
        lemma_all_well_formed_concat,
        lemma_all_well_formed_single,
        lemma_leaf_well_formed,
        lemma_optional_leaf_well_formed,
    ;

    lemma_cluster_info_encoded(v);
    lemma_well_formed(cluster_info_encoded(v));
    RegisterProperties::lemma_encoded_well_formed(v.default_register_properties);
    let written = clusters_encoded(v.children);
    assert forall|i: int| 0 <= i < written.len() implies (#[trigger] written[i]).well_formed() by {
        lemma_cluster_encoded_well_formed(v.children[i]);
    }
    assert(all_well_formed(cluster_info_leaves(v)));
}

/// The element that writes a cluster is well formed.
pub proof fn lemma_cluster_encoded_well_formed(v: ClusterView)
    ensures
        cluster_encoded(v).well_formed(),
    decreases v, 1int,
{
    match v {
        ClusterView::Single(info) => lemma_cluster_info_encoded_well_formed(info),
        ClusterView::Array(info, array) => {
            lemma_cluster_info_encoded_well_formed(info);
            RegisterClusterArrayInfo::lemma_encoded_well_formed(array);
            lemma_merged_well_formed(
                cluster_info_encoded(info),
                RegisterClusterArrayInfo::encoded(array),
            );
        },
    }
}

/// The fields of a description that were written at the head of the children
/// of `tree` are read back as they were, where no later child bears one of
/// their tags.
pub proof fn lemma_cluster_info_fields(tree: ElementView, v: ClusterInfoView, rest: Seq<ElementView>)
    requires
        tree.children == cluster_info_leaves(v) + RegisterProperties::encoded_children(
            v.default_register_properties,
        ) + rest,
        first_named(rest, "name"@) is None,
        first_named(rest, "description"@) is None,
        first_named(rest, "headerStructName"@) is None,
        first_named(rest, "addressOffset"@) is None,
        first_named(rest, "size"@) is None,
        first_named(rest, "resetValue"@) is None,
        first_named(rest, "resetMask"@) is None,
    ensures
        tree.child_text("name"@) == Ok::<Seq<char>, SVDErrorView>(v.name),
        tree.child_text("description"@) == Ok::<Seq<char>, SVDErrorView>(v.description),
        tree.child_text_opt("headerStructName"@) == Ok::<Option<Seq<char>>, SVDErrorView>(
            v.header_struct_name,
        ),
        crate::parse::child_as::<u32>(tree, "addressOffset"@) == Ok::<u32, SVDErrorView>(
            v.address_offset,
        ),
        RegisterProperties::decoded(tree) == Ok::<RegisterProperties, SVDErrorView>(
            v.default_register_properties,
        ),
{
    broadcast use
        lemma_first_named_concat,
        lemma_first_named_single,
        lemma_first_named_optional_leaf,
        lemma_first_named_optional_number,
        lemma_number_leaf_decodes,
    ;

    lemma_tag_shapes();
    lemma_register_properties_round_trip(
        tree,
        cluster_info_leaves(v),
        rest,
        v.default_register_properties,
    );
}

/// Of the elements that write a description, those with the tag `cluster`
/// are the elements that write the clusters inside.
pub proof fn lemma_cluster_info_children_filter(v: ClusterInfoView)
    ensures
        cluster_info_children(v).filter(has_name("cluster"@)) == clusters_encoded(v.children),
{
    let leaves = cluster_info_leaves(v);
    let properties = RegisterProperties::encoded_children(v.default_register_properties);
    let written = clusters_encoded(v.children);
    let test = has_name("cluster"@);
    assert(first_named(leaves, "cluster"@) is None) by {
        broadcast use
            lemma_first_named_concat,
            lemma_first_named_single,
            lemma_first_named_optional_leaf,
        ;

        lemma_tag_shapes();
    }
    assert(first_named(properties, "cluster"@) is None) by {
        lemma_tag_shapes();
        lemma_register_properties_tags(v.default_register_properties, "cluster"@);
    }
    lemma_clusters_encoded_names(v.children);
    lemma_filter_absent(leaves, "cluster"@);
    lemma_filter_absent(properties, "cluster"@);
    lemma_filter_all(written, test);
    Seq::filter_distributes_over_add(leaves, properties, test);
    Seq::filter_distributes_over_add(leaves + properties, written, test);
    assert(Seq::<ElementView>::empty() + Seq::<ElementView>::empty() + written =~= written);
}

/// Of the children of `tree`, those with the tag `cluster` are the elements
/// that write the clusters of `v`, where the children are those that write `v`
/// followed by elements with other tags.
pub proof fn lemma_cluster_children_filter(tree: ElementView, v: ClusterInfoView, after: Seq<ElementView>)
    requires
        tree.children == cluster_info_children(v) + after,
        first_named(after, "cluster"@) is None,
    ensures
        tree.children.filter(has_name("cluster"@)) == clusters_encoded(v.children),
{
    let written = clusters_encoded(v.children);
    let test = has_name("cluster"@);
    lemma_cluster_info_children_filter(v);
    lemma_filter_absent(after, "cluster"@);
    Seq::filter_distributes_over_add(cluster_info_children(v), after, test);
    assert(written + Seq::<ElementView>::empty() =~= written);
}

/// Clusters that are each read back as they were written are read back, as a
/// list, as they were written.
pub proof fn lemma_clusters_round_trip(clusters: Seq<ClusterView>)
    requires
        forall|i: int|
            0 <= i < clusters.len() ==> decoder::<Cluster>()(
                encoder::<Cluster>()(#[trigger] clusters[i]),
            ) == Ok::<ClusterView, SVDErrorView>(clusters[i]),
    ensures
        decoded_each(clusters_encoded(clusters), decoder::<Cluster>()) == Ok::<
            Seq<ClusterView>,
            (nat, SVDErrorView),
        >(clusters),
{
    assert(clusters.map_values(encoder::<Cluster>()) =~= clusters_encoded(clusters));
    lemma_each_round_trip(clusters, encoder::<Cluster>(), decoder::<Cluster>());
}

/// The clusters among `children` are `clusters`, where the elements with the
/// tag `cluster` are those that write `clusters` and these are read back as
/// they were written.
pub proof fn lemma_nested_of_filter(children: Seq<ElementView>, clusters: Seq<ClusterView>)
    requires
        children.filter(has_name("cluster"@)) == clusters_encoded(clusters),
        decoded_each(clusters_encoded(clusters), decoder::<Cluster>()) == Ok::<
            Seq<ClusterView>,
            (nat, SVDErrorView),
        >(clusters),
    ensures
        nested_decoded(children, children.len() as int) == Ok::<
            Seq<ClusterView>,
            (nat, SVDErrorView),
        >(clusters),
{
    assert(children.take(children.len() as int) == children) by {
        assert(children.take(children.len() as int) =~= children);
    }
    lemma_nested_is_each(children, children.len() as int);
}

/// A description is decoded to `v` where each of its fields and the clusters
/// inside are decoded to those of `v`.
pub proof fn lemma_cluster_info_assembled(tree: ElementView, v: ClusterInfoView)
    requires
        tree.child_text("name"@) == Ok::<Seq<char>, SVDErrorView>(v.name),
        tree.child_text("description"@) == Ok::<Seq<char>, SVDErrorView>(v.description),
        tree.child_text_opt("headerStructName"@) == Ok::<Option<Seq<char>>, SVDErrorView>(
            v.header_struct_name,
        ),
        crate::parse::child_as::<u32>(tree, "addressOffset"@) == Ok::<u32, SVDErrorView>(
            v.address_offset,
        ),
        RegisterProperties::decoded(tree) == Ok::<RegisterProperties, SVDErrorView>(
            v.default_register_properties,
        ),
        nested_decoded(tree.children, tree.children.len() as int) == Ok::<
            Seq<ClusterView>,
            (nat, SVDErrorView),
        >(v.children),
    ensures
        cluster_info_decoded(tree) == Ok::<ClusterInfoView, SVDErrorView>(v),
{
}

/// The elements that write a description, followed by `after`, are its leaves,
/// its register properties, and its clusters followed by `after`.
pub proof fn lemma_cluster_info_children_split(v: ClusterInfoView, after: Seq<ElementView>)
    ensures
        cluster_info_children(v) + after == cluster_info_leaves(v)
            + RegisterProperties::encoded_children(v.default_register_properties) + (
        clusters_encoded(v.children) + after),
{
    assert(cluster_info_children(v) + after =~= cluster_info_leaves(v)
        + RegisterProperties::encoded_children(v.default_register_properties) + (clusters_encoded(
        v.children,
    ) + after));
}

/// The clusters of a description followed by `after` hold no element with the
/// tag of a field, where `after` holds none.
pub proof fn lemma_clusters_hold_no_field(v: ClusterInfoView, after: Seq<ElementView>)
    requires
        first_named(after, "name"@) is None,
        first_named(after, "description"@) is None,
        first_named(after, "headerStructName"@) is None,
        first_named(after, "addressOffset"@) is None,
        first_named(after, "size"@) is None,
        first_named(after, "resetValue"@) is None,
        first_named(after, "resetMask"@) is None,
    ensures
        ({
            let rest = clusters_encoded(v.children) + after;
            &&& first_named(rest, "name"@) is None
            &&& first_named(rest, "description"@) is None
            &&& first_named(rest, "headerStructName"@) is None
            &&& first_named(rest, "addressOffset"@) is None
            &&& first_named(rest, "size"@) is None
            &&& first_named(rest, "resetValue"@) is None
            &&& first_named(rest, "resetMask"@) is None
        }),
{
    let written = clusters_encoded(v.children);
    lemma_clusters_encoded_names(v.children);
    lemma_tag_shapes();
    lemma_rest_has_no_field(written, after, "name"@);
    lemma_rest_has_no_field(written, after, "description"@);
    lemma_rest_has_no_field(written, after, "headerStructName"@);
    lemma_rest_has_no_field(written, after, "addressOffset"@);
    lemma_rest_has_no_field(written, after, "size"@);
    lemma_rest_has_no_field(written, after, "resetValue"@);
    lemma_rest_has_no_field(written, after, "resetMask"@);
}

/// The description of a cluster that was written at the head of the children of
/// `tree` is read back as it was, where no later child bears one of its tags
/// and every cluster inside is well formed and can be read back.
pub proof fn lemma_cluster_info_round_trip(tree: ElementView, v: ClusterInfoView, after: Seq<ElementView>)
    requires
        tree.children == cluster_info_children(v) + after,
        first_named(after, "name"@) is None,
        first_named(after, "description"@) is None,
        first_named(after, "headerStructName"@) is None,
        first_named(after, "addressOffset"@) is None,
        first_named(after, "size"@) is None,
        first_named(after, "resetValue"@) is None,
        first_named(after, "resetMask"@) is None,
        first_named(after, "cluster"@) is None,
        forall|i: int|
            0 <= i < v.children.len() ==> (#[trigger] v.children[i]).well_formed()
                && v.children[i].readable(),
    ensures
        cluster_info_decoded(tree) == Ok::<ClusterInfoView, SVDErrorView>(v),
    decreases v, 0int,
{
    lemma_cluster_info_children_split(v, after);
    lemma_clusters_hold_no_field(v, after);
    lemma_cluster_info_fields(tree, v, clusters_encoded(v.children) + after);
    assert forall|i: int| 0 <= i < v.children.len() implies decoder::<Cluster>()(
        encoder::<Cluster>()(#[trigger] v.children[i]),
    ) == Ok::<ClusterView, SVDErrorView>(v.children[i]) by {
        lemma_cluster_round_trip(v.children[i]);
    }
    lemma_cluster_children_filter(tree, v, after);
    lemma_clusters_round_trip(v.children);
    lemma_nested_of_filter(tree.children, v.children);
    lemma_cluster_info_assembled(tree, v);
}

/// Clusters followed by elements without the tag `name` hold no element with
/// that tag, where the tag is not `cluster`.
pub proof fn lemma_rest_has_no_field(
    written: Seq<ElementView>,
    after: Seq<ElementView>,
    name: Seq<char>,
)
    requires
        forall|i: int| 0 <= i < written.len() ==> (#[trigger] written[i]).name == "cluster"@,
        name != "cluster"@,
        first_named(after, name) is None,
    ensures
        first_named(written + after, name) is None,
{
    crate::element::lemma_first_named_absent(written, name);
    lemma_first_named_concat(written, after, name);
}

/// A well formed cluster that can be read back is read back as it was written.
pub proof fn lemma_cluster_round_trip(c: ClusterView)
    requires
        c.well_formed(),
        c.readable(),
    ensures
        cluster_decoded(cluster_encoded(c)) == Ok::<ClusterView, SVDErrorView>(c),
    decreases c, 1int,
{
    broadcast use lemma_first_named_concat, lemma_first_named_empty;

    lemma_tag_shapes();
    let tree = cluster_encoded(c);
    match c {
        ClusterView::Single(info) => {
            lemma_cluster_info_encoded(info);
            assert(tree.children =~= cluster_info_children(info) + Seq::<ElementView>::empty());
            lemma_cluster_info_round_trip(tree, info, Seq::empty());
            lemma_cluster_info_tags(info, "dimIncrement"@);
        },
        ClusterView::Array(info, array) => {
            lemma_cluster_info_encoded(info);
            lemma_array_tags(array, "name"@);
            lemma_array_tags(array, "description"@);
            lemma_array_tags(array, "headerStructName"@);
            lemma_array_tags(array, "addressOffset"@);
            lemma_array_tags(array, "size"@);
            lemma_array_tags(array, "resetValue"@);
            lemma_array_tags(array, "resetMask"@);
            lemma_array_tags(array, "cluster"@);
            lemma_cluster_info_tags(info, "dim"@);
            lemma_cluster_info_tags(info, "dimIncrement"@);
            lemma_cluster_info_tags(info, "dimIndex"@);
            lemma_cluster_info_round_trip(tree, info, array_children(array));
            lemma_array_round_trip(tree, cluster_info_children(info), array);
        },
    }
}

} // verus!
