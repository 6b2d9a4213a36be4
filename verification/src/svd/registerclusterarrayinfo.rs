//! How an entity is repeated.

use vstd::prelude::*;
use crate::element::{
    elements_view, first_named, lemma_children_view, lemma_first_named_concat,
    lemma_first_named_single, new_element, Element, ElementView,
};
use crate::encode::{
    lemma_first_named_optional_leaf, lemma_number_leaf_decodes, number_element, number_leaf,
    optional_leaf, push_element, text_leaf, Encode,
};
use crate::error::{SVDError, SVDErrorView};
use crate::literal::{
    index_list_string, index_list_text, is_index_list, lemma_index_list_round_trip, strings_view,
};
use crate::parse::{child_as, get_child_as, index_element, optional_child_as, Parse};
use crate::tags::lemma_tag_shapes;
use crate::types::DimIndex;

verus! {

/// Mathematical model of [`RegisterClusterArrayInfo`].
pub ghost struct RegisterClusterArrayInfoView {
    pub dim: u32,
    pub dim_increment: u32,
    pub dim_index: Option<Seq<Seq<char>>>,
}

/// The repetition of a register or a cluster.
#[derive(Clone, Debug, PartialEq, Eq)]
pub struct RegisterClusterArrayInfo {
    /// The number of instances.
    pub dim: u32,
    /// The address stride from one instance to the next.
    pub dim_increment: u32,
    /// The name suffix of each instance, where the suffixes are stated.
    pub dim_index: Option<Vec<String>>,
}

impl View for RegisterClusterArrayInfo {
    type V = RegisterClusterArrayInfoView;

    open spec fn view(&self) -> RegisterClusterArrayInfoView {
        RegisterClusterArrayInfoView {
            dim: self.dim,
            dim_increment: self.dim_increment,
            dim_index: self.dim_index.deep_view(),
        }
    }
}

impl DeepView for RegisterClusterArrayInfo {
    type V = RegisterClusterArrayInfoView;

    open spec fn deep_view(&self) -> RegisterClusterArrayInfoView {
        self@
    }
}

/// `tag` is one of the tags under which a repetition is written.
pub open spec fn is_array_tag(tag: Seq<char>) -> bool {
    tag == "dim"@ || tag == "dimIncrement"@ || tag == "dimIndex"@
}

/// The text of the leaf that writes the index suffixes, where they are stated.
pub open spec fn index_leaf_text(dim_index: Option<Seq<Seq<char>>>) -> Option<Seq<char>> {
    match dim_index {
        Some(items) => Some(index_list_text(items)),
        None => None,
    }
}

/// The elements that write a repetition.
pub open spec fn array_children(v: RegisterClusterArrayInfoView) -> Seq<ElementView> {
    seq![number_leaf("dim"@, v.dim)] + seq![number_leaf("dimIncrement"@, v.dim_increment)]
        + optional_leaf("dimIndex"@, index_leaf_text(v.dim_index))
}

impl Parse for RegisterClusterArrayInfo {
    type Object = RegisterClusterArrayInfo;

    open spec fn accepts(tree: ElementView) -> bool {
        true
    }

    /// Count and stride are required children, the index suffixes an optional
    /// one. A failure in a child is wrapped with the tag of `tree`.
    open spec fn decoded(tree: ElementView) -> Result<RegisterClusterArrayInfoView, SVDErrorView> {
        match child_as::<u32>(tree, "dim"@) {
            Err(e) => Err(e),
            Ok(dim) => match child_as::<u32>(tree, "dimIncrement"@) {
                Err(e) => Err(e),
                Ok(dim_increment) => match optional_child_as::<DimIndex>(tree, "dimIndex"@) {
                    Err(e) => Err(e),
                    Ok(dim_index) => Ok(
                        RegisterClusterArrayInfoView { dim, dim_increment, dim_index },
                    ),
                },
            },
        }
    }

    fn parse(tree: &Element) -> (r: Result<RegisterClusterArrayInfo, SVDError>) {
        let dim = get_child_as::<u32>("dim", tree)?;
        let dim_increment = get_child_as::<u32>("dimIncrement", tree)?;
        let dim_index = match tree.get_child("dimIndex") {
            None => None,
            Some(child) => match DimIndex::try_parse(child) {
                Ok(items) => Some(items),
                Err(cause) => {
                    return Err(SVDError::nest(&tree.name, cause));
                },
            },
        };
        let array = RegisterClusterArrayInfo { dim, dim_increment, dim_index };
        proof {
            assert(child_as::<u32>(tree@, "dim"@) == Ok::<u32, SVDErrorView>(array.dim));
            assert(child_as::<u32>(tree@, "dimIncrement"@) == Ok::<u32, SVDErrorView>(
                array.dim_increment,
            ));
            assert(optional_child_as::<DimIndex>(tree@, "dimIndex"@) == Ok::<
                Option<Seq<Seq<char>>>,
                SVDErrorView,
            >(array@.dim_index));
            assert(Self::decoded(tree@) == Ok::<RegisterClusterArrayInfoView, SVDErrorView>(
                array@,
            ));
            assert(array.deep_view() == array@);
        }
        Ok(array)
    }
}

impl RegisterClusterArrayInfo {
    /// A copy of the repetition.
    pub fn duplicate(&self) -> (r: RegisterClusterArrayInfo)
        ensures
            r@ == self@,
    {
        let dim_index = match &self.dim_index {
            None => None,
            Some(items) => {
                let mut copy: Vec<String> = Vec::new();
                let mut i: usize = 0;
                while i < items.len()
                    invariant
                        i <= items.len(),
                        copy.len() == i,
                        forall|j: int| 0 <= j < i ==> (#[trigger] copy@[j])@ == items@[j]@,
                    decreases items.len() - i,
                {
                    copy.push(items[i].clone());
                    i += 1;
                }
                assert(copy.deep_view() =~= items.deep_view());
                Some(copy)
            },
        };
        RegisterClusterArrayInfo { dim: self.dim, dim_increment: self.dim_increment, dim_index }
    }
}

impl Encode for RegisterClusterArrayInfo {
    /// An element `dimElementGroup` with a leaf for the count, one for the
    /// stride, and one for the index suffixes where they are stated.
    open spec fn encoded(v: RegisterClusterArrayInfoView) -> ElementView {
        ElementView {
            name: "dimElementGroup"@,
            text: None,
            attributes: Seq::empty(),
            children: array_children(v),
        }
    }

    proof fn lemma_encoded_well_formed(v: RegisterClusterArrayInfoView) {
        broadcast use
            crate::element::lemma_all_well_formed_concat,
            crate::element::lemma_all_well_formed_single,
            crate::element::lemma_leaf_well_formed,
            crate::encode::lemma_optional_leaf_well_formed,
        ;

        crate::element::lemma_well_formed(Self::encoded(v));

    }

    fn encode(&self) -> (r: Result<Element, SVDError>) {
        let mut children: Vec<Element> = Vec::new();
        assert(elements_view(children@) =~= Seq::empty());
        push_element(&mut children, number_element("dim", self.dim));
        push_element(&mut children, number_element("dimIncrement", self.dim_increment));
        match &self.dim_index {
            Some(items) => {
                assert(items.deep_view() =~= strings_view(items@));
                push_element(
                    &mut children,
                    new_element("dimIndex", Some(index_list_string(items))),
                );
            },
            None => {
                assert(elements_view(children@) + Seq::<ElementView>::empty() =~= elements_view(
                    children@,
                ));
            },
        }
        let e = Element {
            name: String::from_str("dimElementGroup"),
            text: None,
            attributes: Vec::new(),
            children,
        };
        proof {
            lemma_children_view(e);
            assert(e@.attributes =~= Seq::empty());
            assert(e@.children =~= array_children(self@));
        }
        Ok(e)
    }
}

/// A repetition is written under its own tags only.
pub proof fn lemma_array_tags(v: RegisterClusterArrayInfoView, name: Seq<char>)
    requires
        !is_array_tag(name),
    ensures
        first_named(array_children(v), name) is None,
{
    broadcast use
        lemma_first_named_concat,
        lemma_first_named_single,
        lemma_first_named_optional_leaf,
    ;

}

/// The index suffixes of `v`, where stated, can be written and read back.
pub open spec fn array_readable(v: RegisterClusterArrayInfoView) -> bool {
    v.dim_index matches Some(items) ==> is_index_list(items)
}

/// A repetition that was written at the end of the children of `tree` is read
/// back as it was, where no earlier child bears one of its tags.
pub proof fn lemma_array_round_trip(
    tree: ElementView,
    before: Seq<ElementView>,
    v: RegisterClusterArrayInfoView,
)
    requires
        tree.children == before + array_children(v),
        first_named(before, "dim"@) is None,
        first_named(before, "dimIncrement"@) is None,
        first_named(before, "dimIndex"@) is None,
        array_readable(v),
    ensures
        RegisterClusterArrayInfo::decoded(tree) == Ok::<RegisterClusterArrayInfoView, SVDErrorView>(
            v,
        ),
        tree.child("dimIncrement"@) is Some,
{
    broadcast use
        lemma_first_named_concat,
        lemma_first_named_single,
        lemma_first_named_optional_leaf,
        lemma_number_leaf_decodes,
    ;

    lemma_tag_shapes();
    match v.dim_index {
        Some(items) => {
            lemma_index_list_round_trip(items);
            assert(index_element(text_leaf("dimIndex"@, index_list_text(items))) == Ok::<
                Seq<Seq<char>>,
                SVDErrorView,
            >(items));
        },
        None => {},
    }
}

} // verus!
