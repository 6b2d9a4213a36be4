//! Encoding of typed values as elements: the protocol that every entity
//! implements, and the builders of leaf elements.

use vstd::prelude::*;
use crate::element::{
    all_well_formed, elements_view, first_named, lemma_first_named_empty,
    lemma_first_named_single, new_element, text_view, Element, ElementView,
};
use crate::error::{SVDError, SVDErrorView};
use crate::literal::{
    boolean_string, boolean_text, decimal_digits, decimal_text, lemma_boolean_round_trip,
    lemma_decimal_round_trip,
};
use crate::parse::{boolean_element, decoded_each, integer_element};

verus! {

/// A type whose values can be written as one element.
pub trait Encode: DeepView + Sized {
    /// The element that writes `v`.
    spec fn encoded(v: <Self as DeepView>::V) -> ElementView;

    /// The element that writes a value is well formed.
    proof fn lemma_encoded_well_formed(v: <Self as DeepView>::V)
        ensures
            Self::encoded(v).well_formed(),
    ;

    /// Writes `self` as an element. This never fails.
    fn encode(&self) -> (r: Result<Element, SVDError>)
        ensures
            r matches Ok(e) && e@ == Self::encoded(self.deep_view()),
    ;
}

/// A type whose values can be written as children of the element of their owner.
pub trait EncodeChildren: DeepView + Sized {
    /// The elements that write `v`.
    spec fn encoded_children(v: <Self as DeepView>::V) -> Seq<ElementView>;

    /// The elements that write a value are well formed.
    proof fn lemma_encoded_well_formed(v: <Self as DeepView>::V)
        ensures
            all_well_formed(Self::encoded_children(v)),
    ;

    /// Writes `self` as a list of elements. This never fails.
    fn encode(&self) -> (r: Result<Vec<Element>, SVDError>)
        ensures
            r matches Ok(es) && elements_view(es@) == Self::encoded_children(self.deep_view()),
    ;
}

/// The leaf `tag` that holds `text`.
pub open spec fn text_leaf(tag: Seq<char>, text: Seq<char>) -> ElementView {
    ElementView::leaf(tag, Some(text))
}

/// The leaf `tag` that holds `text`, where there is a text.
pub open spec fn optional_leaf(tag: Seq<char>, text: Option<Seq<char>>) -> Seq<ElementView> {
    match text {
        Some(t) => seq![text_leaf(tag, t)],
        None => Seq::empty(),
    }
}

/// The leaf `tag` that holds `n` in decimal notation.
pub open spec fn number_leaf(tag: Seq<char>, n: u32) -> ElementView {
    text_leaf(tag, decimal_digits(n as nat))
}

/// The leaf `tag` that holds `n` in decimal notation, where there is a number.
pub open spec fn optional_number(tag: Seq<char>, n: Option<u32>) -> Seq<ElementView> {
    match n {
        Some(v) => seq![number_leaf(tag, v)],
        None => Seq::empty(),
    }
}

/// The leaf `tag` that holds `true` or `false`.
pub open spec fn boolean_leaf(tag: Seq<char>, value: bool) -> ElementView {
    text_leaf(tag, boolean_text(value))
}

/// Among the leaves written for an optional text, the first with the tag `name`
/// is the leaf itself where it was written under that tag.
pub broadcast proof fn lemma_first_named_optional_leaf(
    tag: Seq<char>,
    text: Option<Seq<char>>,
    name: Seq<char>,
)
    ensures
        #[trigger] first_named(optional_leaf(tag, text), name) == match text {
            Some(t) => if tag == name {
                Some(text_leaf(tag, t))
            } else {
                None
            },
            None => None,
        },
{
    match text {
        Some(t) => lemma_first_named_single(text_leaf(tag, t), name),
        None => lemma_first_named_empty(name),
    }
}

/// Among the leaves written for an optional number, the first with the tag
/// `name` is the leaf itself where it was written under that tag.
pub broadcast proof fn lemma_first_named_optional_number(
    tag: Seq<char>,
    n: Option<u32>,
    name: Seq<char>,
)
    ensures
        #[trigger] first_named(optional_number(tag, n), name) == match n {
            Some(v) => if tag == name {
                Some(number_leaf(tag, v))
            } else {
                None
            },
            None => None,
        },
{
    match n {
        Some(v) => lemma_first_named_single(number_leaf(tag, v), name),
        None => lemma_first_named_empty(name),
    }
}

/// The leaf written for an optional text is well formed.
pub broadcast proof fn lemma_optional_leaf_well_formed(tag: Seq<char>, text: Option<Seq<char>>)
    ensures
        #[trigger] all_well_formed(optional_leaf(tag, text)),
{
    match text {
        Some(t) => {
            assert(optional_leaf(tag, text)[0] == text_leaf(tag, t));
        },
        None => {},
    }
}

/// The leaf written for an optional number is well formed.
pub broadcast proof fn lemma_optional_number_well_formed(tag: Seq<char>, n: Option<u32>)
    ensures
        #[trigger] all_well_formed(optional_number(tag, n)),
{
    match n {
        Some(v) => {
            assert(optional_number(tag, n)[0] == number_leaf(tag, v));
        },
        None => {},
    }
}

/// The elements written for a list of values are well formed.
pub proof fn lemma_each_well_formed<T: Encode>(vs: Seq<<T as DeepView>::V>)
    ensures
        all_well_formed(vs.map_values(encoder::<T>())),
{
    let written = vs.map_values(encoder::<T>());
    assert forall|i: int| 0 <= i < written.len() implies (#[trigger] written[i]).well_formed() by {
        T::lemma_encoded_well_formed(vs[i]);
    }
}

/// A number leaf decodes to its number.
pub broadcast proof fn lemma_number_leaf_decodes(tag: Seq<char>, n: u32)
    ensures
        #[trigger] integer_element(number_leaf(tag, n)) == Ok::<u32, SVDErrorView>(n),
{
    lemma_decimal_round_trip(n);
}

/// A truth value leaf decodes to its value.
pub broadcast proof fn lemma_boolean_leaf_decodes(tag: Seq<char>, value: bool)
    ensures
        #[trigger] boolean_element(boolean_leaf(tag, value)) == Ok::<bool, SVDErrorView>(value),
{
    lemma_boolean_round_trip(value);
}

/// The leaf `tag` that holds a copy of `text`.
pub fn text_element(tag: &str, text: &String) -> (r: Element)
    ensures
        r@ == text_leaf(tag@, text@),
{
    new_element(tag, Some(text.clone()))
}

/// The leaf `tag` that holds `n` in decimal notation.
pub fn number_element(tag: &str, n: u32) -> (r: Element)
    ensures
        r@ == number_leaf(tag@, n),
{
    new_element(tag, Some(decimal_text(n)))
}

/// The leaf `tag` that holds `true` or `false`.
pub fn boolean_element_of(tag: &str, value: bool) -> (r: Element)
    ensures
        r@ == boolean_leaf(tag@, value),
{
    new_element(tag, Some(boolean_string(value)))
}

/// Appends `element` to `children`.
pub fn push_element(children: &mut Vec<Element>, element: Element)
    ensures
        elements_view(final(children)@) == elements_view(old(children)@) + seq![element@],
{
    children.push(element);
    assert(elements_view(children@) =~= elements_view(old(children)@) + seq![element@]);
}

/// Appends the leaf `tag` to `children` where there is a text to hold.
pub fn push_optional_text(children: &mut Vec<Element>, tag: &str, text: &Option<String>)
    ensures
        elements_view(final(children)@) == elements_view(old(children)@) + optional_leaf(
            tag@,
            text_view(*text),
        ),
{
    match text {
        Some(t) => {
            push_element(children, text_element(tag, t));
        },
        None => {
            assert(elements_view(children@) =~= elements_view(old(children)@) + Seq::empty());
        },
    }
}

/// Appends the leaf `tag` to `children` where there is a number to hold.
pub fn push_optional_number(children: &mut Vec<Element>, tag: &str, n: Option<u32>)
    ensures
        elements_view(final(children)@) == elements_view(old(children)@) + optional_number(
            tag@,
            n,
        ),
{
    match n {
        Some(v) => {
            push_element(children, number_element(tag, v));
        },
        None => {
            assert(elements_view(children@) =~= elements_view(old(children)@) + Seq::empty());
        },
    }
}

/// The encoder of `T` as a function of the value.
pub open spec fn encoder<T: Encode>() -> spec_fn(<T as DeepView>::V) -> ElementView {
    |v: <T as DeepView>::V| T::encoded(v)
}

/// Writes every item of `items` as an element, in order.
pub fn encode_each<T: Encode>(items: &Vec<T>) -> (r: Vec<Element>)
    ensures
        elements_view(r@) == items.deep_view().map_values(encoder::<T>()),
{
    let mut out: Vec<Element> = Vec::new();
    let mut i: usize = 0;
    while i < items.len()
        invariant
            i <= items.len(),
            out.len() == i,
            forall|j: int| 0 <= j < i ==> (#[trigger] out@[j])@ == T::encoded(items@[j].deep_view()),
        decreases items.len() - i,
    {
        match items[i].encode() {
            Ok(e) => {
                out.push(e);
            },
            Err(_) => {
                assert(false);
            },
        }
        i += 1;
    }
    assert(elements_view(out@) =~= items.deep_view().map_values(encoder::<T>()));
    out
}

/// A list whose items are each read back as they were written is read back as
/// it was written.
pub proof fn lemma_each_round_trip<V>(
    vs: Seq<V>,
    enc: spec_fn(V) -> ElementView,
    dec: spec_fn(ElementView) -> Result<V, SVDErrorView>,
)
    requires
        forall|i: int| 0 <= i < vs.len() ==> dec(enc(#[trigger] vs[i])) == Ok::<V, SVDErrorView>(
            vs[i],
        ),
    ensures
        decoded_each(vs.map_values(enc), dec) == Ok::<Seq<V>, (nat, SVDErrorView)>(vs),
    decreases vs.len(),
{
    let items = vs.map_values(enc);
    if vs.len() > 0 {
        let init = vs.drop_last();
        assert forall|i: int| 0 <= i < init.len() implies dec(enc(#[trigger] init[i])) == Ok::<
            V,
            SVDErrorView,
        >(init[i]) by {
            assert(init[i] == vs[i]);
        }
        lemma_each_round_trip(init, enc, dec);
        assert(items.drop_last() =~= init.map_values(enc));
        assert(items.last() == enc(vs.last()));
        assert(init.push(vs.last()) =~= vs);
    } else {
        assert(vs =~= Seq::empty());
    }
}

} // verus!
