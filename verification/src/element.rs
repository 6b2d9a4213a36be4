//! The generic element tree that every decoder reads and every encoder builds.

use vstd::prelude::*;
use crate::error::{SVDError, SVDErrorView};
use crate::search::{first_position, lemma_first_position, lemma_first_position_is};

verus! {

/// Mathematical model of an element: its tag, its text, its attributes in
/// insertion order and its children in document order.
pub ghost struct ElementView {
    pub name: Seq<char>,
    pub text: Option<Seq<char>>,
    pub attributes: Seq<(Seq<char>, Seq<char>)>,
    pub children: Seq<ElementView>,
}

/// A node of the element tree.
#[derive(Debug, PartialEq, Eq)]
pub struct Element {
    /// The tag.
    pub name: String,
    /// The text payload, if there is any.
    pub text: Option<String>,
    /// The attributes, each key once, in insertion order.
    pub attributes: Vec<(String, String)>,
    /// The child elements, in document order.
    pub children: Vec<Element>,
}

/// The test "has the tag `name`".
pub open spec fn has_name(name: Seq<char>) -> spec_fn(ElementView) -> bool {
    |c: ElementView| c.name == name
}

/// The test "has the key `key`".
pub open spec fn has_key(key: Seq<char>) -> spec_fn((Seq<char>, Seq<char>)) -> bool {
    |a: (Seq<char>, Seq<char>)| a.0 == key
}

/// The first element of `children` with the tag `name`.
pub open spec fn first_named(children: Seq<ElementView>, name: Seq<char>) -> Option<ElementView> {
    let i = first_position(children, has_name(name));
    if i < children.len() {
        Some(children[i])
    } else {
        None
    }
}

/// No element has the tag `name` where there is no element.
pub broadcast proof fn lemma_first_named_empty(name: Seq<char>)
    ensures
        #[trigger] first_named(Seq::<ElementView>::empty(), name) is None,
{
}

/// Among `a` followed by `b`, the first element with the tag `name` is that of
/// `a` where `a` has one, and that of `b` where it has none.
pub broadcast proof fn lemma_first_named_concat(
    a: Seq<ElementView>,
    b: Seq<ElementView>,
    name: Seq<char>,
)
    ensures
        #[trigger] first_named(a + b, name) == if first_named(a, name) is Some {
            first_named(a, name)
        } else {
            first_named(b, name)
        },
{
    let test = has_name(name);
    lemma_first_position(a, test);
    lemma_first_position(b, test);
    let p = first_position(a, test);
    let q = first_position(b, test);
    if p < a.len() {
        lemma_first_position_is(a + b, test, p);
    } else {
        assert forall|j: int| 0 <= j < a.len() + q implies !test(#[trigger] (a + b)[j]) by {
            if j >= a.len() {
                assert((a + b)[j] == b[j - a.len()]);
            }
        }
        if q < b.len() {
            assert((a + b)[a.len() + q] == b[q]);
        }
        lemma_first_position_is(a + b, test, a.len() + q);
    }
}

/// A single element is the first with the tag `name` where that is its tag.
pub broadcast proof fn lemma_first_named_single(x: ElementView, name: Seq<char>)
    ensures
        #[trigger] first_named(seq![x], name) == if x.name == name {
            Some(x)
        } else {
            None
        },
{
    let test = has_name(name);
    if x.name == name {
        lemma_first_position_is(seq![x], test, 0);
    } else {
        lemma_first_position_is(seq![x], test, 1);
    }
}

/// No element has the tag `name` where every tag differs from it.
pub proof fn lemma_first_named_absent(s: Seq<ElementView>, name: Seq<char>)
    requires
        forall|i: int| 0 <= i < s.len() ==> (#[trigger] s[i]).name != name,
    ensures
        first_named(s, name) is None,
{
    lemma_first_position_is(s, has_name(name), s.len() as int);
}

/// What a test selects from a prefix is a prefix of what it selects from the whole.
pub proof fn lemma_filter_prefix<T>(s: Seq<T>, p: spec_fn(T) -> bool, n: int)
    requires
        0 <= n <= s.len(),
    ensures
        s.take(n).filter(p).len() <= s.filter(p).len(),
        s.filter(p).take(s.take(n).filter(p).len() as int) == s.take(n).filter(p),
{
    assert(s =~= s.take(n) + s.skip(n));
    Seq::filter_distributes_over_add(s.take(n), s.skip(n), p);
    assert((s.take(n).filter(p) + s.skip(n).filter(p)).take(s.take(n).filter(p).len() as int)
        =~= s.take(n).filter(p));
}

/// Where no element has the tag `name`, the test for that tag selects nothing.
pub proof fn lemma_filter_absent(s: Seq<ElementView>, name: Seq<char>)
    requires
        first_named(s, name) is None,
    ensures
        s.filter(has_name(name)) == Seq::<ElementView>::empty(),
    decreases s.len(),
{
    reveal(Seq::filter);
    lemma_first_position(s, has_name(name));
    if s.len() > 0 {
        let init = s.drop_last();
        assert forall|j: int| 0 <= j < init.len() implies !has_name(name)(#[trigger] init[j]) by {
            assert(init[j] == s[j]);
        }
        lemma_first_position_is(init, has_name(name), init.len() as int);
        lemma_filter_absent(init, name);
        assert(!has_name(name)(s[s.len() - 1]));
    }
}

/// A test that every item passes selects every item.
pub proof fn lemma_filter_all<T>(s: Seq<T>, p: spec_fn(T) -> bool)
    requires
        forall|i: int| 0 <= i < s.len() ==> p(#[trigger] s[i]),
    ensures
        s.filter(p) == s,
    decreases s.len(),
{
    reveal(Seq::filter);
    if s.len() > 0 {
        lemma_filter_all(s.drop_last(), p);
        assert(s.drop_last().push(s.last()) =~= s);
    }
}

/// The value that `attributes` holds for `key`.
pub open spec fn attribute_value(attributes: Seq<(Seq<char>, Seq<char>)>, key: Seq<char>) -> Option<
    Seq<char>,
> {
    let i = first_position(attributes, has_key(key));
    if i < attributes.len() {
        Some(attributes[i].1)
    } else {
        None
    }
}

/// After `key` was set to `value`, `key` has that value and every other key has
/// the value it had.
pub proof fn lemma_attribute_with(
    attributes: Seq<(Seq<char>, Seq<char>)>,
    key: Seq<char>,
    value: Seq<char>,
    other: Seq<char>,
)
    ensures
        attribute_value(with_attribute(attributes, key, value), other) == if other == key {
            Some(value)
        } else {
            attribute_value(attributes, other)
        },
{
    let set = with_attribute(attributes, key, value);
    let i = first_position(attributes, has_key(key));
    let p = first_position(attributes, has_key(other));
    lemma_first_position(attributes, has_key(key));
    lemma_first_position(attributes, has_key(other));
    if other == key {
        assert forall|j: int| 0 <= j < i implies !has_key(key)(#[trigger] set[j]) by {
            assert(set[j] == attributes[j]);
        }
        lemma_first_position_is(set, has_key(key), i);
    } else {
        assert forall|j: int| 0 <= j < p implies !has_key(other)(#[trigger] set[j]) by {
            if j != i {
                assert(set[j] == attributes[j]);
            }
        }
        if p < attributes.len() {
            assert(p != i);
            assert(set[p] == attributes[p]);
            lemma_first_position_is(set, has_key(other), p);
        } else {
            lemma_first_position_is(set, has_key(other), set.len() as int);
        }
    }
}

/// Setting a key keeps every key unique.
pub proof fn lemma_with_attribute_unique(
    attributes: Seq<(Seq<char>, Seq<char>)>,
    key: Seq<char>,
    value: Seq<char>,
)
    requires
        unique_keys(attributes),
    ensures
        unique_keys(with_attribute(attributes, key, value)),
{
    let set = with_attribute(attributes, key, value);
    let i = first_position(attributes, has_key(key));
    lemma_first_position(attributes, has_key(key));
    assert forall|a: int, b: int| 0 <= a < b < set.len() implies (#[trigger] set[a]).0 != (
    #[trigger] set[b]).0 by {
        if i < attributes.len() {
            assert(set[a].0 == attributes[a].0);
            assert(set[b].0 == attributes[b].0);
        } else {
            assert(set[a] == attributes[a]);
            if b < attributes.len() {
                assert(set[b] == attributes[b]);
            } else {
                assert(!has_key(key)(attributes[a]));
            }
        }
    }
}

/// `attributes` with `key` set to `value`: in place where the key is present,
/// at the end where it is not.
pub open spec fn with_attribute(
    attributes: Seq<(Seq<char>, Seq<char>)>,
    key: Seq<char>,
    value: Seq<char>,
) -> Seq<(Seq<char>, Seq<char>)> {
    let i = first_position(attributes, has_key(key));
    if i < attributes.len() {
        attributes.update(i, (key, value))
    } else {
        attributes.push((key, value))
    }
}

/// `base` with every attribute of `over` set in turn, so that `over` wins where
/// both hold a key.
pub open spec fn merged_attributes(
    base: Seq<(Seq<char>, Seq<char>)>,
    over: Seq<(Seq<char>, Seq<char>)>,
) -> Seq<(Seq<char>, Seq<char>)>
    decreases over.len(),
{
    if over.len() == 0 {
        base
    } else {
        with_attribute(merged_attributes(base, over.drop_last()), over.last().0, over.last().1)
    }
}

/// No key occurs twice in `attributes`.
pub open spec fn unique_keys(attributes: Seq<(Seq<char>, Seq<char>)>) -> bool {
    forall|i: int, j: int|
        0 <= i < j < attributes.len() ==> (#[trigger] attributes[i]).0 != (
        #[trigger] attributes[j]).0
}

/// The models of `elements`, in order.
pub open spec fn elements_view(elements: Seq<Element>) -> Seq<ElementView> {
    Seq::new(elements.len(), |i: int| elements[i]@)
}

/// The models of `attributes`, in order.
pub open spec fn attributes_view(attributes: Seq<(String, String)>) -> Seq<(Seq<char>, Seq<char>)> {
    Seq::new(attributes.len(), |i: int| (attributes[i].0@, attributes[i].1@))
}

/// The model of an optional string.
pub open spec fn text_view(text: Option<String>) -> Option<Seq<char>> {
    match text {
        Some(s) => Some(s@),
        None => None,
    }
}

impl ElementView {
    /// A leaf: the tag `name`, the text `text`, no attribute and no child.
    pub open spec fn leaf(name: Seq<char>, text: Option<Seq<char>>) -> ElementView {
        ElementView { name, text, attributes: Seq::empty(), children: Seq::empty() }
    }

    /// The first child with the tag `name`.
    pub open spec fn child(self, name: Seq<char>) -> Option<ElementView> {
        first_named(self.children, name)
    }

    /// The value of the attribute `key`.
    pub open spec fn attribute(self, key: Seq<char>) -> Option<Seq<char>> {
        attribute_value(self.attributes, key)
    }

    /// The text, or the failure that reports its absence.
    pub open spec fn required_text(self) -> Result<Seq<char>, SVDErrorView> {
        match self.text {
            Some(t) => Ok(t),
            None => Err(SVDErrorView::EmptyTag { element: self.name }),
        }
    }

    /// The first child with the tag `name`, or the failure that reports its absence.
    pub open spec fn required_child(self, name: Seq<char>) -> Result<ElementView, SVDErrorView> {
        match self.child(name) {
            Some(c) => Ok(c),
            None => Err(SVDErrorView::MissingTag { element: self.name, tag: name }),
        }
    }

    /// The text of the required child `name`.
    pub open spec fn child_text(self, name: Seq<char>) -> Result<Seq<char>, SVDErrorView> {
        match self.required_child(name) {
            Ok(c) => c.required_text(),
            Err(e) => Err(e),
        }
    }

    /// The text of the child `name` where there is such a child. A child without
    /// text is a failure, a missing child is not.
    pub open spec fn child_text_opt(self, name: Seq<char>) -> Result<
        Option<Seq<char>>,
        SVDErrorView,
    > {
        match self.child(name) {
            None => Ok(None),
            Some(c) => match c.required_text() {
                Ok(t) => Ok(Some(t)),
                Err(e) => Err(e),
            },
        }
    }

    /// `self` with the attribute `key` set to `value`.
    pub open spec fn with_attribute(self, key: Seq<char>, value: Seq<char>) -> ElementView {
        ElementView { attributes: with_attribute(self.attributes, key, value), ..self }
    }

    /// `self` with `child` as its new last child.
    pub open spec fn with_child(self, child: ElementView) -> ElementView {
        ElementView { children: self.children.push(child), ..self }
    }

    /// `self` followed by the children of `other`, and with the attributes of
    /// `other` set over its own. Tag and text stay those of `self`.
    pub open spec fn merged(self, other: ElementView) -> ElementView {
        ElementView {
            name: self.name,
            text: self.text,
            attributes: merged_attributes(self.attributes, other.attributes),
            children: self.children + other.children,
        }
    }

    /// No element of the tree holds an attribute key twice.
    pub open spec fn well_formed(self) -> bool
        decreases self,
    {
        &&& unique_keys(self.attributes)
        &&& forall|i: int|
            0 <= i < self.children.len() ==> (#[trigger] self.children[i]).well_formed()
    }
}

/// Every element of `s` is well formed.
pub open spec fn all_well_formed(s: Seq<ElementView>) -> bool {
    forall|i: int| 0 <= i < s.len() ==> (#[trigger] s[i]).well_formed()
}

/// A leaf is well formed.
pub broadcast proof fn lemma_leaf_well_formed(name: Seq<char>, text: Option<Seq<char>>)
    ensures
        #[trigger] ElementView::leaf(name, text).well_formed(),
{
}

/// A single element is well formed as a list where it is well formed itself.
pub broadcast proof fn lemma_all_well_formed_single(x: ElementView)
    ensures
        #[trigger] all_well_formed(seq![x]) == x.well_formed(),
{
    assert(seq![x][0] == x);
}

/// Two lists joined are well formed where both are.
pub broadcast proof fn lemma_all_well_formed_concat(a: Seq<ElementView>, b: Seq<ElementView>)
    ensures
        #[trigger] all_well_formed(a + b) == (all_well_formed(a) && all_well_formed(b)),
{
    if all_well_formed(a + b) {
        assert forall|i: int| 0 <= i < a.len() implies (#[trigger] a[i]).well_formed() by {
            assert((a + b)[i] == a[i]);
        }
        assert forall|i: int| 0 <= i < b.len() implies (#[trigger] b[i]).well_formed() by {
            assert((a + b)[a.len() + i] == b[i]);
        }
    }
}

/// An element is well formed where its keys are unique and its children are
/// well formed.
pub proof fn lemma_well_formed(e: ElementView)
    ensures
        e.well_formed() == (unique_keys(e.attributes) && all_well_formed(e.children)),
{
}

/// Setting the attributes of one list over those of another keeps every key unique.
pub proof fn lemma_merged_attributes_unique(
    base: Seq<(Seq<char>, Seq<char>)>,
    over: Seq<(Seq<char>, Seq<char>)>,
)
    requires
        unique_keys(base),
    ensures
        unique_keys(merged_attributes(base, over)),
    decreases over.len(),
{
    if over.len() > 0 {
        lemma_merged_attributes_unique(base, over.drop_last());
        lemma_with_attribute_unique(
            merged_attributes(base, over.drop_last()),
            over.last().0,
            over.last().1,
        );
    }
}

/// Two well formed elements merged are well formed.
pub proof fn lemma_merged_well_formed(a: ElementView, b: ElementView)
    requires
        a.well_formed(),
        b.well_formed(),
    ensures
        a.merged(b).well_formed(),
{
    lemma_merged_attributes_unique(a.attributes, b.attributes);
    lemma_all_well_formed_concat(a.children, b.children);
    lemma_well_formed(a);
    lemma_well_formed(b);
    lemma_well_formed(a.merged(b));
}

impl Element {
    /// The model of the element.
    pub open spec fn model(&self) -> ElementView
        decreases self,
    {
        ElementView {
            name: self.name@,
            text: text_view(self.text),
            attributes: attributes_view(self.attributes@),
            children: Seq::new(
                self.children@.len(),
                |i: int|
                    if 0 <= i < self.children@.len() {
                        self.children@[i].model()
                    } else {
                        arbitrary()
                    },
            ),
        }
    }
}

impl View for Element {
    type V = ElementView;

    open spec fn view(&self) -> ElementView {
        self.model()
    }
}

impl DeepView for Element {
    type V = ElementView;

    open spec fn deep_view(&self) -> ElementView {
        self@
    }
}

/// The children of the model are the models of the children.
pub proof fn lemma_children_view(e: Element)
    ensures
        e@.children == elements_view(e.children@),
{
    assert(e@.children =~= elements_view(e.children@));
}

/// A leaf element with the tag `name` and the text `text`.
pub fn new_element(name: &str, text: Option<String>) -> (r: Element)
    ensures
        r@ == ElementView::leaf(name@, text_view(text)),
        r@.well_formed(),
{
    let r = Element {
        name: String::from_str(name),
        text,
        attributes: Vec::new(),
        children: Vec::new(),
    };
    assert(r@.attributes =~= Seq::empty());
    assert(r@.children =~= Seq::empty());
    r
}

impl Element {
    /// An element with the tag `name` and nothing else.
    pub fn new(name: &str) -> (r: Element)
        ensures
            r@ == ElementView::leaf(name@, None),
            r@.well_formed(),
    {
        new_element(name, None)
    }

    /// The first child with the tag `name`.
    pub fn get_child(&self, name: &str) -> (r: Option<&Element>)
        ensures
            r.deep_view() == self@.child(name@),
            r matches Some(c) ==> self.children@.contains(*c),
    {
        let key = String::from_str(name);
        let mut i: usize = 0;
        proof {
            lemma_children_view(*self);
        }
        while i < self.children.len()
            invariant
                i <= self.children.len(),
                key@ == name@,
                self@.children == elements_view(self.children@),
                forall|j: int| 0 <= j < i ==> !has_name(name@)(#[trigger] self@.children[j]),
            decreases self.children.len() - i,
        {
            if self.children[i].name == key {
                proof {
                    lemma_first_position_is(self@.children, has_name(name@), i as int);
                }
                return Some(&self.children[i]);
            }
            i += 1;
        }
        proof {
            lemma_first_position_is(self@.children, has_name(name@), i as int);
        }
        None
    }

    /// The value of the attribute `key`.
    pub fn attribute(&self, key: &str) -> (r: Option<&String>)
        ensures
            r.deep_view() == self@.attribute(key@),
    {
        let wanted = String::from_str(key);
        let mut i: usize = 0;
        while i < self.attributes.len()
            invariant
                i <= self.attributes.len(),
                wanted@ == key@,
                forall|j: int| 0 <= j < i ==> !has_key(key@)(#[trigger] self@.attributes[j]),
            decreases self.attributes.len() - i,
        {
            if self.attributes[i].0 == wanted {
                proof {
                    lemma_first_position_is(self@.attributes, has_key(key@), i as int);
                }
                return Some(&self.attributes[i].1);
            }
            i += 1;
        }
        proof {
            lemma_first_position_is(self@.attributes, has_key(key@), i as int);
        }
        None
    }

    /// Sets the attribute `key` to `value`, replacing the value it had.
    pub fn set_attribute(&mut self, key: String, value: String)
        ensures
            final(self)@ == old(self)@.with_attribute(key@, value@),
            old(self)@.well_formed() ==> final(self)@.well_formed(),
    {
        proof {
            if old(self)@.well_formed() {
                lemma_with_attribute_unique(old(self)@.attributes, key@, value@);
                lemma_well_formed(old(self)@);
                lemma_well_formed(old(self)@.with_attribute(key@, value@));
            }
        }
        let mut i: usize = 0;
        while i < self.attributes.len()
            invariant
                i <= self.attributes.len(),
                *self == *old(self),
                forall|j: int| 0 <= j < i ==> !has_key(key@)(#[trigger] self@.attributes[j]),
            decreases self.attributes.len() - i,
        {
            if self.attributes[i].0 == key {
                proof {
                    lemma_first_position_is(self@.attributes, has_key(key@), i as int);
                }
                self.attributes.set(i, (key, value));
                assert(self@.attributes =~= with_attribute(old(self)@.attributes, key@, value@));
                assert(self@.children =~= old(self)@.children);
                return ;
            }
            i += 1;
        }
        proof {
            lemma_first_position_is(self@.attributes, has_key(key@), i as int);
        }
        self.attributes.push((key, value));
        assert(self@.attributes =~= with_attribute(old(self)@.attributes, key@, value@));
        assert(self@.children =~= old(self)@.children);
    }

    /// Appends `child` to the children.
    pub fn push_child(&mut self, child: Element)
        ensures
            final(self)@ == old(self)@.with_child(child@),
            old(self)@.well_formed() && child@.well_formed() ==> final(self)@.well_formed(),
    {
        proof {
            if old(self)@.well_formed() && child@.well_formed() {
                lemma_well_formed(old(self)@);
                lemma_well_formed(old(self)@.with_child(child@));
                lemma_all_well_formed_single(child@);
                lemma_all_well_formed_concat(old(self)@.children, seq![child@]);
                assert(old(self)@.children.push(child@) =~= old(self)@.children + seq![child@]);
            }
        }
        self.children.push(child);
        assert(self@.children =~= old(self)@.children.push(child@));
    }

    /// The text, or `EmptyTag` where the element has none.
    pub fn get_text(&self) -> (r: Result<&str, SVDError>)
        ensures
            crate::error::result_view(r) == self@.required_text(),
    {
        match &self.text {
            Some(s) => Ok(s.as_str()),
            None => Err(SVDError::EmptyTag { element: self.name.clone() }),
        }
    }

    /// The first child with the tag `name`, or `MissingTag` where there is none.
    pub fn get_child_elem(&self, name: &str) -> (r: Result<&Element, SVDError>)
        ensures
            crate::error::result_view(r) == self@.required_child(name@),
    {
        match self.get_child(name) {
            Some(c) => Ok(c),
            None => Err(
                SVDError::MissingTag { element: self.name.clone(), tag: String::from_str(name) },
            ),
        }
    }

    /// The text of the required child `name`.
    pub fn get_child_text(&self, name: &str) -> (r: Result<String, SVDError>)
        ensures
            crate::error::result_view(r) == self@.child_text(name@),
    {
        let child = self.get_child_elem(name)?;
        let text = child.get_text()?;
        Ok(String::from_str(text))
    }

    /// The text of the child `name` where there is such a child.
    pub fn get_child_text_opt(&self, name: &str) -> (r: Result<Option<String>, SVDError>)
        ensures
            crate::error::result_view(r) == self@.child_text_opt(name@),
    {
        match self.get_child(name) {
            None => Ok(None),
            Some(child) => {
                let text = child.get_text()?;
                Ok(Some(String::from_str(text)))
            },
        }
    }

    /// Appends the children of `other` and sets its attributes over those of
    /// `self`. Tag and text of `other` are dropped.
    pub fn merge(&mut self, other: Element)
        ensures
            final(self)@ == old(self)@.merged(other@),
            old(self)@.well_formed() && other@.well_formed() ==> final(self)@.well_formed(),
    {
        proof {
            if old(self)@.well_formed() && other@.well_formed() {
                lemma_merged_well_formed(old(self)@, other@);
            }
        }
        let Element { name: _, text: _, attributes, children } = other;
        let mut children = children;
        self.children.append(&mut children);
        assert(self@.children =~= old(self)@.children + other@.children);
        let mut i: usize = 0;
        let mut attributes = attributes;
        assert(other@.attributes.take(0) =~= Seq::empty());
        let ghost all = other@.attributes;
        assert(all.len() == attributes.len());
        let mut rest: Vec<(String, String)> = Vec::new();
        // The attributes are taken from the end, so they are reversed first.
        while attributes.len() > 0
            invariant
                attributes@.len() + rest@.len() == all.len(),
                forall|j: int|
                    0 <= j < attributes@.len() ==> (#[trigger] attributes@[j].0@, attributes@[j].1@)
                        == all[j],
                forall|j: int|
                    0 <= j < rest@.len() ==> (#[trigger] rest@[j].0@, rest@[j].1@) == all[all.len()
                        - 1 - j],
            decreases attributes.len(),
        {
            let a = attributes.pop().unwrap();
            rest.push(a);
        }
        while rest.len() > 0
            invariant
                i + rest@.len() == all.len(),
                all.len() <= usize::MAX,
                forall|j: int|
                    0 <= j < rest@.len() ==> (#[trigger] rest@[j].0@, rest@[j].1@) == all[all.len()
                        - 1 - j],
                self@.name == old(self)@.name,
                self@.text == old(self)@.text,
                self@.children == old(self)@.children + other@.children,
                self@.attributes == merged_attributes(old(self)@.attributes, all.take(i as int)),
            decreases rest.len(),
        {
            let (k, v) = rest.pop().unwrap();
            assert(all.take(i + 1).drop_last() =~= all.take(i as int));
            assert(all.take(i + 1).last() == all[i as int]);
            self.set_attribute(k, v);
            i += 1;
        }
        assert(all.take(i as int) =~= all);
    }
}

} // verus!
