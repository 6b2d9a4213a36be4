//! Decoding of typed values from elements: the protocol that every entity
//! implements, and the accessors for leaf values.

use vstd::prelude::*;
use crate::element::{elements_view, has_name, Element, ElementView};
use crate::error::{nested, result_view, LiteralFault, SVDError, SVDErrorView};
use crate::literal::{
    boolean_literal, has_char, index_list, integer_literal, parse_boolean, parse_index_list_chars,
    parse_integer, strings_view,
};
use crate::text::text_chars;

verus! {

/// A type that can be decoded from an element.
pub trait Parse {
    /// What decoding produces.
    type Object: DeepView;

    /// The elements that the decoder may be given.
    spec fn accepts(tree: ElementView) -> bool;

    /// What decoding `tree` gives: the model of the value, or of the failure.
    spec fn decoded(tree: ElementView) -> Result<<Self::Object as DeepView>::V, SVDErrorView>;

    /// Decodes a value from `tree`.
    fn parse(tree: &Element) -> (r: Result<Self::Object, SVDError>)
        requires
            Self::accepts(tree@),
        ensures
            result_view(r) == Self::decoded(tree@),
    ;
}

/// The failure that reports `text` as no literal, for the reason `fault`.
pub open spec fn invalid_literal(text: Seq<char>, fault: LiteralFault) -> SVDErrorView {
    SVDErrorView::InvalidLiteral { text, fault }
}

/// The number that `text` denotes, or the failure that carries `text`.
pub open spec fn integer_text(text: Seq<char>) -> Result<u32, SVDErrorView> {
    match integer_literal(text) {
        Ok(v) => Ok(v),
        Err(f) => Err(invalid_literal(text, f)),
    }
}

/// The number that the text of `tree` denotes.
pub open spec fn integer_element(tree: ElementView) -> Result<u32, SVDErrorView> {
    match tree.required_text() {
        Ok(t) => integer_text(t),
        Err(e) => Err(e),
    }
}

/// The truth value that `text` denotes, or the failure that carries `text`.
pub open spec fn boolean_text_value(text: Seq<char>) -> Result<bool, SVDErrorView> {
    match boolean_literal(text) {
        Some(b) => Ok(b),
        None => Err(invalid_literal(text, LiteralFault::NotBoolean)),
    }
}

/// The truth value that the text of `tree` denotes.
pub open spec fn boolean_element(tree: ElementView) -> Result<bool, SVDErrorView> {
    match tree.required_text() {
        Ok(t) => boolean_text_value(t),
        Err(e) => Err(e),
    }
}

/// The index suffixes that `text` lists, or the failure that carries `text`.
pub open spec fn index_text(text: Seq<char>) -> Result<Seq<Seq<char>>, SVDErrorView> {
    match index_list(text) {
        Ok(items) => Ok(items),
        Err(f) => Err(invalid_literal(text, f)),
    }
}

/// `text` holds a `-` or a comma, as every list of index suffixes does.
pub open spec fn is_index_text(text: Seq<char>) -> bool {
    has_char(text, '-') || has_char(text, ',')
}

/// The index suffixes that the text of `tree` lists.
pub open spec fn index_element(tree: ElementView) -> Result<Seq<Seq<char>>, SVDErrorView> {
    match tree.required_text() {
        Ok(t) => index_text(t),
        Err(e) => Err(e),
    }
}

/// What the required child `name` of `tree` decodes to as a `T`. A failure to
/// decode the child is wrapped with the tag of `tree`.
pub open spec fn child_as<T: Parse>(tree: ElementView, name: Seq<char>) -> Result<
    <T::Object as DeepView>::V,
    SVDErrorView,
> {
    match tree.required_child(name) {
        Err(e) => Err(e),
        Ok(c) => match T::decoded(c) {
            Ok(v) => Ok(v),
            Err(e) => Err(nested(tree.name, e)),
        },
    }
}

/// What the child `name` of `tree` decodes to as a `T`, where there is such a
/// child. A failure to decode the child is wrapped with the tag of `tree`.
pub open spec fn optional_child_as<T: Parse>(tree: ElementView, name: Seq<char>) -> Result<
    Option<<T::Object as DeepView>::V>,
    SVDErrorView,
> {
    match tree.child(name) {
        None => Ok(None),
        Some(c) => match T::decoded(c) {
            Ok(v) => Ok(Some(v)),
            Err(e) => Err(nested(tree.name, e)),
        },
    }
}

/// Decodes the number that `text` denotes.
pub fn u32_text(text: &str) -> (r: Result<u32, SVDError>)
    ensures
        result_view(r) == integer_text(text@),
{
    match parse_integer(text) {
        Ok(v) => Ok(v),
        Err(fault) => Err(SVDError::InvalidLiteral { text: String::from_str(text), fault }),
    }
}

/// Decodes the number that the text of `tree` denotes.
pub fn u32(tree: &Element) -> (r: Result<u32, SVDError>)
    ensures
        result_view(r) == integer_element(tree@),
{
    let text = get_text(tree)?;
    u32_text(text)
}

/// Decodes the truth value that the text of `tree` denotes; `None` where the
/// element has no text or the text is no truth value.
pub fn bool(tree: &Element) -> (r: Option<bool>)
    ensures
        r == match tree@.text {
            Some(t) => boolean_literal(t),
            None => None,
        },
{
    match &tree.text {
        Some(text) => parse_boolean(text.as_str()),
        None => None,
    }
}

/// Decodes a list of index suffixes. The text of such a list always holds a `-`
/// or a comma.
pub fn dim_index(text: &str) -> (r: Result<Vec<String>, SVDError>)
    requires
        is_index_text(text@),
    ensures
        match r {
            Ok(items) => index_text(text@) == Ok::<Seq<Seq<char>>, SVDErrorView>(
                strings_view(items@),
            ),
            Err(e) => index_text(text@) == Err::<Seq<Seq<char>>, SVDErrorView>(e@),
        },
{
    let chars = text_chars(text);
    match parse_index_list_chars(chars.as_slice()) {
        Ok(items) => Ok(items),
        Err(fault) => Err(SVDError::InvalidLiteral { text: String::from_str(text), fault }),
    }
}

/// Whether `text` holds a `-` or a comma.
pub fn is_dim_index(text: &str) -> (r: bool)
    ensures
        r == is_index_text(text@),
{
    let chars = text_chars(text);
    let n = chars.len();
    crate::literal::find_char(chars.as_slice(), '-') < n || crate::literal::find_char(
        chars.as_slice(),
        ',',
    ) < n
}

/// Decodes the child `n` of `e` with `f` where `e` has such a child: the first
/// child with that tag. A missing child is no failure, and `f` is then not
/// called; a failure of `f` on the child is handed on as it is.
pub fn optional<T, CB>(n: &str, e: &Element, f: CB) -> (r: Result<Option<T>, SVDError>) where
    CB: Fn(&Element) -> Result<T, SVDError>,

    requires
        forall|c: &Element| Some(c@) == e@.child(n@) ==> call_requires(f, (c,)),
    ensures
        e@.child(n@) is None <==> r == Ok::<Option<T>, SVDError>(None),
        r matches Ok(Some(v)) ==> exists|c: &Element|
            e.children@.contains(*c) && Some(c@) == e@.child(n@) && #[trigger] call_ensures(
                f,
                (c,),
                Ok::<T, SVDError>(v),
            ),
        r matches Err(x) ==> exists|c: &Element|
            e.children@.contains(*c) && Some(c@) == e@.child(n@) && #[trigger] call_ensures(
                f,
                (c,),
                Err::<T, SVDError>(x),
            ),
{
    let child = match e.get_child(n) {
        Some(c) => c,
        None => return Ok(None),
    };
    assert(e.children@.contains(*child));
    assert(Some(child@) == e@.child(n@));
    let decoded = f(child);
    assert(call_ensures(f, (child,), decoded));
    match decoded {
        Ok(v) => {
            assert(exists|c: &Element|
                e.children@.contains(*c) && Some(c@) == e@.child(n@) && #[trigger] call_ensures(
                    f,
                    (c,),
                    Ok::<T, SVDError>(v),
                ));
            let out = Ok(Some(v));
            assert(out matches Ok(Some(w)) && w == v);
            out
        },
        Err(x) => Err(x),
    }
}

/// The text of `e`, or `EmptyTag` where it has none.
pub fn get_text<'a>(e: &'a Element) -> (r: Result<&'a str, SVDError>)
    ensures
        result_view(r) == e@.required_text(),
{
    e.get_text()
}

/// The first child of `e` with the tag `n`, or `MissingTag` where there is none.
pub fn get_child_elem<'a>(n: &str, e: &'a Element) -> (r: Result<&'a Element, SVDError>)
    ensures
        result_view(r) == e@.required_child(n@),
{
    e.get_child_elem(n)
}

/// Decodes the required child `n` of `e` as a `T`.
pub fn get_child_as<T: Parse>(n: &str, e: &Element) -> (r: Result<T::Object, SVDError>)
    requires
        e@.child(n@) matches Some(c) ==> T::accepts(c),
    ensures
        result_view(r) == child_as::<T>(e@, n@),
{
    let child = e.get_child_elem(n)?;
    match T::parse(child) {
        Ok(v) => Ok(v),
        Err(cause) => Err(SVDError::nest(&e.name, cause)),
    }
}

/// Decodes the child `n` of `e` as a `T` where `e` has such a child.
pub fn get_optional_child_as<T: Parse>(n: &str, e: &Element) -> (r: Result<
    Option<T::Object>,
    SVDError,
>)
    requires
        e@.child(n@) matches Some(c) ==> T::accepts(c),
    ensures
        result_view(r) == optional_child_as::<T>(e@, n@),
{
    match e.get_child(n) {
        None => Ok(None),
        Some(child) => match T::parse(child) {
            Ok(v) => Ok(Some(v)),
            Err(cause) => Err(SVDError::nest(&e.name, cause)),
        },
    }
}

/// Decodes the number in the required child `n` of `e`.
pub fn get_child_u32(n: &str, e: &Element) -> (r: Result<u32, SVDError>)
    ensures
        result_view(r) == child_as::<u32>(e@, n@),
{
    get_child_as::<u32>(n, e)
}

/// Decodes the truth value in the required child `n` of `e`.
pub fn get_child_bool(n: &str, e: &Element) -> (r: Result<bool, SVDError>)
    ensures
        result_view(r) == child_as::<crate::types::BoolParse>(e@, n@),
{
    get_child_as::<crate::types::BoolParse>(n, e)
}

/// Decodes a list of index suffixes from any text: text that holds neither a
/// `-` nor a comma is reported as no list.
pub fn try_dim_index(text: &str) -> (r: Result<Vec<String>, SVDError>)
    ensures
        match r {
            Ok(items) => index_text(text@) == Ok::<Seq<Seq<char>>, SVDErrorView>(
                strings_view(items@),
            ),
            Err(e) => index_text(text@) == Err::<Seq<Seq<char>>, SVDErrorView>(e@),
        },
{
    if is_dim_index(text) {
        dim_index(text)
    } else {
        Err(
            SVDError::InvalidLiteral {
                text: String::from_str(text),
                fault: LiteralFault::NotIndexList,
            },
        )
    }
}

/// The decoder of `T` as a function of the element.
pub open spec fn decoder<T: Parse>() -> spec_fn(ElementView) -> Result<
    <T::Object as DeepView>::V,
    SVDErrorView,
> {
    |e: ElementView| T::decoded(e)
}

/// What decoding every element of `items` with `f` gives: the values in order,
/// or the position and the failure of the first element that fails.
pub open spec fn decoded_each<V>(
    items: Seq<ElementView>,
    f: spec_fn(ElementView) -> Result<V, SVDErrorView>,
) -> Result<Seq<V>, (nat, SVDErrorView)>
    decreases items.len(),
{
    if items.len() == 0 {
        Ok(Seq::empty())
    } else {
        match decoded_each(items.drop_last(), f) {
            Err(p) => Err(p),
            Ok(vs) => match f(items.last()) {
                Ok(v) => Ok(vs.push(v)),
                Err(e) => Err(((items.len() - 1) as nat, e)),
            },
        }
    }
}

/// The model of the result of decoding a list.
pub open spec fn each_view<T: DeepView>(r: Result<Vec<T>, (usize, SVDError)>) -> Result<
    Seq<T::V>,
    (nat, SVDErrorView),
> {
    match r {
        Ok(vs) => Ok(vs.deep_view()),
        Err((i, e)) => Err((i as nat, e@)),
    }
}

/// Decodes every element of `items` as a `T`, in order, and stops at the first
/// that fails.
pub fn parse_each<T: Parse>(items: &Vec<Element>) -> (r: Result<Vec<T::Object>, (usize, SVDError)>)
    requires
        forall|i: int| 0 <= i < items.len() ==> T::accepts(#[trigger] items[i]@),
    ensures
        each_view(r) == decoded_each(elements_view(items@), decoder::<T>()),
{
    let mut out: Vec<T::Object> = Vec::new();
    let ghost all = elements_view(items@);
    let mut i: usize = 0;
    assert(all.take(0) =~= Seq::<ElementView>::empty());
    assert(out.deep_view() =~= Seq::empty());
    while i < items.len()
        invariant
            i <= items.len(),
            all == elements_view(items@),
            forall|j: int| 0 <= j < items.len() ==> T::accepts(#[trigger] items[j]@),
            decoded_each(all.take(i as int), decoder::<T>()) == Ok::<
                Seq<<T::Object as DeepView>::V>,
                (nat, SVDErrorView),
            >(out.deep_view()),
        decreases items.len() - i,
    {
        proof {
            assert(all.take(i + 1).drop_last() =~= all.take(i as int));
            assert(all.take(i + 1).last() == items[i as int]@);
        }
        match T::parse(&items[i]) {
            Ok(v) => {
                let ghost before = out.deep_view();
                out.push(v);
                assert(out.deep_view() =~= before.push(v.deep_view()));
            },
            Err(e) => {
                proof {
                    lemma_decoded_each_prefix(all, decoder::<T>(), i + 1);
                }
                return Err((i, e));
            },
        }
        i += 1;
    }
    assert(all.take(items.len() as int) =~= all);
    Ok(out)
}

/// Where decoding a prefix fails, decoding the whole fails in the same way.
pub proof fn lemma_decoded_each_prefix<V>(
    items: Seq<ElementView>,
    f: spec_fn(ElementView) -> Result<V, SVDErrorView>,
    n: int,
)
    requires
        0 <= n <= items.len(),
        decoded_each(items.take(n), f) is Err,
    ensures
        decoded_each(items, f) == decoded_each(items.take(n), f),
    decreases items.len() - n,
{
    if n < items.len() {
        assert(items.take(n + 1).drop_last() =~= items.take(n));
        lemma_decoded_each_prefix(items, f, n + 1);
    } else {
        assert(items.take(n) =~= items);
    }
}

/// Decodes every element of `items` with the tag `tag` as a `T`, in order, and
/// stops at the first that fails. The position reported counts the elements
/// with that tag only.
pub fn parse_tagged<T: Parse>(items: &Vec<Element>, tag: &str) -> (r: Result<
    Vec<T::Object>,
    (usize, SVDError),
>)
    requires
        forall|i: int|
            0 <= i < items.len() && (#[trigger] items[i]@).name == tag@ ==> T::accepts(items[i]@),
    ensures
        each_view(r) == decoded_each(
            elements_view(items@).filter(has_name(tag@)),
            decoder::<T>(),
        ),
{
    let wanted = String::from_str(tag);
    let mut out: Vec<T::Object> = Vec::new();
    let ghost all = elements_view(items@);
    let ghost test = has_name(tag@);
    let mut i: usize = 0;
    proof {
        reveal(Seq::filter);
        assert(all.take(0) =~= Seq::<ElementView>::empty());
        assert(out.deep_view() =~= Seq::empty());
    }
    while i < items.len()
        invariant
            i <= items.len(),
            wanted@ == tag@,
            test == has_name(tag@),
            all == elements_view(items@),
            forall|j: int|
                0 <= j < items.len() && (#[trigger] items[j]@).name == tag@ ==> T::accepts(
                    items[j]@,
                ),
            decoded_each(all.take(i as int).filter(test), decoder::<T>()) == Ok::<
                Seq<<T::Object as DeepView>::V>,
                (nat, SVDErrorView),
            >(out.deep_view()),
            out.len() == all.take(i as int).filter(test).len(),
        decreases items.len() - i,
    {
        proof {
            reveal(Seq::filter);
            assert(all.take(i + 1).drop_last() =~= all.take(i as int));
            assert(all.take(i + 1).last() == items[i as int]@);
            assert(out.deep_view().len() == out.len());
        }
        if items[i].name == wanted {
            let ghost chosen = all.take(i + 1).filter(test);
            proof {
                assert(chosen.drop_last() =~= all.take(i as int).filter(test));
                assert(chosen.last() == items[i as int]@);
            }
            match T::parse(&items[i]) {
                Ok(v) => {
                    let ghost before = out.deep_view();
                    out.push(v);
                    assert(out.deep_view() =~= before.push(v.deep_view()));
                },
                Err(e) => {
                    proof {
                        crate::element::lemma_filter_prefix(all, test, i + 1);
                        let whole = all.filter(test);
                        assert(whole.take(chosen.len() as int) == chosen);
                        lemma_decoded_each_prefix(whole, decoder::<T>(), chosen.len() as int);
                    }
                    return Err((out.len(), e));
                },
            }
        }
        i += 1;
    }
    assert(all.take(items.len() as int) =~= all);
    Ok(out)
}

/// Text that is no number is reported with the text itself; no number stands
/// in for it.
pub proof fn lemma_integer_failure(text: Seq<char>)
    ensures
        integer_text(text) is Err <==> integer_literal(text) is Err,
        integer_text(text) matches Err(e) ==> e == invalid_literal(
            text,
            integer_literal(text)->Err_0,
        ),
{
}

/// Where every element before position `i` decodes and the one at `i` does
/// not, decoding the list fails at `i` with the failure of that element.
pub proof fn lemma_decoded_each_first_failure<V>(
    items: Seq<ElementView>,
    f: spec_fn(ElementView) -> Result<V, SVDErrorView>,
    i: int,
)
    requires
        0 <= i < items.len(),
        forall|j: int| 0 <= j < i ==> f(#[trigger] items[j]) is Ok,
        f(items[i]) is Err,
    ensures
        decoded_each(items, f) == Err::<Seq<V>, (nat, SVDErrorView)>(
            (i as nat, f(items[i])->Err_0),
        ),
{
    let prefix = items.take(i);
    assert forall|j: int| 0 <= j < prefix.len() implies f(#[trigger] prefix[j]) is Ok by {
        assert(prefix[j] == items[j]);
    }
    lemma_decoded_each_all(prefix, f);
    assert(items.take(i + 1).drop_last() =~= prefix);
    assert(items.take(i + 1).last() == items[i]);
    lemma_decoded_each_prefix(items, f, i + 1);
}

/// Where every element decodes, decoding the list gives the value of each
/// element, in order.
pub proof fn lemma_decoded_each_all<V>(
    items: Seq<ElementView>,
    f: spec_fn(ElementView) -> Result<V, SVDErrorView>,
)
    requires
        forall|j: int| 0 <= j < items.len() ==> f(#[trigger] items[j]) is Ok,
    ensures
        decoded_each(items, f) matches Ok(vs) && vs.len() == items.len() && forall|j: int|
            0 <= j < items.len() ==> f(items[j]) == Ok::<V, SVDErrorView>(#[trigger] vs[j]),
    decreases items.len(),
{
    if items.len() > 0 {
        let init = items.drop_last();
        assert forall|j: int| 0 <= j < init.len() implies f(#[trigger] init[j]) is Ok by {
            assert(init[j] == items[j]);
        }
        lemma_decoded_each_all(init, f);
        assert(f(items.last()) is Ok);
        let vs = decoded_each(items, f)->Ok_0;
        assert forall|j: int| 0 <= j < items.len() implies f(items[j]) == Ok::<V, SVDErrorView>(
            #[trigger] vs[j],
        ) by {
            if j < init.len() {
                assert(init[j] == items[j]);
            }
        }
    }
}

/// A list that decodes gives one value for each of its elements.
pub proof fn lemma_decoded_each_len<V>(
    items: Seq<ElementView>,
    f: spec_fn(ElementView) -> Result<V, SVDErrorView>,
)
    ensures
        decoded_each(items, f) matches Ok(vs) ==> vs.len() == items.len(),
    decreases items.len(),
{
    if items.len() > 0 {
        lemma_decoded_each_len(items.drop_last(), f);
    }
}

} // verus!
