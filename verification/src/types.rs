//! The decoders of the primitive values that entities are made of.

use vstd::prelude::*;
use crate::element::{Element, ElementView};
pub use crate::encode::Encode;
pub use crate::parse::optional as parse_optional;
pub use crate::parse::Parse;
use crate::error::{result_view, LiteralFault, SVDError, SVDErrorView};
use crate::literal::parse_boolean;
use crate::parse::{
    boolean_element, dim_index, index_element, integer_element, is_index_text, try_dim_index,
    u32_text,
};

verus! {

impl Parse for u32 {
    type Object = u32;

    open spec fn accepts(tree: ElementView) -> bool {
        true
    }

    open spec fn decoded(tree: ElementView) -> Result<u32, SVDErrorView> {
        integer_element(tree)
    }

    fn parse(tree: &Element) -> (r: Result<u32, SVDError>) {
        let text = tree.get_text()?;
        u32_text(text)
    }
}

/// The decoder of truth values.
#[derive(Clone, Copy, Debug)]
pub struct BoolParse;

impl Parse for BoolParse {
    type Object = bool;

    open spec fn accepts(tree: ElementView) -> bool {
        true
    }

    open spec fn decoded(tree: ElementView) -> Result<bool, SVDErrorView> {
        boolean_element(tree)
    }

    fn parse(tree: &Element) -> (r: Result<bool, SVDError>) {
        let text = tree.get_text()?;
        match parse_boolean(text) {
            Some(b) => Ok(b),
            None => Err(
                SVDError::InvalidLiteral {
                    text: String::from_str(text),
                    fault: LiteralFault::NotBoolean,
                },
            ),
        }
    }
}

/// The decoder of lists of index suffixes.
#[derive(Clone, Copy, Debug)]
pub struct DimIndex;

impl Parse for DimIndex {
    type Object = Vec<String>;

    /// The text of a list of index suffixes holds a `-` or a comma.
    open spec fn accepts(tree: ElementView) -> bool {
        tree.text matches Some(t) ==> is_index_text(t)
    }

    open spec fn decoded(tree: ElementView) -> Result<Seq<Seq<char>>, SVDErrorView> {
        index_element(tree)
    }

    fn parse(tree: &Element) -> (r: Result<Vec<String>, SVDError>) {
        let text = tree.get_text()?;
        match dim_index(text) {
            Ok(items) => {
                assert(items.deep_view() =~= crate::literal::strings_view(items@));
                Ok(items)
            },
            Err(e) => Err(e),
        }
    }
}

impl DimIndex {
    /// Decodes a list of index suffixes from any element: text that holds
    /// neither a `-` nor a comma is reported as no list.
    pub fn try_parse(tree: &Element) -> (r: Result<Vec<String>, SVDError>)
        ensures
            result_view(r) == index_element(tree@),
    {
        let text = tree.get_text()?;
        match try_dim_index(text) {
            Ok(items) => {
                assert(items.deep_view() =~= crate::literal::strings_view(items@));
                Ok(items)
            },
            Err(e) => Err(e),
        }
    }
}

} // verus!
