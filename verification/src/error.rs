//! What a failed decode reports.

use vstd::prelude::*;

verus! {

/// Why a piece of text is not a literal of the expected grammar.
#[derive(Clone, Copy, Debug, PartialEq, Eq, Structural)]
pub enum LiteralFault {
    /// Nothing where a number was expected.
    Empty,
    /// A character that is no digit of the selected radix.
    InvalidDigit,
    /// All digits are valid but the number exceeds 32 bits.
    Overflow,
    /// Neither `0`, `1`, `true` nor `false`.
    NotBoolean,
    /// Neither a range `start-end` nor a comma separated list.
    NotIndexList,
}

/// The cross-field rule that a repeated entity broke.
#[derive(Clone, Copy, Debug, PartialEq, Eq, Structural)]
pub enum Violation {
    /// The name of a repeated entity lacks the placeholder `%s`.
    MissingPlaceholder,
    /// The number of explicit index suffixes differs from the repeat count.
    IndexCountMismatch,
}

/// Mathematical model of [`SVDError`].
pub ghost enum SVDErrorView {
    MissingTag { element: Seq<char>, tag: Seq<char> },
    EmptyTag { element: Seq<char> },
    InvalidLiteral { text: Seq<char>, fault: LiteralFault },
    Violated { element: Seq<char>, violation: Violation },
    Nested { element: Seq<char>, cause: Box<SVDErrorView> },
    NestedChild { element: Seq<char>, index: nat, cause: Box<SVDErrorView> },
}

/// A structured decode failure.
#[derive(Debug, PartialEq, Eq)]
pub enum SVDError {
    /// The element `element` has no child named `tag`.
    MissingTag { element: String, tag: String },
    /// The element `element` has no text.
    EmptyTag { element: String },
    /// `text` is not a literal of the expected grammar.
    InvalidLiteral { text: String, fault: LiteralFault },
    /// The entity decoded from `element` breaks a cross-field rule.
    Violated { element: String, violation: Violation },
    /// Decoding something inside `element` failed with `cause`.
    Nested { element: String, cause: Box<SVDError> },
    /// Decoding child number `index` of `element` failed with `cause`.
    NestedChild { element: String, index: usize, cause: Box<SVDError> },
}

impl View for SVDError {
    type V = SVDErrorView;

    open spec fn view(&self) -> SVDErrorView
        decreases self,
    {
        match self {
            SVDError::MissingTag { element, tag } => SVDErrorView::MissingTag {
                element: element@,
                tag: tag@,
            },
            SVDError::EmptyTag { element } => SVDErrorView::EmptyTag { element: element@ },
            SVDError::InvalidLiteral { text, fault } => SVDErrorView::InvalidLiteral {
                text: text@,
                fault: *fault,
            },
            SVDError::Violated { element, violation } => SVDErrorView::Violated {
                element: element@,
                violation: *violation,
            },
            SVDError::Nested { element, cause } => SVDErrorView::Nested {
                element: element@,
                cause: Box::new((**cause)@),
            },
            SVDError::NestedChild { element, index, cause } => SVDErrorView::NestedChild {
                element: element@,
                index: *index as nat,
                cause: Box::new((**cause)@),
            },
        }
    }
}

impl DeepView for SVDError {
    type V = SVDErrorView;

    open spec fn deep_view(&self) -> SVDErrorView {
        self@
    }
}

/// The model of a decode result: the deep view of the value, or the view of the error.
pub open spec fn result_view<T: DeepView>(r: Result<T, SVDError>) -> Result<T::V, SVDErrorView> {
    match r {
        Ok(v) => Ok(v.deep_view()),
        Err(e) => Err(e@),
    }
}

/// `cause` wrapped with the name of the element inside which it arose.
pub open spec fn nested(element: Seq<char>, cause: SVDErrorView) -> SVDErrorView {
    SVDErrorView::Nested { element, cause: Box::new(cause) }
}

/// `cause` wrapped with the name of the element and the position of the child that failed.
pub open spec fn nested_child(element: Seq<char>, index: nat, cause: SVDErrorView) -> SVDErrorView {
    SVDErrorView::NestedChild { element, index, cause: Box::new(cause) }
}

impl SVDError {
    /// Wraps `cause` with the name of the enclosing element.
    pub fn nest(element: &String, cause: SVDError) -> (r: SVDError)
        ensures
            r@ == nested(element@, cause@),
    {
        SVDError::Nested { element: element.clone(), cause: Box::new(cause) }
    }

    /// Wraps `cause` with the name of the enclosing element and the position of the failed child.
    pub fn nest_child(element: &String, index: usize, cause: SVDError) -> (r: SVDError)
        ensures
            r@ == nested_child(element@, index as nat, cause@),
    {
        SVDError::NestedChild { element: element.clone(), index, cause: Box::new(cause) }
    }
}

} // verus!
