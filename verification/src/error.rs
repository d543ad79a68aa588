//! Errors, and the contexts in which they arise.

use vstd::prelude::*;

use crate::gdsii::Real;
use crate::views::lemma_views_push;
use crate::views::views;
use vstd::string::StringExecFns;

verus! {

/// What was being imported when an error arose.
#[derive(Debug)]
pub enum ImportContext {
    Library(String),
    Cell(String),
    Instance(String),
    Array(String),
    Units,
    Geometry,
}

/// The mathematical value of an [`ImportContext`].
pub enum ImportContextView {
    Library(Seq<char>),
    Cell(Seq<char>),
    Instance(Seq<char>),
    Array(Seq<char>),
    Units,
    Geometry,
}

impl View for ImportContext {
    type V = ImportContextView;

    open spec fn view(&self) -> ImportContextView {
        match *self {
            ImportContext::Library(name) => ImportContextView::Library(name@),
            ImportContext::Cell(name) => ImportContextView::Cell(name@),
            ImportContext::Instance(name) => ImportContextView::Instance(name@),
            ImportContext::Array(name) => ImportContextView::Array(name@),
            ImportContext::Units => ImportContextView::Units,
            ImportContext::Geometry => ImportContextView::Geometry,
        }
    }
}

impl Clone for ImportContext {
    fn clone(&self) -> (r: Self)
        ensures
            r@ == self@,
    {
        match self {
            ImportContext::Library(name) => ImportContext::Library(name.clone()),
            ImportContext::Cell(name) => ImportContext::Cell(name.clone()),
            ImportContext::Instance(name) => ImportContext::Instance(name.clone()),
            ImportContext::Array(name) => ImportContext::Array(name.clone()),
            ImportContext::Units => ImportContext::Units,
            ImportContext::Geometry => ImportContext::Geometry,
        }
    }
}

/// What an import failure says.
#[derive(Debug)]
pub enum ImportMessage {
    Text(String),
    /// The database unit is none of those supported. Its size in meters is kept as it is, for
    /// whoever displays the message to write out.
    UnsupportedUnit(Real),
}

/// The mathematical value of an [`ImportMessage`].
pub enum ImportMessageView {
    Text(Seq<char>),
    UnsupportedUnit(Real),
}

impl View for ImportMessage {
    type V = ImportMessageView;

    open spec fn view(&self) -> ImportMessageView {
        match *self {
            ImportMessage::Text(text) => ImportMessageView::Text(text@),
            ImportMessage::UnsupportedUnit(unit) => ImportMessageView::UnsupportedUnit(unit),
        }
    }
}

/// Why a layout could not be imported or exported.
#[derive(Debug)]
pub enum LayoutError {
    /// A failure to export.
    Export(String),
    /// A failure to import, with the contexts that it arose in, outermost first.
    Import { stack: Vec<ImportContext>, message: ImportMessage },
    /// A number that does not fit the type it has to be converted to.
    Conversion,
    /// Any other failure.
    Message(String),
}

/// The mathematical value of a [`LayoutError`].
pub enum LayoutErrorView {
    Export(Seq<char>),
    Import { stack: Seq<ImportContextView>, message: ImportMessageView },
    Conversion,
    Message(Seq<char>),
}

impl View for LayoutError {
    type V = LayoutErrorView;

    open spec fn view(&self) -> LayoutErrorView {
        match *self {
            LayoutError::Export(text) => LayoutErrorView::Export(text@),
            LayoutError::Import { stack, message } => LayoutErrorView::Import {
                stack: views(stack@),
                message: message@,
            },
            LayoutError::Conversion => LayoutErrorView::Conversion,
            LayoutError::Message(text) => LayoutErrorView::Message(text@),
        }
    }
}

/// The result of an import or an export.
pub type LayoutResult<T> = Result<T, LayoutError>;

/// The mathematical value of a result.
pub open spec fn result_view<T: View>(r: LayoutResult<T>) -> Result<T::V, LayoutErrorView> {
    match r {
        Ok(t) => Ok(t@),
        Err(e) => Err(e@),
    }
}

impl LayoutError {
    /// A failure that says `text`.
    pub fn msg(text: &str) -> (e: LayoutError)
        ensures
            e@ == LayoutErrorView::Message(text@),
    {
        LayoutError::Message(String::from_str(text))
    }
}

/// A copy of `stack`.
pub fn clone_stack(stack: &Vec<ImportContext>) -> (r: Vec<ImportContext>)
    ensures
        views(r@) == views(stack@),
{
    let mut copy: Vec<ImportContext> = Vec::new();
    assert(views(copy@) =~= views(stack@.take(0)));
    let mut i: usize = 0;
    while i < stack.len()
        invariant
            i <= stack@.len(),
            views(copy@) == views(stack@.take(i as int)),
        decreases stack.len() - i,
    {
        assert(stack@.take(i + 1) =~= stack@.take(i as int).push(stack@[i as int]));
        let context = stack[i].clone();
        proof {
            lemma_views_push(copy@, context);
            lemma_views_push(stack@.take(i as int), stack@[i as int]);
        }
        copy.push(context);
        i += 1;
    }
    assert(stack@.take(i as int) =~= stack@);
    copy
}

} // verus!
