//! The preprocessor adapter: the host's document tree modelled as the
//! library's own data, and the traversal that transforms every chapter's
//! content in document order, stopping at the first failure.

use vstd::prelude::*;

use crate::buf::bytes_eq;
use crate::extract::GabcError;
use crate::transform::{add_gabc, chant_class, gabc_label, transform_spec};

verus! {

broadcast use vstd::std_specs::vec::group_vec_axioms;

/// A chapter-like content unit: its Markdown text and the items nested
/// under it.
pub struct Chapter {
    pub content: Vec<u8>,
    pub sub_items: Vec<BookItem>,
}

/// One node of the host's document tree.
pub enum BookItem {
    Chapter(Chapter),
    /// A node bearing no content, such as a separator or a part title.
    Other,
}

/// The host's document tree.
pub struct Book {
    pub sections: Vec<BookItem>,
}

/// The error of the first chapter, in document order, whose content fails
/// to transform; `None` when every chapter transforms.  A chapter comes
/// before the items nested under it.
pub open spec fn item_error(it: BookItem) -> Option<GabcError>
    decreases it, 0int,
{
    match it {
        BookItem::Chapter(c) => match transform_spec(c.content@, gabc_label(), chant_class()) {
            Err(e) => Some(e),
            Ok(_) => items_error_from(c.sub_items@, 0),
        },
        BookItem::Other => None,
    }
}

/// The error of the first failing chapter among `items[i..]`.
pub open spec fn items_error_from(items: Seq<BookItem>, i: int) -> Option<GabcError>
    decreases items, items.len() - i,
{
    if i < 0 || i >= items.len() {
        None
    } else {
        match item_error(items[i]) {
            Some(e) => Some(e),
            None => items_error_from(items, i + 1),
        }
    }
}

/// The second tree is the first with every chapter's content transformed
/// and the tree's shape kept.
pub open spec fn item_transformed(it: BookItem, it2: BookItem) -> bool
    decreases it,
{
    match (it, it2) {
        (BookItem::Other, BookItem::Other) => true,
        (BookItem::Chapter(c), BookItem::Chapter(c2)) => {
            &&& transform_spec(c.content@, gabc_label(), chant_class()) matches Ok(s)
                && c2.content@ == s
            &&& items_transformed(c.sub_items@, c2.sub_items@)
        },
        _ => false,
    }
}

/// Pairwise [`item_transformed`] over two item sequences of equal length.
pub open spec fn items_transformed(items: Seq<BookItem>, items2: Seq<BookItem>) -> bool
    decreases items,
{
    &&& items.len() == items2.len()
    &&& forall|k: int|
        0 <= k < items.len() ==> item_transformed(#[trigger] items[k], items2[k])
}

/// The error of the first failing chapter of the whole tree.
pub open spec fn book_error(b: Book) -> Option<GabcError> {
    items_error_from(b.sections@, 0)
}

/// The whole tree, transformed with its shape kept.
pub open spec fn book_transformed(b: Book, b2: Book) -> bool {
    items_transformed(b.sections@, b2.sections@)
}

/// Transform one tree node: a chapter's content is transformed, then the
/// items nested under it; a content-less node is returned as it is.
pub fn transform_item(it: &BookItem) -> (r: Result<BookItem, GabcError>)
    ensures
        match r {
            Ok(v) => item_error(*it) is None && item_transformed(*it, v),
            Err(e) => item_error(*it) == Some(e),
        },
    decreases *it, 0int,
{
    match it {
        BookItem::Other => Ok(BookItem::Other),
        BookItem::Chapter(c) => match add_gabc(c.content.as_slice()) {
            Err(e) => Err(e),
            Ok(new_content) => match transform_items(&c.sub_items) {
                Err(e) => Err(e),
                Ok(subs) => Ok(
                    BookItem::Chapter(Chapter { content: new_content, sub_items: subs }),
                ),
            },
        },
    }
}

/// Transform a sequence of tree nodes in document order, stopping at the
/// first failure.
pub fn transform_items(items: &Vec<BookItem>) -> (r: Result<Vec<BookItem>, GabcError>)
    ensures
        match r {
            Ok(v) => items_error_from(items@, 0) is None && items_transformed(items@, v@),
            Err(e) => items_error_from(items@, 0) == Some(e),
        },
    decreases items@,
{
    let mut out: Vec<BookItem> = Vec::new();
    let mut i: usize = 0;
    while i < items.len()
        invariant
            i <= items@.len(),
            out@.len() == i,
            forall|k: int| 0 <= k < i ==> item_transformed(#[trigger] items@[k], out@[k]),
            items_error_from(items@, 0) == items_error_from(items@, i as int),
        decreases items@.len() - i,
    {
        match transform_item(&items[i]) {
            Ok(v) => {
                out.push(v);
            },
            Err(e) => {
                return Err(e);
            },
        }
        i = i + 1;
    }
    Ok(out)
}

/// The preprocessor: recognizes `gabc` fenced blocks and supports only the
/// HTML renderer.
pub struct Gabc;

impl Gabc {
    /// The preprocessor's name identifier.
    pub fn name(&self) -> (r: &'static str)
        ensures
            r@ == "gabc"@,
    {
        "gabc"
    }

    /// True exactly for the HTML-producing renderer; for any other
    /// renderer the host should skip this preprocessor entirely.
    pub fn supports_renderer(&self, renderer: &str) -> (r: bool)
        ensures
            r == (renderer@ == "html"@),
    {
        let r = bytes_eq(renderer.as_bytes(), "html".as_bytes());
        proof {
            vstd::utf8::encode_utf8_decode_utf8(renderer@);
            vstd::utf8::encode_utf8_decode_utf8("html"@);
        }
        r
    }

    /// Transform one chapter's content.
    pub fn add_gabc(chapter: &Chapter) -> (r: Result<Vec<u8>, GabcError>)
        ensures
            match r {
                Ok(out) => transform_spec(chapter.content@, gabc_label(), chant_class()) == Ok::<
                    Seq<u8>,
                    GabcError,
                >(out@),
                Err(e) => transform_spec(chapter.content@, gabc_label(), chant_class()) == Err::<
                    Seq<u8>,
                    GabcError,
                >(e),
            },
    {
        add_gabc(chapter.content.as_slice())
    }

    /// Transform every chapter of the tree in document order.  On the
    /// first failure that failure is the overall result.
    pub fn run(&self, book: Book) -> (r: Result<Book, GabcError>)
        ensures
            r matches Ok(b2) ==> book_error(book) is None && book_transformed(book, b2),
            r matches Err(e) ==> book_error(book) == Some(e),
    {
        match transform_items(&book.sections) {
            Ok(secs) => Ok(Book { sections: secs }),
            Err(e) => Err(e),
        }
    }
}

} // verus!
