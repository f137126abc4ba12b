//! What the inspector reads of a PDF, and the calls that read it.

use vstd::prelude::*;
use vstd::utf8::{decode_utf8, encode_utf8, valid_utf8};

verus! {

/// The number and generation of an object.
pub type ObjectKey = (u32, u16);

/// A number as a PDF writes it: whole, or the bits of a single-precision
/// float.
#[derive(Debug, Clone, Copy, PartialEq, Eq, Structural)]
pub enum PdfNumber {
    Integer(i64),
    Real(u32),
}

/// A dictionary: its entries, in order.
pub type Entries = Seq<(Seq<u8>, PdfValue)>;

/// A value of a PDF.
pub ghost enum PdfValue {
    Null,
    Boolean(bool),
    Integer(i64),
    Real(u32),
    Name(Seq<u8>),
    Text(Seq<u8>),
    Array(Seq<PdfValue>),
    Dictionary(Seq<(Seq<u8>, PdfValue)>),
    Stream(Seq<(Seq<u8>, PdfValue)>, Seq<u8>),
    Reference(ObjectKey),
}

/// The objects of a document.
pub type Objects = Map<ObjectKey, PdfValue>;

/// One operation of a content stream.
pub ghost struct OperationModel {
    pub operator: Seq<char>,
    pub operands: Seq<PdfValue>,
}

/// The value under a key.
pub open spec fn entry(entries: Entries, key: Seq<char>) -> Option<PdfValue>
    decreases entries.len(),
{
    if entries.len() == 0 {
        None
    } else if entries[0].0 == encode_utf8(key) {
        Some(entries[0].1)
    } else {
        entry(entries.drop_first(), key)
    }
}

/// The links that a dereference follows at most.
pub open spec fn deref_limit() -> nat {
    128
}

/// What a value stands for once its references are followed, and the last
/// object on the way.
pub open spec fn dereferenced(objects: Objects, value: PdfValue, last: Option<ObjectKey>, links: nat)
    -> Option<(Option<ObjectKey>, PdfValue)>
    decreases links,
{
    match value {
        PdfValue::Reference(id) => if links == 0 || !objects.contains_key(id) {
            None
        } else {
            dereferenced(objects, objects[id], Some(id), (links - 1) as nat)
        },
        _ => Some((last, value)),
    }
}

/// The object of an id, references followed.
pub open spec fn object_at(objects: Objects, id: ObjectKey) -> Option<PdfValue> {
    if objects.contains_key(id) {
        match dereferenced(objects, objects[id], None, deref_limit()) {
            Some((_, value)) => Some(value),
            None => None,
        }
    } else {
        None
    }
}

#[verifier::external_type_specification]
#[verifier::external_body]
pub struct ExPdfObject(lopdf::Object);

#[verifier::external_type_specification]
#[verifier::external_body]
pub struct ExPdfDictionary(lopdf::Dictionary);

#[verifier::external_type_specification]
#[verifier::external_body]
pub struct ExPdfStream(lopdf::Stream);

#[verifier::external_type_specification]
#[verifier::external_body]
pub struct ExPdfDocument(lopdf::Document);

#[verifier::external_type_specification]
#[verifier::external_body]
pub struct ExUtf8Error(std::str::Utf8Error);

/// What an object holds.
pub uninterp spec fn object_value(object: lopdf::Object) -> PdfValue;

/// What a dictionary holds.
pub uninterp spec fn dictionary_entries(dictionary: lopdf::Dictionary) -> Seq<(Seq<u8>, PdfValue)>;

/// What a stream holds: its dictionary, and its bytes as they are stored.
pub uninterp spec fn stream_parts(stream: lopdf::Stream) -> (Seq<(Seq<u8>, PdfValue)>, Seq<u8>);

/// The objects that a document holds.
pub uninterp spec fn document_objects(document: lopdf::Document) -> Map<(u32, u16), PdfValue>;

/// The trailer that a document holds.
pub uninterp spec fn document_trailer(document: lopdf::Document) -> Seq<(Seq<u8>, PdfValue)>;

/// The values of a list of objects.
pub open spec fn object_values(objects: Seq<lopdf::Object>) -> Seq<PdfValue> {
    Seq::new(objects.len(), |i: int| object_value(objects[i]))
}

/// An object, told apart.
pub enum Shape<'a> {
    Null,
    Boolean(bool),
    Integer(i64),
    Real(u32),
    Name(&'a [u8]),
    Text(&'a [u8]),
    Array(&'a Vec<lopdf::Object>),
    Dictionary(&'a lopdf::Dictionary),
    Stream(&'a lopdf::Stream),
    Reference(ObjectKey),
}

impl<'a> Shape<'a> {
    pub open spec fn value(self) -> PdfValue {
        match self {
            Shape::Null => PdfValue::Null,
            Shape::Boolean(b) => PdfValue::Boolean(b),
            Shape::Integer(i) => PdfValue::Integer(i),
            Shape::Real(r) => PdfValue::Real(r),
            Shape::Name(n) => PdfValue::Name(n@),
            Shape::Text(t) => PdfValue::Text(t@),
            Shape::Array(a) => PdfValue::Array(object_values(a@)),
            Shape::Dictionary(d) => PdfValue::Dictionary(dictionary_entries(*d)),
            Shape::Stream(s) => PdfValue::Stream(stream_parts(*s).0, stream_parts(*s).1),
            Shape::Reference(id) => PdfValue::Reference(id),
        }
    }
}

/// The variants of `lopdf::Object`: which one an object is, with what it
/// carries. A string's notation is dropped, and a real is given by its bits.
#[verifier::external_body]
pub(crate) fn shape(object: &lopdf::Object) -> (r: Shape<'_>)
    ensures
        r.value() == object_value(*object),
{
    match object {
        lopdf::Object::Null => Shape::Null,
        lopdf::Object::Boolean(b) => Shape::Boolean(*b),
        lopdf::Object::Integer(i) => Shape::Integer(*i),
        lopdf::Object::Real(r) => Shape::Real(r.to_bits()),
        lopdf::Object::Name(n) => Shape::Name(n),
        lopdf::Object::String(t, _) => Shape::Text(t),
        lopdf::Object::Array(a) => Shape::Array(a),
        lopdf::Object::Dictionary(d) => Shape::Dictionary(d),
        lopdf::Object::Stream(s) => Shape::Stream(s),
        lopdf::Object::Reference(id) => Shape::Reference(*id),
    }
}

/// `lopdf::Dictionary::get`: the value under a key, or an error where there is
/// none. The key is text; the dictionary compares its bytes.
#[verifier::external_body]
pub(crate) fn get<'a>(dictionary: &'a lopdf::Dictionary, key: &str) -> (r: Option<&'a lopdf::Object>)
    ensures
        match r {
            Some(object) => entry(dictionary_entries(*dictionary), key@) == Some(object_value(*object)),
            None => entry(dictionary_entries(*dictionary), key@) is None,
        },
{
    dictionary.get(key.as_bytes()).ok()
}

/// `lopdf::Dictionary::iter`: the entry at a place, in the order in which the
/// dictionary holds them.
#[verifier::external_body]
pub(crate) fn entry_at<'a>(dictionary: &'a lopdf::Dictionary, i: usize) -> (r: Option<(&'a Vec<u8>, &'a lopdf::Object)>)
    ensures
        match r {
            Some((key, object)) => i < dictionary_entries(*dictionary).len()
                && dictionary_entries(*dictionary)[i as int] == (key@, object_value(*object)),
            None => dictionary_entries(*dictionary).len() <= i,
        },
{
    dictionary.iter().nth(i)
}

/// The fields `dict` and `content` of `lopdf::Stream`.
#[verifier::external_body]
pub(crate) fn parts(stream: &lopdf::Stream) -> (r: (&lopdf::Dictionary, &Vec<u8>))
    ensures
        dictionary_entries(*r.0) == stream_parts(*stream).0,
        r.1@ == stream_parts(*stream).1,
{
    (&stream.dict, &stream.content)
}

/// The bytes of a stream with its filters undone, given its dictionary and its
/// stored bytes; nothing where a filter fails or is not known.
pub uninterp spec fn unfiltered(dictionary: Seq<(Seq<u8>, PdfValue)>, stored: Seq<u8>) -> Option<Seq<u8>>;

/// `lopdf::Stream::decompressed_content`: the filters of the stream's
/// dictionary undone on its stored bytes. What each filter computes is named,
/// not stated, and holds where memory does not run out.
#[verifier::external_body]
pub(crate) fn decompressed(stream: &lopdf::Stream) -> (r: Option<Vec<u8>>)
    ensures
        match r {
            Some(bytes) => unfiltered(stream_parts(*stream).0, stream_parts(*stream).1) == Some(bytes@),
            None => unfiltered(stream_parts(*stream).0, stream_parts(*stream).1) is None,
        },
{
    stream.decompressed_content().ok()
}

/// The field `trailer` of `lopdf::Document`.
#[verifier::external_body]
pub(crate) fn trailer(document: &lopdf::Document) -> (r: &lopdf::Dictionary)
    ensures
        dictionary_entries(*r) == document_trailer(*document),
{
    &document.trailer
}

/// The field `objects` of `lopdf::Document`: the object stored under an id, no
/// reference followed.
#[verifier::external_body]
pub(crate) fn stored<'a>(document: &'a lopdf::Document, id: ObjectKey) -> (r: Option<&'a lopdf::Object>)
    ensures
        match r {
            Some(object) => document_objects(*document).contains_key(id)
                && document_objects(*document)[id] == object_value(*object),
            None => !document_objects(*document).contains_key(id),
        },
{
    document.objects.get(&id)
}

/// `lopdf::Document::dereference`: the value that a value's references lead
/// to, with the id of the last object on the way. It fails on a reference to
/// no object, and past the limit of links.
#[verifier::external_body]
pub(crate) fn dereference<'a>(document: &'a lopdf::Document, object: &'a lopdf::Object)
    -> (r: Option<(Option<ObjectKey>, &'a lopdf::Object)>)
    ensures
        match r {
            Some((last, target)) => dereferenced(document_objects(*document), object_value(*object), None, deref_limit())
                == Some((last, object_value(*target))),
            None => dereferenced(document_objects(*document), object_value(*object), None, deref_limit()) is None,
        },
{
    document.dereference(object).ok()
}

/// `lopdf::Document::get_object`: the object of an id, references followed.
#[verifier::external_body]
pub(crate) fn get_object<'a>(document: &'a lopdf::Document, id: ObjectKey) -> (r: Option<&'a lopdf::Object>)
    ensures
        match r {
            Some(object) => object_at(document_objects(*document), id) == Some(object_value(*object)),
            None => object_at(document_objects(*document), id) is None,
        },
{
    document.get_object(id).ok()
}

/// The ids of the pages of a document with a trailer and objects, in the order
/// of its page tree.
pub uninterp spec fn page_tree(trailer: Seq<(Seq<u8>, PdfValue)>, objects: Map<(u32, u16), PdfValue>) -> Seq<(u32, u16)>;

/// `lopdf::Document::page_iter`: the pages of the page tree. How the tree is
/// walked is named, not stated; the walk takes no more kids than there are
/// objects. Pages are taken one at a time, so the iterator is never asked how
/// many it expects: it adds up counts that a document may put at any size.
#[verifier::external_body]
pub(crate) fn tree_pages(document: &lopdf::Document) -> (r: Vec<ObjectKey>)
    ensures
        r@ == page_tree(document_trailer(*document), document_objects(*document)),
{
    let mut pages = document.page_iter();
    std::iter::from_fn(|| pages.next()).collect()
}

/// The ids of the content streams that a page lists.
pub uninterp spec fn content_streams(objects: Map<(u32, u16), PdfValue>, page: (u32, u16)) -> Seq<(u32, u16)>;

/// `lopdf::Document::get_page_contents`: the ids in the page's `Contents`,
/// which may name streams, other references or nothing. How they are found is
/// named, not stated.
#[verifier::external_body]
pub(crate) fn page_contents(document: &lopdf::Document, page: ObjectKey) -> (r: Vec<ObjectKey>)
    ensures
        r@ == content_streams(document_objects(*document), page),
{
    document.get_page_contents(page)
}

/// The operations that content bytes spell; nothing where they cannot be read.
pub uninterp spec fn content_operations(bytes: Seq<u8>) -> Option<Seq<OperationModel>>;

/// The operations of a list of operators and operands.
pub open spec fn operations_of(list: Seq<(String, Vec<lopdf::Object>)>) -> Seq<OperationModel> {
    Seq::new(
        list.len(),
        |i: int| OperationModel { operator: list[i].0@, operands: object_values(list[i].1@) },
    )
}

/// `lopdf::content::Content::decode`: the operators that content bytes spell,
/// each with its operands. The grammar of content streams is named, not
/// stated.
#[verifier::external_body]
pub(crate) fn decode_content(bytes: &[u8]) -> (r: Option<Vec<(String, Vec<lopdf::Object>)>>)
    ensures
        match r {
            Some(list) => content_operations(bytes@) == Some(operations_of(list@)),
            None => content_operations(bytes@) is None,
        },
{
    let content = lopdf::content::Content::decode(bytes).ok()?;
    Some(content.operations.into_iter().map(|o| (o.operator, o.operands)).collect())
}

/// `std::str::from_utf8` reads bytes as text where they are valid UTF-8.
pub assume_specification[ std::str::from_utf8 ](v: &[u8]) -> (r: Result<&str, std::str::Utf8Error>)
    ensures
        match r {
            Ok(text) => valid_utf8(v@) && text@ == decode_utf8(v@),
            Err(_) => !valid_utf8(v@),
        },
;

/// The text of bytes that may not be valid UTF-8.
pub uninterp spec fn lossy_text(bytes: Seq<u8>) -> Seq<char>;

/// `String::from_utf8_lossy`: the text of valid UTF-8; elsewhere the bytes
/// that are no text are replaced, by which rule is named, not stated.
#[verifier::external_body]
pub(crate) fn from_utf8_lossy(bytes: &[u8]) -> (r: String)
    ensures
        r@ == lossy_text(bytes@),
        valid_utf8(bytes@) ==> r@ == decode_utf8(bytes@),
{
    String::from_utf8_lossy(bytes).into_owned()
}

} // verus!
