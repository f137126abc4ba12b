//! What a PDF says of itself.

use crate::inspect::pdf::{
    Entries, Objects, PdfValue, Shape, dictionary_entries, document_objects, document_trailer,
    entry, get, get_object, object_at, shape, trailer,
};
use crate::inspect::strings::{
    clamp_str_bytes, decode_pdf_string, law_clamping_keeps_the_longest_start, metadata_cut,
    metadata_prefix, metadata_text, pdf_text,
};
use crate::limits::MAX_PDF_METADATA_FIELD_BYTES;
use crate::model::opt_view;
use vstd::prelude::*;
use vstd::utf8::encode_utf8;

verus! {

/// The fields of a document's information dictionary.
#[derive(Debug, PartialEq)]
pub struct Metadata {
    pub title: Option<String>,
    pub author: Option<String>,
    pub creator: Option<String>,
    pub created_at: Option<String>,
    pub modified_at: Option<String>,
}

pub ghost struct MetadataModel {
    pub title: Option<Seq<char>>,
    pub author: Option<Seq<char>>,
    pub creator: Option<Seq<char>>,
    pub created_at: Option<Seq<char>>,
    pub modified_at: Option<Seq<char>>,
}

impl View for Metadata {
    type V = MetadataModel;

    open spec fn view(&self) -> MetadataModel {
        MetadataModel {
            title: opt_view(self.title),
            author: opt_view(self.author),
            creator: opt_view(self.creator),
            created_at: opt_view(self.created_at),
            modified_at: opt_view(self.modified_at),
        }
    }
}

impl Default for Metadata {
    fn default() -> (r: Self)
        ensures
            r@ == no_metadata(),
    {
        Metadata { title: None, author: None, creator: None, created_at: None, modified_at: None }
    }
}

pub open spec fn no_metadata() -> MetadataModel {
    MetadataModel { title: None, author: None, creator: None, created_at: None, modified_at: None }
}

/// The text of a field: only a string that stands in the dictionary itself has
/// one.
pub open spec fn metadata_field(info: Entries, key: Seq<char>) -> Option<Seq<char>> {
    match entry(info, key) {
        Some(PdfValue::Text(bytes)) => Some(metadata_text(bytes)),
        _ => None,
    }
}

/// The metadata of a document with a trailer and objects: what the dictionary
/// that the trailer refers to as `Info` says.
pub open spec fn metadata_of(trailer: Entries, objects: Objects) -> MetadataModel {
    match entry(trailer, "Info"@) {
        Some(PdfValue::Reference(id)) => match object_at(objects, id) {
            Some(PdfValue::Dictionary(info)) => MetadataModel {
                title: metadata_field(info, "Title"@),
                author: metadata_field(info, "Author"@),
                creator: metadata_field(info, "Creator"@),
                created_at: metadata_field(info, "CreationDate"@),
                modified_at: metadata_field(info, "ModDate"@),
            },
            _ => no_metadata(),
        },
        _ => no_metadata(),
    }
}

fn field(info: &lopdf::Dictionary, key: &str) -> (r: Option<String>)
    ensures
        opt_view(r) == metadata_field(dictionary_entries(*info), key@),
{
    match get(info, key) {
        Some(object) => match shape(object) {
            Shape::Text(bytes) => {
                let decoded: String = decode_pdf_string(metadata_prefix(bytes));
                Some(clamp_str_bytes(decoded.as_str(), MAX_PDF_METADATA_FIELD_BYTES).to_owned())
            },
            _ => None,
        },
        None => None,
    }
}

/// Reads the metadata of a document.
pub fn extract_metadata(doc: &lopdf::Document) -> (r: Metadata)
    ensures
        r@ == metadata_of(document_trailer(*doc), document_objects(*doc)),
{
    let info_id = match get(trailer(doc), "Info") {
        Some(object) => match shape(object) {
            Shape::Reference(id) => id,
            _ => {
                return Metadata::default();
            },
        },
        None => {
            return Metadata::default();
        },
    };
    let info = match get_object(doc, info_id) {
        Some(object) => match shape(object) {
            Shape::Dictionary(info) => info,
            _ => {
                return Metadata::default();
            },
        },
        None => {
            return Metadata::default();
        },
    };
    Metadata {
        title: field(info, "Title"),
        author: field(info, "Author"),
        creator: field(info, "Creator"),
        created_at: field(info, "CreationDate"),
        modified_at: field(info, "ModDate"),
    }
}

/// Whether a field is absent or not longer than it may be.
pub open spec fn short_field(field: Option<Seq<char>>) -> bool {
    field matches Some(text) ==> encode_utf8(text).len() <= MAX_PDF_METADATA_FIELD_BYTES
}

proof fn lemma_field_is_short(info: Entries, key: Seq<char>)
    ensures
        short_field(metadata_field(info, key)),
{
    if let Some(PdfValue::Text(bytes)) = entry(info, key) {
        law_clamping_keeps_the_longest_start(
            pdf_text(bytes.take(metadata_cut(bytes))),
            MAX_PDF_METADATA_FIELD_BYTES as nat,
        );
    }
}

/// However long the strings of a document are, no field of its metadata is
/// longer than it may be.
pub proof fn law_metadata_is_short(trailer: Entries, objects: Objects)
    ensures
        ({
            let metadata = metadata_of(trailer, objects);
            &&& short_field(metadata.title)
            &&& short_field(metadata.author)
            &&& short_field(metadata.creator)
            &&& short_field(metadata.created_at)
            &&& short_field(metadata.modified_at)
        }),
{
    if let Some(PdfValue::Reference(id)) = entry(trailer, "Info"@) {
        if let Some(PdfValue::Dictionary(info)) = object_at(objects, id) {
            lemma_field_is_short(info, "Title"@);
            lemma_field_is_short(info, "Author"@);
            lemma_field_is_short(info, "Creator"@);
            lemma_field_is_short(info, "CreationDate"@);
            lemma_field_is_short(info, "ModDate"@);
        }
    }
}

/// Whether a field tells what stands under a key of the information dictionary: the text
/// of a string, and nothing for any other value or for none.
pub open spec fn tells(field: Option<Seq<char>>, info: Entries, key: Seq<char>) -> bool {
    match entry(info, key) {
        Some(PdfValue::Text(bytes)) => field is Some && field->0 == metadata_text(bytes),
        _ => field is None,
    }
}

/// Every field is read from the key of its own.
pub proof fn law_fields_are_read_from_their_keys(trailer: Entries, objects: Objects, info: Entries)
    requires
        entry(trailer, "Info"@) matches Some(PdfValue::Reference(id)) && object_at(objects, id) == Some(
            PdfValue::Dictionary(info),
        ),
    ensures
        ({
            let metadata = metadata_of(trailer, objects);
            &&& tells(metadata.title, info, "Title"@)
            &&& tells(metadata.author, info, "Author"@)
            &&& tells(metadata.creator, info, "Creator"@)
            &&& tells(metadata.created_at, info, "CreationDate"@)
            &&& tells(metadata.modified_at, info, "ModDate"@)
        }),
{
}

/// A document without an information dictionary has no metadata.
pub proof fn law_no_information_no_metadata(trailer: Entries, objects: Objects)
    requires
        !(entry(trailer, "Info"@) matches Some(PdfValue::Reference(id)) && object_at(objects, id) matches Some(
            PdfValue::Dictionary(_),
        )),
    ensures
        ({
            let metadata = metadata_of(trailer, objects);
            &&& metadata.title is None
            &&& metadata.author is None
            &&& metadata.creator is None
            &&& metadata.created_at is None
            &&& metadata.modified_at is None
        }),
{
}

} // verus!
