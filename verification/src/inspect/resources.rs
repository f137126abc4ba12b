//! The resources of a page, and the images among them.

use crate::inspect::content::{canonical, canonical_object_id_within, lemma_canonical_spends, less};
use crate::inspect::pdf::{
    Entries, ObjectKey, Objects, PdfValue, Shape, deref_limit, dereference, dereferenced,
    dictionary_entries, document_objects, entry, entry_at, from_utf8_lossy, get, get_object,
    lossy_text, object_at, object_value, parts, shape,
};
use crate::inspect::strings::{name_text, obj_as_name_str};
use crate::limits::{MAX_PDF_PARENT_DEPTH, PDF_CONTENT_STREAM_COST_FLOOR_BYTES};
use crate::name_map::NameMap;
use vstd::prelude::*;

verus! {

/// Which resources dictionary is in effect for a page. An id alone does not
/// say: an object can be such a dictionary, and it can hold one.
#[derive(Debug, Clone, Copy, PartialEq, Eq, PartialOrd, Ord)]
pub enum ResourcesOrigin {
    /// The dictionary is this object.
    Object(ObjectKey),
    /// The dictionary is written inside this object.
    DirectIn(ObjectKey),
}

/// Which dictionary a page's external objects are declared in.
#[derive(Debug, Clone, Copy, PartialEq, Eq, PartialOrd, Ord)]
pub enum XObjectsOrigin {
    /// The dictionary is this object.
    Object(ObjectKey),
    /// The dictionary is written inside these resources, or there is none.
    DirectIn(ResourcesOrigin),
}

/// The dictionary that an entry leads to, with the object that it is.
pub open spec fn dictionary_under(objects: Objects, holder: Entries, key: Seq<char>) -> Option<(Option<ObjectKey>, Entries)> {
    match entry(holder, key) {
        Some(value) => match dereferenced(objects, value, None, deref_limit()) {
            Some((id, PdfValue::Dictionary(entries))) => Some((id, entries)),
            _ => None,
        },
        None => None,
    }
}

/// The resources in effect for a node of the page tree: its own, or those of
/// the nearest parent that has any, within a number of hops over aliases and
/// parents together.
pub open spec fn resources_of(objects: Objects, node: ObjectKey, hops: nat) -> Option<(ResourcesOrigin, Entries)>
    decreases hops,
{
    let (owner, left) = canonical(objects, node, hops);
    match owner {
        None => None,
        Some(owner) => match object_at(objects, owner) {
            Some(PdfValue::Dictionary(dictionary)) => match dictionary_under(objects, dictionary, "Resources"@) {
                Some((Some(id), resources)) => Some((ResourcesOrigin::Object(id), resources)),
                Some((None, resources)) => Some((ResourcesOrigin::DirectIn(owner), resources)),
                None => match entry(dictionary, "Parent"@) {
                    Some(PdfValue::Reference(parent)) => if left == 0 {
                        None
                    } else {
                        proof {
                            lemma_canonical_spends(objects, node, hops);
                        }
                        resources_of(objects, parent, (left - 1) as nat)
                    },
                    _ => None,
                },
            },
            _ => None,
        },
    }
}

/// Finds the resources in effect for a page.
pub fn resolve_page_resources(doc: &lopdf::Document, page_id: ObjectKey) -> (r: Option<(ResourcesOrigin, &lopdf::Dictionary)>)
    ensures
        match r {
            Some((origin, resources)) => resources_of(document_objects(*doc), page_id, MAX_PDF_PARENT_DEPTH as nat) == Some(
                (origin, dictionary_entries(*resources)),
            ),
            None => resources_of(document_objects(*doc), page_id, MAX_PDF_PARENT_DEPTH as nat) is None,
        },
{
    let ghost objects = document_objects(*doc);
    let mut current_id: ObjectKey = page_id;
    let mut hops: usize = MAX_PDF_PARENT_DEPTH;
    loop
        invariant
            objects == document_objects(*doc),
            resources_of(objects, current_id, hops as nat) == resources_of(objects, page_id, MAX_PDF_PARENT_DEPTH as nat),
        decreases hops,
    {
        let ghost before = hops as nat;
        proof {
            lemma_canonical_spends(objects, current_id, before);
        }
        let owner_id: ObjectKey = match canonical_object_id_within(doc, current_id, &mut hops) {
            Some(id) => id,
            None => {
                return None;
            },
        };
        let dict = match get_object(doc, owner_id) {
            Some(object) => match shape(object) {
                Shape::Dictionary(dict) => dict,
                _ => {
                    return None;
                },
            },
            None => {
                return None;
            },
        };
        if let Some(entry_value) = get(dict, "Resources") {
            if let Some((id, target)) = dereference(doc, entry_value) {
                if let Shape::Dictionary(resources) = shape(target) {
                    let origin = match id {
                        Some(id) => ResourcesOrigin::Object(id),
                        None => ResourcesOrigin::DirectIn(owner_id),
                    };
                    return Some((origin, resources));
                }
            }
        }
        assert(dictionary_under(objects, dictionary_entries(*dict), "Resources"@) is None);
        match get(dict, "Parent") {
            Some(parent) => match shape(parent) {
                Shape::Reference(parent_id) => {
                    if hops == 0 {
                        return None;
                    }
                    hops = hops - 1;
                    current_id = parent_id;
                },
                _ => {
                    return None;
                },
            },
            None => {
                return None;
            },
        }
    }
}

/// Where the external objects of resources are declared.
pub open spec fn xobjects_origin_of(objects: Objects, resources: Entries, origin: ResourcesOrigin) -> XObjectsOrigin {
    match entry(resources, "XObject"@) {
        Some(value) => match dereferenced(objects, value, None, deref_limit()) {
            Some((Some(id), _)) => XObjectsOrigin::Object(id),
            _ => XObjectsOrigin::DirectIn(origin),
        },
        None => XObjectsOrigin::DirectIn(origin),
    }
}

/// Tells where the external objects of resources are declared: by the object
/// that the references end on.
pub fn xobjects_origin(doc: &lopdf::Document, resources: &lopdf::Dictionary, origin: ResourcesOrigin) -> (r: XObjectsOrigin)
    ensures
        r == xobjects_origin_of(document_objects(*doc), dictionary_entries(*resources), origin),
{
    match get(resources, "XObject") {
        Some(object) => match dereference(doc, object) {
            Some((Some(id), _)) => XObjectsOrigin::Object(id),
            _ => XObjectsOrigin::DirectIn(origin),
        },
        None => XObjectsOrigin::DirectIn(origin),
    }
}

/// The format of images that a filter encodes.
pub open spec fn filter_format(filter: Seq<char>) -> Seq<char> {
    if filter == "DCTDecode"@ {
        "jpeg"@
    } else if filter == "JPXDecode"@ {
        "jp2"@
    } else if filter == "CCITTFaxDecode"@ {
        "tiff"@
    } else if filter == "FlateDecode"@ {
        "flate"@
    } else {
        "unknown"@
    }
}

/// The format of an image: that of its filter, or of the last of its filters.
pub open spec fn image_format(dictionary: Entries) -> Seq<char> {
    match entry(dictionary, "Filter"@) {
        Some(PdfValue::Name(name)) => filter_format(lossy_text(name)),
        Some(PdfValue::Array(filters)) => if filters.len() > 0 {
            match name_text(filters.last()) {
                Some(name) => filter_format(name),
                None => "unknown"@,
            }
        } else {
            "unknown"@
        },
        _ => "unknown"@,
    }
}

fn format_of_filter(filter: &str) -> (r: String)
    ensures
        r@ == filter_format(filter@),
{
    if *filter == *"DCTDecode" {
        "jpeg".to_owned()
    } else if *filter == *"JPXDecode" {
        "jp2".to_owned()
    } else if *filter == *"CCITTFaxDecode" {
        "tiff".to_owned()
    } else if *filter == *"FlateDecode" {
        "flate".to_owned()
    } else {
        "unknown".to_owned()
    }
}

/// Tells the format of an image from its filters.
pub fn detect_image_format(dict: &lopdf::Dictionary) -> (r: String)
    ensures
        r@ == image_format(dictionary_entries(*dict)),
{
    match get(dict, "Filter") {
        Some(filter) => match shape(filter) {
            Shape::Name(name) => format_of_filter(from_utf8_lossy(name).as_str()),
            Shape::Array(filters) => {
                if filters.len() > 0 {
                    match obj_as_name_str(&filters[filters.len() - 1]) {
                        Some(name) => format_of_filter(name),
                        None => "unknown".to_owned(),
                    }
                } else {
                    "unknown".to_owned()
                }
            },
            _ => "unknown".to_owned(),
        },
        None => "unknown".to_owned(),
    }
}

/// An image that a page's resources declare.
#[derive(Debug)]
pub struct ImageXObject {
    pub format: String,
    pub width_px: u32,
    pub height_px: u32,
}

pub ghost struct ImageModel {
    pub format: Seq<char>,
    pub width_px: u32,
    pub height_px: u32,
}

impl View for ImageXObject {
    type V = ImageModel;

    open spec fn view(&self) -> ImageModel {
        ImageModel { format: self.format@, width_px: self.width_px, height_px: self.height_px }
    }
}

/// Images by name.
pub type ImageXObjects = NameMap<ImageXObject>;

/// The images of a map.
pub open spec fn image_models(images: Map<Seq<char>, ImageXObject>) -> Map<Seq<char>, ImageModel> {
    images.map_values(|image: ImageXObject| image@)
}

/// A size in pixels: the low bits of a whole number.
pub open spec fn pixels(dictionary: Entries, key: Seq<char>) -> u32 {
    match entry(dictionary, key) {
        Some(PdfValue::Integer(n)) => n as u32,
        _ => 0,
    }
}

/// The image that an external object is, if it is one.
pub open spec fn image_of(object: PdfValue) -> Option<ImageModel> {
    match object {
        PdfValue::Stream(dictionary, _) => match entry(dictionary, "Subtype"@) {
            Some(subtype) => if name_text(subtype) == Some("Image"@) {
                Some(
                    ImageModel {
                        format: image_format(dictionary),
                        width_px: pixels(dictionary, "Width"@),
                        height_px: pixels(dictionary, "Height"@),
                    },
                )
            } else {
                None
            },
            None => None,
        },
        _ => None,
    }
}

/// The images among the entries from the `k`-th on, added to those before,
/// with the budget that is left and whether it lasted. Each entry costs a
/// floor before it is looked at.
pub open spec fn scanned(objects: Objects, entries: Entries, k: int, images: Map<Seq<char>, ImageModel>, budget: nat)
    -> (Map<Seq<char>, ImageModel>, nat, bool)
    decreases entries.len() - k,
{
    if k >= entries.len() {
        (images, budget, true)
    } else {
        let left = less(budget, PDF_CONTENT_STREAM_COST_FLOOR_BYTES as nat);
        if left == 0 {
            (images, left, false)
        } else {
            scanned(objects, entries, k + 1, with_entry(objects, images, entries[k]), left)
        }
    }
}

/// The images with that of an entry, if it leads to one.
pub open spec fn with_entry(objects: Objects, images: Map<Seq<char>, ImageModel>, item: (Seq<u8>, PdfValue)) -> Map<
    Seq<char>,
    ImageModel,
> {
    match dereferenced(objects, item.1, None, deref_limit()) {
        Some((_, target)) => match image_of(target) {
            Some(image) => images.insert(lossy_text(item.0), image),
            None => images,
        },
        None => images,
    }
}

/// The images that resources declare.
pub open spec fn images_in(objects: Objects, resources: Entries, budget: nat) -> (Map<Seq<char>, ImageModel>, nat, bool) {
    match dictionary_under(objects, resources, "XObject"@) {
        Some((_, entries)) => scanned(objects, entries, 0, Map::empty(), budget),
        None => (Map::empty(), budget, true),
    }
}

proof fn lemma_scan_spends(objects: Objects, entries: Entries, k: int, images: Map<Seq<char>, ImageModel>, budget: nat)
    ensures
        scanned(objects, entries, k, images, budget).1 <= budget,
    decreases entries.len() - k,
{
    if k < entries.len() {
        lemma_scan_spends(
            objects,
            entries,
            k + 1,
            with_entry(objects, images, entries[k]),
            less(budget, PDF_CONTENT_STREAM_COST_FLOOR_BYTES as nat),
        );
    }
}

/// Looking for images only ever spends the budget.
pub proof fn lemma_images_spend(objects: Objects, resources: Entries, budget: nat)
    ensures
        images_in(objects, resources, budget).1 <= budget,
{
    if let Some((_, entries)) = dictionary_under(objects, resources, "XObject"@) {
        lemma_scan_spends(objects, entries, 0, Map::empty(), budget);
    }
}

fn read_pixels(dict: &lopdf::Dictionary, key: &str) -> (r: u32)
    ensures
        r == pixels(dictionary_entries(*dict), key@),
{
    match get(dict, key) {
        Some(object) => match shape(object) {
            Shape::Integer(n) => n as u32,
            _ => 0,
        },
        None => 0,
    }
}

fn read_image(object: &lopdf::Object) -> (r: Option<ImageXObject>)
    ensures
        match r {
            Some(image) => image_of(object_value(*object)) == Some(image@),
            None => image_of(object_value(*object)) is None,
        },
{
    match shape(object) {
        Shape::Stream(stream) => {
            let dict = parts(stream).0;
            match get(dict, "Subtype") {
                Some(subtype) => match obj_as_name_str(subtype) {
                    Some(name) => {
                        if *name == *"Image" {
                            Some(
                                ImageXObject {
                                    format: detect_image_format(dict),
                                    width_px: read_pixels(dict, "Width"),
                                    height_px: read_pixels(dict, "Height"),
                                },
                            )
                        } else {
                            None
                        }
                    },
                    None => None,
                },
                None => None,
            }
        },
        _ => None,
    }
}

/// Collects the images that resources declare, charging `budget` for each
/// entry looked at, and says whether the budget lasted.
pub fn collect_image_xobjects(doc: &lopdf::Document, resources: &lopdf::Dictionary, budget: &mut usize) -> (r: (ImageXObjects, bool))
    ensures
        (image_models(r.0@), *final(budget) as nat, r.1) == images_in(
            document_objects(*doc),
            dictionary_entries(*resources),
            *old(budget) as nat,
        ),
{
    let ghost objects = document_objects(*doc);
    let mut images: ImageXObjects = NameMap::new();
    assert(image_models(images@) =~= Map::<Seq<char>, ImageModel>::empty());
    let xobjects = match get(resources, "XObject") {
        Some(object) => match dereference(doc, object) {
            Some((_, target)) => match shape(target) {
                Shape::Dictionary(xobjects) => xobjects,
                _ => {
                    return (images, true);
                },
            },
            None => {
                return (images, true);
            },
        },
        None => {
            return (images, true);
        },
    };
    let ghost entries = dictionary_entries(*xobjects);
    let ghost whole = scanned(objects, entries, 0, Map::empty(), *budget as nat);
    let mut k: usize = 0;
    loop
        invariant
            k + *budget <= *old(budget),
            k <= entries.len(),
            objects == document_objects(*doc),
            entries == dictionary_entries(*xobjects),
            scanned(objects, entries, k as int, image_models(images@), *budget as nat) == whole,
            whole == images_in(objects, dictionary_entries(*resources), *old(budget) as nat),
        decreases entries.len() - k,
    {
        let (name, object) = match entry_at(xobjects, k) {
            Some(item) => item,
            None => {
                return (images, true);
            },
        };
        *budget = budget.saturating_sub(PDF_CONTENT_STREAM_COST_FLOOR_BYTES);
        if *budget == 0 {
            return (images, false);
        }
        if let Some((_, target)) = dereference(doc, object) {
            if let Some(image) = read_image(target) {
                let ghost before = images@;
                let ghost model = image@;
                let text: String = from_utf8_lossy(name);
                let ghost key = text@;
                images.insert(text, image);
                assert(image_models(images@) =~= image_models(before).insert(key, model));
            }
        }
        k = k + 1;
    }
}

/// The dictionary that an origin stands for.
pub open spec fn dictionary_from(objects: Objects, origin: ResourcesOrigin) -> Option<Entries> {
    match origin {
        ResourcesOrigin::Object(id) => if objects.contains_key(id) && objects[id] is Dictionary {
            Some(objects[id]->Dictionary_0)
        } else {
            None
        },
        ResourcesOrigin::DirectIn(owner) => match object_at(objects, owner) {
            Some(PdfValue::Dictionary(holder)) => match entry(holder, "Resources"@) {
                Some(PdfValue::Dictionary(resources)) => Some(resources),
                _ => None,
            },
            _ => None,
        },
    }
}

/// A dereference that followed links ends on an object of the document; one
/// that followed none ends where it began.
proof fn lemma_dereferenced_target(objects: Objects, value: PdfValue, last: Option<ObjectKey>, links: nat)
    requires
        last matches Some(id) ==> objects.contains_key(id) && objects[id] == value,
    ensures
        dereferenced(objects, value, last, links) matches Some((end, target)) ==> match end {
            Some(id) => objects.contains_key(id) && objects[id] == target,
            None => last is None && target == value,
        },
    decreases links,
{
    if value is Reference && links > 0 && objects.contains_key(value->Reference_0) {
        let id = value->Reference_0;
        lemma_dereferenced_target(objects, objects[id], Some(id), (links - 1) as nat);
    }
}

/// The resources found for a node are those that their origin stands for.
pub proof fn law_origin_stands_for_the_resources(objects: Objects, node: ObjectKey, hops: nat)
    ensures
        resources_of(objects, node, hops) matches Some((origin, resources)) ==> dictionary_from(objects, origin) == Some(
            resources,
        ),
    decreases hops,
{
    let (owner, left) = canonical(objects, node, hops);
    lemma_canonical_spends(objects, node, hops);
    if let Some(owner) = owner {
        if let Some(PdfValue::Dictionary(dictionary)) = object_at(objects, owner) {
            if let Some(value) = entry(dictionary, "Resources"@) {
                lemma_dereferenced_target(objects, value, None, deref_limit());
            }
            if let Some(PdfValue::Reference(parent)) = entry(dictionary, "Parent"@) {
                if left > 0 {
                    law_origin_stands_for_the_resources(objects, parent, (left - 1) as nat);
                }
            }
        }
    }
}

/// Two pages whose external objects have one origin declare the same images,
/// and looking for them costs the same, so a scan of one serves the other.
pub proof fn law_one_origin_one_set_of_images(objects: Objects, a: ObjectKey, b: ObjectKey, hops: nat, budget: nat)
    ensures
        match (resources_of(objects, a, hops), resources_of(objects, b, hops)) {
            (Some((from_a, in_a)), Some((from_b, in_b))) => xobjects_origin_of(objects, in_a, from_a) == xobjects_origin_of(
                objects,
                in_b,
                from_b,
            ) ==> images_in(objects, in_a, budget) == images_in(objects, in_b, budget),
            _ => true,
        },
{
    law_origin_stands_for_the_resources(objects, a, hops);
    law_origin_stands_for_the_resources(objects, b, hops);
    if let (Some((_, in_a)), Some((_, in_b))) = (resources_of(objects, a, hops), resources_of(objects, b, hops)) {
        if let Some(value) = entry(in_a, "XObject"@) {
            lemma_dereferenced_target(objects, value, None, deref_limit());
        }
        if let Some(value) = entry(in_b, "XObject"@) {
            lemma_dereferenced_target(objects, value, None, deref_limit());
        }
    }
}

proof fn lemma_lasting_scans_agree(
    objects: Objects,
    entries: Entries,
    k: int,
    images: Map<Seq<char>, ImageModel>,
    one: nat,
    other: nat,
)
    requires
        scanned(objects, entries, k, images, one).2,
        scanned(objects, entries, k, images, other).2,
    ensures
        scanned(objects, entries, k, images, one).0 == scanned(objects, entries, k, images, other).0,
    decreases entries.len() - k,
{
    if k < entries.len() {
        lemma_lasting_scans_agree(
            objects,
            entries,
            k + 1,
            with_entry(objects, images, entries[k]),
            less(one, PDF_CONTENT_STREAM_COST_FLOOR_BYTES as nat),
            less(other, PDF_CONTENT_STREAM_COST_FLOOR_BYTES as nat),
        );
    }
}

/// The images found do not depend on the budget, as long as it lasts.
pub proof fn law_images_do_not_depend_on_the_budget(objects: Objects, resources: Entries, one: nat, other: nat)
    requires
        images_in(objects, resources, one).2,
        images_in(objects, resources, other).2,
    ensures
        images_in(objects, resources, one).0 == images_in(objects, resources, other).0,
{
    if let Some((_, entries)) = dictionary_under(objects, resources, "XObject"@) {
        lemma_lasting_scans_agree(objects, entries, 0, Map::empty(), one, other);
    }
}

/// Whether a node of the page tree is a dictionary of its own without usable resources,
/// and another is its parent.
pub open spec fn leaves_to_parent(objects: Objects, node: ObjectKey, parent: ObjectKey) -> bool {
    &&& objects.contains_key(node)
    &&& objects[node] matches PdfValue::Dictionary(dictionary) && dictionary_under(
        objects,
        dictionary,
        "Resources"@,
    ) is None && entry(dictionary, "Parent"@) == Some(PdfValue::Reference(parent))
}

/// The resources of a page are those of the nearest node above it that has any, the page
/// itself among them, however many nodes there are in between.
pub proof fn law_resources_are_inherited(
    objects: Objects,
    chain: Seq<ObjectKey>,
    hops: nat,
    dictionary: Entries,
    id: Option<ObjectKey>,
    resources: Entries,
)
    requires
        0 < chain.len() <= hops + 1,
        forall|i: int| 0 <= i < chain.len() - 1 ==> leaves_to_parent(objects, #[trigger] chain[i], chain[i + 1]),
        objects.contains_key(chain.last()),
        objects[chain.last()] == PdfValue::Dictionary(dictionary),
        dictionary_under(objects, dictionary, "Resources"@) == Some((id, resources)),
    ensures
        resources_of(objects, chain[0], hops) == Some(
            (
                match id {
                    Some(own) => ResourcesOrigin::Object(own),
                    None => ResourcesOrigin::DirectIn(chain.last()),
                },
                resources,
            ),
        ),
    decreases chain.len(),
{
    assert(canonical(objects, chain.last(), hops) == (Some(chain.last()), hops));
    if chain.len() > 1 {
        assert(leaves_to_parent(objects, chain[0], chain[1]));
        let rest = chain.drop_first();
        assert forall|i: int| 0 <= i < rest.len() - 1 implies leaves_to_parent(
            objects,
            #[trigger] rest[i],
            rest[i + 1],
        ) by {
            assert(leaves_to_parent(objects, chain[i + 1], chain[i + 2]));
        }
        assert(rest.last() == chain.last());
        law_resources_are_inherited(objects, rest, (hops - 1) as nat, dictionary, id, resources);
        assert(canonical(objects, chain[0], hops) == (Some(chain[0]), hops));
        assert(rest[0] == chain[1]);
    } else {
        assert(chain[0] == chain.last());
    }
}

/// A page with no resources above it has none.
pub proof fn law_no_resources_are_made_up(objects: Objects, node: ObjectKey, hops: nat)
    requires
        objects.contains_key(node),
        objects[node] matches PdfValue::Dictionary(dictionary) && dictionary_under(
            objects,
            dictionary,
            "Resources"@,
        ) is None && !(entry(dictionary, "Parent"@) matches Some(PdfValue::Reference(_))),
    ensures
        resources_of(objects, node, hops) is None,
{
    assert(canonical(objects, node, hops) == (Some(node), hops));
}

/// Each of the filters that encode images stands for its format.
pub proof fn law_filters_have_their_formats(filter: Seq<char>)
    ensures
        filter_format("DCTDecode"@) == "jpeg"@,
        filter_format("JPXDecode"@) == "jp2"@,
        filter_format("CCITTFaxDecode"@) == "tiff"@,
        filter_format("FlateDecode"@) == "flate"@,
        filter != "DCTDecode"@ && filter != "JPXDecode"@ && filter != "CCITTFaxDecode"@ && filter != "FlateDecode"@
            ==> filter_format(filter) == "unknown"@,
{
    reveal_strlit("DCTDecode");
    reveal_strlit("JPXDecode");
    reveal_strlit("CCITTFaxDecode");
    reveal_strlit("FlateDecode");
    assert("DCTDecode"@[0] != "JPXDecode"@[0]);
    assert("DCTDecode"@.len() != "CCITTFaxDecode"@.len());
    assert("DCTDecode"@.len() != "FlateDecode"@.len());
    assert("JPXDecode"@.len() != "CCITTFaxDecode"@.len());
    assert("JPXDecode"@.len() != "FlateDecode"@.len());
    assert("CCITTFaxDecode"@.len() != "FlateDecode"@.len());
}

/// The last of several filters tells the format of an image, whatever comes before it.
pub proof fn law_the_last_filter_tells_the_format(dictionary: Entries, filters: Seq<PdfValue>, name: Seq<u8>)
    requires
        entry(dictionary, "Filter"@) == Some(PdfValue::Array(filters.push(PdfValue::Name(name)))),
        name_text(PdfValue::Name(name)) is Some,
    ensures
        image_format(dictionary) == filter_format(name_text(PdfValue::Name(name))->0),
{
    assert(filters.push(PdfValue::Name(name)).last() == PdfValue::Name(name));
}

/// An image has the format of its filters and the size that its dictionary gives.
pub proof fn law_images_are_described(dictionary: Entries, data: Seq<u8>, subtype: PdfValue, width: i64, height: i64)
    requires
        entry(dictionary, "Subtype"@) == Some(subtype),
        name_text(subtype) == Some("Image"@),
        entry(dictionary, "Width"@) == Some(PdfValue::Integer(width)),
        entry(dictionary, "Height"@) == Some(PdfValue::Integer(height)),
        0 <= width <= u32::MAX,
        0 <= height <= u32::MAX,
    ensures
        image_of(PdfValue::Stream(dictionary, data)) matches Some(image) && image.width_px == width && image.height_px
            == height && image.format == image_format(dictionary),
{
}

/// The image that an entry of a dictionary leads to, if it leads to one.
pub open spec fn image_under(objects: Objects, item: (Seq<u8>, PdfValue)) -> Option<ImageModel> {
    match dereferenced(objects, item.1, None, deref_limit()) {
        Some((_, target)) => image_of(target),
        None => None,
    }
}

proof fn lemma_scan_finds(
    objects: Objects,
    entries: Entries,
    k: int,
    images: Map<Seq<char>, ImageModel>,
    budget: nat,
    name: Seq<char>,
    at: int,
)
    requires
        0 <= k <= entries.len(),
        scanned(objects, entries, k, images, budget).2,
        0 <= at < entries.len(),
        lossy_text(entries[at].0) == name,
        image_under(objects, entries[at]) is Some,
        forall|i: int|
            at < i < entries.len() && lossy_text((#[trigger] entries[i]).0) == name ==> image_under(objects, entries[i]) is None,
        at < k ==> images.contains_key(name) && Some(images[name]) == image_under(objects, entries[at]),
    ensures
        scanned(objects, entries, k, images, budget).0.contains_key(name),
        Some(scanned(objects, entries, k, images, budget).0[name]) == image_under(objects, entries[at]),
    decreases entries.len() - k,
{
    if k < entries.len() {
        let left = less(budget, PDF_CONTENT_STREAM_COST_FLOOR_BYTES as nat);
        let next = with_entry(objects, images, entries[k]);
        if at < k {
            assert(lossy_text(entries[k].0) == name ==> image_under(objects, entries[k]) is None);
        }
        lemma_scan_finds(objects, entries, k + 1, next, left, name, at);
    }
}

proof fn lemma_scan_invents_nothing(
    objects: Objects,
    entries: Entries,
    k: int,
    images: Map<Seq<char>, ImageModel>,
    budget: nat,
    name: Seq<char>,
)
    requires
        0 <= k <= entries.len(),
        !images.contains_key(name),
        forall|i: int|
            0 <= i < entries.len() && lossy_text((#[trigger] entries[i]).0) == name ==> image_under(objects, entries[i]) is None,
    ensures
        !scanned(objects, entries, k, images, budget).0.contains_key(name),
    decreases entries.len() - k,
{
    if k < entries.len() {
        let left = less(budget, PDF_CONTENT_STREAM_COST_FLOOR_BYTES as nat);
        assert(lossy_text(entries[k].0) == name ==> image_under(objects, entries[k]) is None);
        lemma_scan_invents_nothing(objects, entries, k + 1, with_entry(objects, images, entries[k]), left, name);
    }
}

/// Where the budget lasts, every image that the external objects hold is found under its
/// name, that of the last such entry where a name comes twice, and nothing else is.
pub proof fn law_all_images_are_found(
    objects: Objects,
    resources: Entries,
    entries: Entries,
    id: Option<ObjectKey>,
    budget: nat,
    name: Seq<char>,
    at: int,
)
    requires
        dictionary_under(objects, resources, "XObject"@) == Some((id, entries)),
        images_in(objects, resources, budget).2,
    ensures
        (0 <= at < entries.len() && lossy_text(entries[at].0) == name && image_under(objects, entries[at]) is Some && (
        forall|i: int|
            at < i < entries.len() && lossy_text((#[trigger] entries[i]).0) == name ==> image_under(objects, entries[i]) is None))
            ==> images_in(objects, resources, budget).0.contains_key(name) && Some(
            images_in(objects, resources, budget).0[name],
        ) == image_under(objects, entries[at]),
        (forall|i: int|
            0 <= i < entries.len() && lossy_text((#[trigger] entries[i]).0) == name ==> image_under(objects, entries[i]) is None)
            ==> !images_in(objects, resources, budget).0.contains_key(name),
{
    if 0 <= at < entries.len() && lossy_text(entries[at].0) == name && image_under(objects, entries[at]) is Some && (
    forall|i: int|
        at < i < entries.len() && lossy_text((#[trigger] entries[i]).0) == name ==> image_under(objects, entries[i]) is None) {
        lemma_scan_finds(objects, entries, 0, Map::empty(), budget, name, at);
    }
    if forall|i: int|
        0 <= i < entries.len() && lossy_text((#[trigger] entries[i]).0) == name ==> image_under(objects, entries[i]) is None {
        lemma_scan_invents_nothing(objects, entries, 0, Map::empty(), budget, name);
    }
}

/// External objects are told apart by the object that declares them, or by the resources
/// that they are written in.
pub proof fn law_origins_tell_where_images_are_declared(
    objects: Objects,
    resources: Entries,
    origin: ResourcesOrigin,
    id: ObjectKey,
    entries: Entries,
)
    ensures
        entry(resources, "XObject"@) == Some(PdfValue::Reference(id)) && objects.contains_key(id) && objects[id]
            == PdfValue::Dictionary(entries) ==> xobjects_origin_of(objects, resources, origin) == XObjectsOrigin::Object(id),
        entry(resources, "XObject"@) == Some(PdfValue::Dictionary(entries)) ==> xobjects_origin_of(
            objects,
            resources,
            origin,
        ) == XObjectsOrigin::DirectIn(origin),
        entry(resources, "XObject"@) is None ==> xobjects_origin_of(objects, resources, origin) == XObjectsOrigin::DirectIn(
            origin,
        ),
{
    reveal_with_fuel(dereferenced, 3);
}

} // verus!
