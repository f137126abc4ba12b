//! Which images a whole document places.
//!
//! The images of a document are those that its pages place, one page after the other.
//! A pass that its limits do not stop reports all of them.

use crate::inspect::InspectLimits;
use crate::inspect::content::{
    PageContentModel, cache_agrees, gathered, law_ready_content_is_the_pages_streams, less, page_bytes,
};
use crate::inspect::image_pass::{
    ImagePassModel, ImageStepModel, ImageWalkModel, Scans, fresh_image_pass, image_page, image_page_start,
    image_step, image_steps, image_walk, page_images,
};
use crate::inspect::pages::{lemma_affordable, operations_of_pages, operations_on, streams_cost};
use crate::inspect::pdf::{Entries, ObjectKey, Objects, content_operations, content_streams};
use crate::inspect::placing::{
    PlacedImage, Scale, law_steps_lead_to_the_images, page_pictures, replayed_images,
};
use crate::inspect::resources::{
    ImageModel, XObjectsOrigin, dictionary_under, images_in, law_one_origin_one_set_of_images, resources_of, scanned,
    with_entry, xobjects_origin_of,
};
use crate::inspect::steps::{StepModel, steps_of};
use crate::limits::{MAX_PDF_CONTENT_BYTES, MAX_PDF_PARENT_DEPTH, PDF_CONTENT_STREAM_COST_FLOOR_BYTES};
use vstd::prelude::*;

verus! {

/// The images among the first `k` entries of a dictionary.
pub open spec fn images_among(objects: Objects, entries: Entries, k: int) -> Map<Seq<char>, ImageModel>
    decreases k,
{
    if k <= 0 || k > entries.len() {
        Map::empty()
    } else {
        with_entry(objects, images_among(objects, entries, k - 1), entries[k - 1])
    }
}

/// The entries that declare the external objects of some resources.
pub open spec fn declaring(objects: Objects, resources: Entries) -> Entries {
    match dictionary_under(objects, resources, "XObject"@) {
        Some((_, entries)) => entries,
        None => Seq::empty(),
    }
}

/// The images that a page can place.
pub open spec fn declared_on(objects: Objects, id: ObjectKey) -> Map<Seq<char>, ImageModel> {
    match resources_of(objects, id, 128) {
        Some((_, resources)) => {
            let entries = declaring(objects, resources);
            images_among(objects, entries, entries.len() as int)
        },
        None => Map::empty(),
    }
}

/// The images that the first `k` pages place; pages are numbered from 1.
pub open spec fn images_of_pages(objects: Objects, pages: Seq<ObjectKey>, k: int, scale: Scale) -> Seq<PlacedImage>
    decreases k,
{
    if k <= 0 || k > pages.len() {
        Seq::empty()
    } else {
        let ops = operations_on(objects, pages[k - 1]);
        images_of_pages(objects, pages, k - 1, scale) + page_pictures(
            k as u32,
            declared_on(objects, pages[k - 1]),
            ops,
            ops.len() as int,
            scale,
        ).images
    }
}

/// What looking for the images of a page costs at most.
pub open spec fn scan_cost(objects: Objects, id: ObjectKey) -> nat {
    match resources_of(objects, id, 128) {
        Some((_, resources)) => 1024 * declaring(objects, resources).len(),
        None => 0,
    }
}

/// What the first `k` pages cost at most.
pub open spec fn image_pages_cost(objects: Objects, pages: Seq<ObjectKey>, k: int) -> nat
    decreases k,
{
    if k <= 0 || k > pages.len() {
        0
    } else {
        image_pages_cost(objects, pages, k - 1) + 1024 + scan_cost(objects, pages[k - 1]) + streams_cost(
            objects,
            content_streams(objects, pages[k - 1]),
            0,
        )
    }
}

/// Whether a pass over a document reaches none of its limits.
pub open spec fn within_image_limits(objects: Objects, pages: Seq<ObjectKey>, limits: InspectLimits, scale: Scale) -> bool {
    let n = pages.len() as int;
    &&& images_of_pages(objects, pages, n, scale).len() < limits.items
    &&& operations_of_pages(objects, pages, n) < limits.operations
    &&& image_pages_cost(objects, pages, n) < limits.content_total_bytes
}

proof fn lemma_scan_lasts(objects: Objects, entries: Entries, k: int, budget: nat)
    requires
        0 <= k <= entries.len(),
        1024 * (entries.len() - k) < budget,
    ensures
        ({
            let (images, left, lasted) = scanned(objects, entries, k, images_among(objects, entries, k), budget);
            &&& lasted
            &&& left + 1024 * (entries.len() - k) >= budget
            &&& images == images_among(objects, entries, entries.len() as int)
        }),
    decreases entries.len() - k,
{
    if k < entries.len() {
        let left = less(budget, PDF_CONTENT_STREAM_COST_FLOOR_BYTES as nat);
        lemma_scan_lasts(objects, entries, k + 1, left);
    }
}

proof fn lemma_images_in(objects: Objects, resources: Entries, budget: nat)
    requires
        1024 * declaring(objects, resources).len() < budget,
    ensures
        ({
            let (images, left, lasted) = images_in(objects, resources, budget);
            let entries = declaring(objects, resources);
            &&& lasted
            &&& left + 1024 * entries.len() >= budget
            &&& images == images_among(objects, entries, entries.len() as int)
        }),
{
    let entries = declaring(objects, resources);
    if dictionary_under(objects, resources, "XObject"@) is Some {
        lemma_scan_lasts(objects, entries, 0, budget);
    }
}

/// Where the external objects of a page are declared.
spec fn origin_on(objects: Objects, id: ObjectKey) -> XObjectsOrigin {
    let (from, resources) = resources_of(objects, id, 128)->0;
    xobjects_origin_of(objects, resources, from)
}

/// Whether the images found before are those that the pages declare.
spec fn scans_agree(objects: Objects, scans: Scans) -> bool {
    forall|id: ObjectKey|
        resources_of(objects, id, 128) is Some && scans.contains_key(#[trigger] origin_on(objects, id)) ==> scans[origin_on(
            objects,
            id,
        )] == declared_on(objects, id)
}

proof fn lemma_same_origin(objects: Objects, a: ObjectKey, b: ObjectKey)
    requires
        resources_of(objects, a, 128) is Some,
        resources_of(objects, b, 128) is Some,
        ({
            let (from_a, in_a) = resources_of(objects, a, 128)->0;
            let (from_b, in_b) = resources_of(objects, b, 128)->0;
            xobjects_origin_of(objects, in_a, from_a) == xobjects_origin_of(objects, in_b, from_b)
        }),
    ensures
        declared_on(objects, a) == declared_on(objects, b),
{
    let (from_a, in_a) = resources_of(objects, a, 128)->0;
    let (from_b, in_b) = resources_of(objects, b, 128)->0;
    let budget = (1024 * declaring(objects, in_a).len() + 1024 * declaring(objects, in_b).len() + 1) as nat;
    law_one_origin_one_set_of_images(objects, a, b, 128, budget);
    lemma_images_in(objects, in_a, budget);
    lemma_images_in(objects, in_b, budget);
}

proof fn lemma_page_images_found(objects: Objects, id: ObjectKey, pass: ImagePassModel)
    requires
        resources_of(objects, id, 128) is Some,
        scans_agree(objects, pass.scans),
        scan_cost(objects, id) < pass.content,
    ensures
        ({
            let (from, resources) = resources_of(objects, id, 128)->0;
            let (images, next, lasted) = page_images(objects, xobjects_origin_of(objects, resources, from), resources, pass);
            &&& lasted
            &&& images == declared_on(objects, id)
            &&& next == ImagePassModel { content: next.content, scans: next.scans, ..pass }
            &&& next.content + scan_cost(objects, id) >= pass.content
            &&& scans_agree(objects, next.scans)
        }),
{
    let (from, resources) = resources_of(objects, id, 128)->0;
    let origin = xobjects_origin_of(objects, resources, from);
    assert(origin == origin_on(objects, id));
    let (images, next, lasted) = page_images(objects, origin, resources, pass);
    if !pass.scans.contains_key(origin) {
        lemma_images_in(objects, resources, pass.content);
        assert forall|other: ObjectKey|
            resources_of(objects, other, 128) is Some && next.scans.contains_key(
                #[trigger] origin_on(objects, other),
            ) implies next.scans[origin_on(objects, other)] == declared_on(objects, other) by {
            if origin_on(objects, other) == origin {
                lemma_same_origin(objects, id, other);
            }
        }
    }
}

spec fn counted(steps: Seq<ImageStepModel>, items: nat, scale: Scale) -> bool {
    items == replayed_images(steps, scale).1.len()
}

proof fn lemma_walk_counted(
    walk: ImageWalkModel,
    page: u32,
    declared: Map<Seq<char>, ImageModel>,
    ops: Seq<StepModel>,
    k: int,
    limits: InspectLimits,
    scale: Scale,
)
    requires
        0 <= k,
        counted(walk.steps, walk.items, scale),
    ensures
        ({
            let end = image_walk(walk, page, declared, ops, k, limits);
            counted(end.steps, end.items, scale)
        }),
    decreases ops.len() - k,
{
    if k < ops.len() && walk.items < limits.items {
        let next = image_step(walk, page, declared, ops[k]);
        if next.steps != walk.steps {
            assert(next.steps.drop_last() =~= walk.steps);
        }
        lemma_walk_counted(next, page, declared, ops, k + 1, limits, scale);
    }
}

proof fn lemma_pictured_stays(
    page: u32,
    declared: Map<Seq<char>, ImageModel>,
    ops: Seq<StepModel>,
    n: int,
    k: int,
    scale: Scale,
)
    requires
        0 <= n <= k <= ops.len(),
    ensures
        page_pictures(page, declared, ops, n, scale).images.len() <= page_pictures(page, declared, ops, k, scale).images.len(),
        declared == Map::<Seq<char>, ImageModel>::empty() ==> page_pictures(page, declared, ops, k, scale).images.len() == 0,
    decreases k,
{
    if n < k {
        lemma_pictured_stays(page, declared, ops, n, k - 1, scale);
    } else if k > 0 {
        lemma_pictured_stays(page, declared, ops, n - 1, k - 1, scale);
    }
}

proof fn lemma_image_pages_grow(objects: Objects, pages: Seq<ObjectKey>, i: int, k: int, scale: Scale)
    requires
        0 <= i <= k <= pages.len(),
    ensures
        images_of_pages(objects, pages, i, scale).len() <= images_of_pages(objects, pages, k, scale).len(),
        operations_of_pages(objects, pages, i) <= operations_of_pages(objects, pages, k),
        image_pages_cost(objects, pages, i) <= image_pages_cost(objects, pages, k),
    decreases k - i,
{
    if i < k {
        lemma_image_pages_grow(objects, pages, i, k - 1, scale);
    }
}

/// A page whose content was gathered adds its images.
proof fn lemma_page_places(
    objects: Objects,
    pages: Seq<ObjectKey>,
    i: int,
    pass: ImagePassModel,
    limits: InspectLimits,
    scale: Scale,
    bytes: Seq<u8>,
)
    requires
        0 <= i < pages.len() < u32::MAX,
        within_image_limits(objects, pages, limits, scale),
        replayed_images(pass.steps, scale).1 == images_of_pages(objects, pages, i, scale),
        counted(pass.steps, pass.items, scale),
        bytes == page_bytes(objects, content_streams(objects, pages[i]), 0),
        bytes.len() <= MAX_PDF_CONTENT_BYTES,
        content_operations(bytes) is Some,
    ensures
        ({
            let ops = steps_of(content_operations(bytes)->0);
            let declared = declared_on(objects, pages[i]);
            let end = image_walk(image_page_start(pass.steps, pass.items), (i + 1) as u32, declared, ops, 0, limits);
            &&& replayed_images(end.steps, scale).1 == images_of_pages(objects, pages, i + 1, scale)
            &&& counted(end.steps, end.items, scale)
        }),
{
    let ops = steps_of(content_operations(bytes)->0);
    let declared = declared_on(objects, pages[i]);
    let page = (i + 1) as u32;
    let start = image_page_start(pass.steps, pass.items);
    let end = image_walk(start, page, declared, ops, 0, limits);
    let n = law_steps_lead_to_the_images(pass.steps, pass.items, page, declared, ops, limits, scale);
    assert(start.steps.drop_last() =~= pass.steps);
    lemma_walk_counted(start, page, declared, ops, 0, limits, scale);
    assert(ops == operations_on(objects, pages[i]));
    if n < ops.len() {
        lemma_pictured_stays(page, declared, ops, n, ops.len() as int, scale);
        lemma_image_pages_grow(objects, pages, i + 1, pages.len() as int, scale);
        assert(false);
    }
}

/// One page of the pass.
proof fn lemma_page_reported(
    objects: Objects,
    pages: Seq<ObjectKey>,
    i: int,
    pass: ImagePassModel,
    limits: InspectLimits,
    scale: Scale,
)
    requires
        0 <= i < pages.len() < u32::MAX,
        within_image_limits(objects, pages, limits, scale),
        replayed_images(pass.steps, scale).1 == images_of_pages(objects, pages, i, scale),
        counted(pass.steps, pass.items, scale),
        pass.content > scan_cost(objects, pages[i]) + streams_cost(objects, content_streams(objects, pages[i]), 0),
        cache_agrees(objects, pass.cache),
        scans_agree(objects, pass.scans),
    ensures
        image_page(objects, pages[i], (i + 1) as u32, pass, limits) is Some,
        ({
            let next = image_page(objects, pages[i], (i + 1) as u32, pass, limits)->0;
            let cost = scan_cost(objects, pages[i]) + streams_cost(objects, content_streams(objects, pages[i]), 0);
            &&& replayed_images(next.steps, scale).1 == images_of_pages(objects, pages, i + 1, scale)
            &&& counted(next.steps, next.items, scale)
            &&& next.content + cost >= pass.content
            &&& next.operations + operations_on(objects, pages[i]).len() >= pass.operations
            &&& cache_agrees(objects, next.cache)
            &&& scans_agree(objects, next.scans)
        }),
{
    let id = pages[i];
    let ids = content_streams(objects, id);
    let page = (i + 1) as u32;
    let declared = declared_on(objects, id);
    let ops = operations_on(objects, id);
    let before = images_of_pages(objects, pages, i, scale);
    let more = page_pictures(page, declared, ops, ops.len() as int, scale).images;
    if declared == Map::<Seq<char>, ImageModel>::empty() {
        lemma_pictured_stays(page, declared, ops, 0, ops.len() as int, scale);
    }
    if more.len() == 0 {
        assert(before + more =~= before);
    }
    if let Some((from, resources)) = resources_of(objects, id, MAX_PDF_PARENT_DEPTH as nat) {
        lemma_page_images_found(objects, id, pass);
        let (images, found, lasted) = page_images(objects, xobjects_origin_of(objects, resources, from), resources, pass);
        if images != Map::<Seq<char>, ImageModel>::empty() {
            let g = gathered(objects, ids, 0, Seq::empty(), found.content, found.cache);
            lemma_affordable(objects, ids, 0, Seq::empty(), found.content, found.cache);
            law_ready_content_is_the_pages_streams(objects, ids, found.content, found.cache);
            if let PageContentModel::Ready(bytes) = g.content {
                if content_operations(bytes) is Some {
                    lemma_page_places(objects, pages, i, found, limits, scale, bytes);
                    assert(steps_of(content_operations(bytes)->0).len() == (content_operations(bytes)->0).len());
                } else {
                    assert(ops.len() == 0);
                }
            } else {
                assert(ops.len() == 0);
            }
        }
    }
}

proof fn lemma_image_pages_reported(
    objects: Objects,
    pages: Seq<ObjectKey>,
    i: int,
    pass: ImagePassModel,
    limits: InspectLimits,
    scale: Scale,
)
    requires
        0 <= i <= pages.len() < u32::MAX,
        within_image_limits(objects, pages, limits, scale),
        replayed_images(pass.steps, scale).1 == images_of_pages(objects, pages, i, scale),
        counted(pass.steps, pass.items, scale),
        pass.operations + operations_of_pages(objects, pages, i) >= limits.operations,
        pass.content + image_pages_cost(objects, pages, i) >= limits.content_total_bytes,
        cache_agrees(objects, pass.cache),
        scans_agree(objects, pass.scans),
    ensures
        replayed_images(image_steps(objects, pages, i, pass, limits), scale).1 == images_of_pages(
            objects,
            pages,
            pages.len() as int,
            scale,
        ),
    decreases pages.len() - i,
{
    let n = pages.len() as int;
    lemma_image_pages_grow(objects, pages, i, n, scale);
    if i < n {
        lemma_image_pages_grow(objects, pages, i + 1, n, scale);
        let content = less(pass.content, PDF_CONTENT_STREAM_COST_FLOOR_BYTES as nat);
        let paid = ImagePassModel { content, ..pass };
        lemma_page_reported(objects, pages, i, paid, limits, scale);
        let next = image_page(objects, pages[i], (i + 1) as u32, paid, limits)->0;
        lemma_image_pages_reported(objects, pages, i + 1, next, limits, scale);
    }
}

/// A pass that reaches none of its limits reports every image of every page: which page it
/// is on, what it is, and by which transformation the operations of the page place it.
pub proof fn law_all_images_are_reported(objects: Objects, pages: Seq<ObjectKey>, limits: InspectLimits, scale: Scale)
    requires
        pages.len() < u32::MAX,
        within_image_limits(objects, pages, limits, scale),
    ensures
        replayed_images(image_steps(objects, pages, 0, fresh_image_pass(limits), limits), scale).1 == images_of_pages(
            objects,
            pages,
            pages.len() as int,
            scale,
        ),
{
    lemma_image_pages_reported(objects, pages, 0, fresh_image_pass(limits), limits, scale);
}

} // verus!
