//! The images that the pages of a PDF place.

use crate::inspect::InspectLimits;
use crate::inspect::content::{
    DecodedStreams, Gathered, PageContent, PageContentModel, PassWork, gather_page_content, gathered, id_code,
    lemma_gathered_spends, less, operations_in,
};
use crate::inspect::pdf::{
    Entries, ObjectKey, Objects, content_operations, content_streams, decode_content,
    document_objects, document_trailer, page_tree, tree_pages,
};
use crate::inspect::resources::{
    ImageModel, ImageXObject, ImageXObjects, ResourcesOrigin, XObjectsOrigin, collect_image_xobjects, image_models, images_in,
    lemma_images_spend, resolve_page_resources, resources_of, xobjects_origin, xobjects_origin_of,
};
use crate::inspect::steps::{
    GeometryStep, Operand, Operation, StepModel, matrix_of, name_of, operand_name, read_matrix, read_operations, steps_of,
};
use crate::limits::{MAX_PDF_GS_STACK_DEPTH, MAX_PDF_PARENT_DEPTH, PDF_CONTENT_STREAM_COST_FLOOR_BYTES};
use crate::model::{group_views, views};
use std::collections::BTreeMap;
use vstd::prelude::*;

verus! {

broadcast use {group_views, vstd::std_specs::btree::group_btree_axioms, vstd::laws_cmp::group_laws_cmp};

/// An image that a page places in the unit square of its coordinates.
#[derive(Debug, PartialEq)]
pub struct ImageItem {
    pub page: u32,
    pub format: String,
    pub width_px: u32,
    pub height_px: u32,
}

pub ghost struct ImageItemModel {
    pub page: u32,
    pub image: ImageModel,
}

impl View for ImageItem {
    type V = ImageItemModel;

    open spec fn view(&self) -> ImageItemModel {
        ImageItemModel {
            page: self.page,
            image: ImageModel { format: self.format@, width_px: self.width_px, height_px: self.height_px },
        }
    }
}

/// A step of the image pass.
#[derive(Debug, PartialEq)]
pub enum ImageStep {
    Geometry(GeometryStep),
    Place(ImageItem),
}

pub ghost enum ImageStepModel {
    Geometry(GeometryStep),
    Place(ImageItemModel),
}

impl View for ImageStep {
    type V = ImageStepModel;

    open spec fn view(&self) -> ImageStepModel {
        match self {
            ImageStep::Geometry(step) => ImageStepModel::Geometry(*step),
            ImageStep::Place(run) => ImageStepModel::Place(run@),
        }
    }
}

/// A walk over the operations of a page: how many graphics states are kept,
/// how many that were not kept are open, what was reported so far, and how
/// many images that is.
pub ghost struct ImageWalkModel {
    pub depth: nat,
    pub dropped: nat,
    pub steps: Seq<ImageStepModel>,
    pub items: nat,
}

impl ImageWalkModel {
    pub open spec fn reports(self, step: GeometryStep) -> ImageWalkModel {
        ImageWalkModel { steps: self.steps.push(ImageStepModel::Geometry(step)), ..self }
    }
}

/// What one operation does to a walk over a page that can place some images.
/// Inside a graphics state that was not kept only the ends of such states
/// count.
pub open spec fn image_step(walk: ImageWalkModel, page: u32, images: Map<Seq<char>, ImageModel>, op: StepModel) -> ImageWalkModel {
    if walk.dropped > 0 {
        if op.operator == "q"@ {
            ImageWalkModel { dropped: walk.dropped + 1, ..walk }
        } else if op.operator == "Q"@ {
            ImageWalkModel { dropped: (walk.dropped - 1) as nat, ..walk }
        } else {
            walk
        }
    } else if op.operator == "q"@ {
        if walk.depth >= MAX_PDF_GS_STACK_DEPTH {
            ImageWalkModel { dropped: 1, ..walk }
        } else {
            ImageWalkModel { depth: walk.depth + 1, ..walk.reports(GeometryStep::Save) }
        }
    } else if op.operator == "Q"@ {
        if walk.depth > 1 {
            ImageWalkModel { depth: (walk.depth - 1) as nat, ..walk.reports(GeometryStep::Restore) }
        } else {
            walk
        }
    } else if op.operator == "cm"@ {
        if op.operands.len() == 6 {
            walk.reports(GeometryStep::Concat(matrix_of(op.operands)))
        } else {
            walk
        }
    } else if op.operator == "Do"@ && op.operands.len() >= 1 {
        match name_of(op.operands[0]) {
            Some(name) => if images.contains_key(name) {
                ImageWalkModel {
                    steps: walk.steps.push(ImageStepModel::Place(ImageItemModel { page, image: images[name] })),
                    items: walk.items + 1,
                    ..walk
                }
            } else {
                walk
            },
            None => walk,
        }
    } else {
        walk
    }
}

/// The operations from the `k`-th on, until the limit is reached.
pub open spec fn image_walk(
    walk: ImageWalkModel,
    page: u32,
    images: Map<Seq<char>, ImageModel>,
    ops: Seq<StepModel>,
    k: int,
    limits: InspectLimits,
) -> ImageWalkModel
    decreases ops.len() - k,
{
    if k >= ops.len() || walk.items >= limits.items {
        walk
    } else {
        image_walk(image_step(walk, page, images, ops[k]), page, images, ops, k + 1, limits)
    }
}

/// The images found so far, by where they are declared.
pub type Scans = Map<XObjectsOrigin, Map<Seq<char>, ImageModel>>;

/// A pass over the pages: what was reported so far, what is left of the
/// budgets, the streams decoded and the images found.
pub ghost struct ImagePassModel {
    pub steps: Seq<ImageStepModel>,
    pub items: nat,
    pub content: nat,
    pub operations: nat,
    pub cache: Map<ObjectKey, Seq<u8>>,
    pub scans: Scans,
}

/// The images that a page's resources declare: found before, or found now.
pub open spec fn page_images(objects: Objects, origin: XObjectsOrigin, resources: Entries, pass: ImagePassModel) -> (
    Map<Seq<char>, ImageModel>,
    ImagePassModel,
    bool,
) {
    if pass.scans.contains_key(origin) {
        (pass.scans[origin], pass, true)
    } else {
        let (images, content, lasted) = images_in(objects, resources, pass.content);
        (images, ImagePassModel { content, scans: pass.scans.insert(origin, images), ..pass }, lasted)
    }
}

/// The walk at the start of a page.
pub open spec fn image_page_start(steps: Seq<ImageStepModel>, items: nat) -> ImageWalkModel {
    ImageWalkModel { depth: 1, dropped: 0, steps: steps.push(ImageStepModel::Geometry(GeometryStep::NewPage)), items }
}

/// The pass over a page whose content was gathered; nothing where it is the
/// last page to be looked at.
pub open spec fn placed(pass: ImagePassModel, page: u32, images: Map<Seq<char>, ImageModel>, g: Gathered, limits: InspectLimits) -> Option<
    ImagePassModel,
> {
    let paid = ImagePassModel { content: g.budget, cache: g.cache, ..pass };
    match g.content {
        PageContentModel::Exhausted => None,
        PageContentModel::Skip => Some(paid),
        PageContentModel::Ready(bytes) => match content_operations(bytes) {
            None => Some(paid),
            Some(ops) => {
                let walk = image_walk(image_page_start(pass.steps, pass.items), page, images, steps_of(ops), 0, limits);
                Some(
                    ImagePassModel {
                        steps: walk.steps,
                        items: walk.items,
                        operations: less(pass.operations, ops.len()),
                        ..paid
                    },
                )
            },
        },
    }
}

/// The pass over a page, its floor paid; nothing where it is the last page to
/// be looked at.
pub open spec fn image_page(objects: Objects, id: ObjectKey, page: u32, pass: ImagePassModel, limits: InspectLimits) -> Option<
    ImagePassModel,
> {
    match resources_of(objects, id, MAX_PDF_PARENT_DEPTH as nat) {
        None => Some(pass),
        Some((from, resources)) => {
            let (images, found, lasted) = page_images(objects, xobjects_origin_of(objects, resources, from), resources, pass);
            if !lasted {
                None
            } else if images == Map::<Seq<char>, ImageModel>::empty() {
                Some(found)
            } else {
                let g = gathered(objects, content_streams(objects, id), 0, Seq::empty(), found.content, found.cache);
                placed(found, page, images, g, limits)
            }
        },
    }
}

/// What a pass reports of the pages from the `i`-th on. Each page costs a
/// floor before it is looked at.
pub open spec fn image_steps(objects: Objects, pages: Seq<ObjectKey>, i: int, pass: ImagePassModel, limits: InspectLimits) -> Seq<
    ImageStepModel,
>
    decreases pages.len() - i,
{
    let content = less(pass.content, PDF_CONTENT_STREAM_COST_FLOOR_BYTES as nat);
    if i >= pages.len() || pass.items >= limits.items || pass.operations == 0 || content == 0 {
        pass.steps
    } else {
        match image_page(objects, pages[i], (i + 1) as u32, ImagePassModel { content, ..pass }, limits) {
            Some(next) => image_steps(objects, pages, i + 1, next, limits),
            None => pass.steps,
        }
    }
}

/// A pass that has not begun.
pub open spec fn fresh_image_pass(limits: InspectLimits) -> ImagePassModel {
    ImagePassModel {
        steps: Seq::empty(),
        items: 0,
        content: limits.content_total_bytes as nat,
        operations: limits.operations as nat,
        cache: Map::empty(),
        scans: Map::empty(),
    }
}

/// An origin as one number.
pub open spec fn origin_code(origin: XObjectsOrigin) -> int {
    match origin {
        XObjectsOrigin::Object(id) => id_code(id) * 3,
        XObjectsOrigin::DirectIn(ResourcesOrigin::Object(id)) => id_code(id) * 3 + 1,
        XObjectsOrigin::DirectIn(ResourcesOrigin::DirectIn(id)) => id_code(id) * 3 + 2,
    }
}

struct ImageScans {
    by_origin: BTreeMap<u64, ImageXObjects>,
}

impl View for ImageScans {
    type V = Scans;

    closed spec fn view(&self) -> Scans {
        Map::new(
            |origin: XObjectsOrigin| self.by_origin@.contains_key(origin_code(origin) as u64),
            |origin: XObjectsOrigin| image_models(self.by_origin@[origin_code(origin) as u64]@),
        )
    }
}

fn encode_origin(origin: XObjectsOrigin) -> (r: u64)
    ensures
        r == origin_code(origin),
{
    match origin {
        XObjectsOrigin::Object(id) => (id.0 as u64 * 65536 + id.1 as u64) * 3,
        XObjectsOrigin::DirectIn(ResourcesOrigin::Object(id)) => (id.0 as u64 * 65536 + id.1 as u64) * 3 + 1,
        XObjectsOrigin::DirectIn(ResourcesOrigin::DirectIn(id)) => (id.0 as u64 * 65536 + id.1 as u64) * 3 + 2,
    }
}

impl ImageScans {
    fn new() -> (r: Self)
        ensures
            r@ == Map::<XObjectsOrigin, Map<Seq<char>, ImageModel>>::empty(),
    {
        let r = ImageScans { by_origin: BTreeMap::new() };
        assert(r@ =~= Map::<XObjectsOrigin, Map<Seq<char>, ImageModel>>::empty());
        r
    }

    fn get(&self, origin: XObjectsOrigin) -> (r: Option<&ImageXObjects>)
        ensures
            match r {
                Some(images) => self@.contains_key(origin) && self@[origin] == image_models(images@),
                None => !self@.contains_key(origin),
            },
    {
        let code: u64 = encode_origin(origin);
        self.by_origin.get(&code)
    }

    fn insert(&mut self, origin: XObjectsOrigin, images: ImageXObjects)
        ensures
            final(self)@ == old(self)@.insert(origin, image_models(images@)),
    {
        let code: u64 = encode_origin(origin);
        self.by_origin.insert(code, images);
        proof {
            assert forall|other: XObjectsOrigin| #![trigger origin_code(other)] 0 <= origin_code(other) <= u64::MAX && (origin_code(
                other,
            ) == origin_code(origin) ==> other == origin) by {}
            assert(self@ =~= old(self)@.insert(origin, image_models(images@)));
        }
    }
}

struct ImageWalk {
    depth: usize,
    dropped: usize,
    steps: Vec<ImageStep>,
    items: usize,
}

impl View for ImageWalk {
    type V = ImageWalkModel;

    closed spec fn view(&self) -> ImageWalkModel {
        ImageWalkModel {
            depth: self.depth as nat,
            dropped: self.dropped as nat,
            steps: views(self.steps@),
            items: self.items as nat,
        }
    }
}

impl ImageWalk {
    fn report(&mut self, step: GeometryStep)
        ensures
            final(self)@ == old(self)@.reports(step),
    {
        self.steps.push(ImageStep::Geometry(step));
    }

    /// Takes one operation.
    fn apply(&mut self, page: u32, images: &ImageXObjects, op: &Operation)
        requires
            old(self).dropped < usize::MAX,
            old(self).items < usize::MAX,
        ensures
            final(self)@ == image_step(old(self)@, page, image_models(images@), op@),
            final(self).dropped <= old(self).dropped + 1,
    {
        let operator: &str = op.operator.as_str();
        let operands: &Vec<Operand> = &op.operands;
        if self.dropped > 0 {
            if *operator == *"q" {
                self.dropped = self.dropped + 1;
            } else if *operator == *"Q" {
                self.dropped = self.dropped - 1;
            }
        } else if *operator == *"q" {
            if self.depth >= MAX_PDF_GS_STACK_DEPTH {
                self.dropped = 1;
            } else {
                self.depth = self.depth + 1;
                self.report(GeometryStep::Save);
            }
        } else if *operator == *"Q" {
            if self.depth > 1 {
                self.depth = self.depth - 1;
                self.report(GeometryStep::Restore);
            }
        } else if *operator == *"cm" {
            if operands.len() == 6 {
                self.report(GeometryStep::Concat(read_matrix(operands)));
            }
        } else if *operator == *"Do" && operands.len() >= 1 {
            if let Some(name) = operand_name(&operands[0]) {
                if let Some(found) = images.get(name) {
                    let item = ImageItem {
                        page,
                        format: found.format.clone(),
                        width_px: found.width_px,
                        height_px: found.height_px,
                    };
                    assert(item@.image == image_models(images@)[name@]);
                    self.items = self.items + 1;
                    self.steps.push(ImageStep::Place(item));
                }
            }
        }
    }

    /// Begins a page.
    fn begin_page(&mut self)
        ensures
            final(self)@ == image_page_start(old(self)@.steps, old(self)@.items),
    {
        self.depth = 1;
        self.dropped = 0;
        self.report(GeometryStep::NewPage);
    }

    /// Takes the operations of a page until the limit is reached.
    fn walk(&mut self, page: u32, images: &ImageXObjects, ops: &Vec<Operation>, limits: &InspectLimits)
        requires
            old(self).dropped == 0,
        ensures
            final(self)@ == image_walk(old(self)@, page, image_models(images@), views(ops@), 0, *limits),
    {
        let mut k: usize = 0;
        while k < ops.len() && self.items < limits.items
            invariant
                k <= ops@.len(),
                self.dropped <= k,
                image_walk(self@, page, image_models(images@), views(ops@), k as int, *limits) == image_walk(
                    old(self)@,
                    page,
                    image_models(images@),
                    views(ops@),
                    0,
                    *limits,
                ),
            decreases ops@.len() - k,
        {
            self.apply(page, images, &ops[k]);
            k = k + 1;
        }
    }
}

/// Reports the images that the operations of a page place, within the limits.
pub fn images_of_operations(page: u32, images: &ImageXObjects, ops: &Vec<Operation>, limits: &InspectLimits) -> (r: Vec<
    ImageStep,
>)
    ensures
        views(r@) == image_walk(image_page_start(Seq::empty(), 0), page, image_models(images@), views(ops@), 0, *limits).steps,
{
    let mut walk = ImageWalk { depth: 1, dropped: 0, steps: Vec::new(), items: 0 };
    assert(walk@.steps =~= Seq::empty());
    walk.begin_page();
    walk.walk(page, images, ops, limits);
    walk.steps
}

/// What the first pages come to where the budget ends before they do.
proof fn lemma_first_pages_suffice(objects: Objects, pages: Seq<ObjectKey>, n: int, i: int, pass: ImagePassModel, limits: InspectLimits)
    requires
        0 <= i <= n <= pages.len(),
        pass.content + i * PDF_CONTENT_STREAM_COST_FLOOR_BYTES <= limits.content_total_bytes,
        n < pages.len() ==> limits.content_total_bytes < n * PDF_CONTENT_STREAM_COST_FLOOR_BYTES,
    ensures
        image_steps(objects, pages.take(n), i, pass, limits) == image_steps(objects, pages, i, pass, limits),
    decreases n - i,
{
    let content = less(pass.content, PDF_CONTENT_STREAM_COST_FLOOR_BYTES as nat);
    if i < n && content > 0 {
        let charged = ImagePassModel { content, ..pass };
        assert(pages.take(n)[i] == pages[i]);
        if let Some(next) = image_page(objects, pages[i], (i + 1) as u32, charged, limits) {
            if let Some((from, resources)) = resources_of(objects, pages[i], MAX_PDF_PARENT_DEPTH as nat) {
                lemma_images_spend(objects, resources, content);
                let found = page_images(objects, xobjects_origin_of(objects, resources, from), resources, charged).1;
                lemma_gathered_spends(
                    objects,
                    content_streams(objects, pages[i]),
                    0,
                    Seq::empty(),
                    found.content,
                    found.cache,
                );
            }
            assert(next.content <= content);
            lemma_first_pages_suffice(objects, pages, n, i + 1, next, limits);
        }
    }
}

/// Reports the images that the pages of a document place, within the limits.
pub fn extract_image_items(doc: &lopdf::Document, limits: &InspectLimits) -> (r: Vec<ImageStep>)
    ensures
        views(r@) == image_steps(
            document_objects(*doc),
            page_tree(document_trailer(*doc), document_objects(*doc)),
            0,
            fresh_image_pass(*limits),
            *limits,
        ),
{
    let ghost objects = document_objects(*doc);
    let pages: Vec<ObjectKey> = tree_pages(doc);
    let mut walk = ImageWalk { depth: 1, dropped: 0, steps: Vec::new(), items: 0 };
    let mut content: usize = limits.content_total_bytes;
    let mut operations: usize = limits.operations;
    let mut cache = DecodedStreams::new();
    let mut scans = ImageScans::new();
    let ghost whole = image_steps(objects, pages@, 0, fresh_image_pass(*limits), *limits);
    let mut i: usize = 0;
    while i < pages.len()
        invariant_except_break
            i <= pages@.len(),
            objects == document_objects(*doc),
            image_steps(
                objects,
                pages@,
                i as int,
                ImagePassModel {
                    steps: walk@.steps,
                    items: walk@.items,
                    content: content as nat,
                    operations: operations as nat,
                    cache: cache@,
                    scans: scans@,
                },
                *limits,
            ) == whole,
        ensures
            walk@.steps == whole,
        decreases pages@.len() - i,
    {
        if walk.items >= limits.items || operations == 0 {
            break;
        }
        content = content.saturating_sub(PDF_CONTENT_STREAM_COST_FLOOR_BYTES);
        if content == 0 {
            break;
        }
        let page: u32 = (i + 1) as u32;
        let (from, resources) = match resolve_page_resources(doc, pages[i]) {
            Some(found) => found,
            None => {
                i = i + 1;
                continue;
            },
        };
        let origin: XObjectsOrigin = xobjects_origin(doc, resources, from);
        if scans.get(origin).is_none() {
            let (found, lasted) = collect_image_xobjects(doc, resources, &mut content);
            scans.insert(origin, found);
            if !lasted {
                break;
            }
        }
        let images: &ImageXObjects = match scans.get(origin) {
            Some(images) => images,
            None => {
                break;
            },
        };
        assert(image_models(images@) == Map::<Seq<char>, ImageModel>::empty() <==> images@ == Map::<
            Seq<char>,
            ImageXObject,
        >::empty()) by {
            assert(image_models(images@).dom() =~= images@.dom());
            if images@.dom() =~= Set::empty() {
                assert(images@ =~= Map::<Seq<char>, ImageXObject>::empty());
                assert(image_models(images@) =~= Map::<Seq<char>, ImageModel>::empty());
            }
        }
        if !images.is_empty() {
            match gather_page_content(doc, pages[i], &mut content, &mut cache) {
                PageContent::Ready(bytes) => {
                    if let Some(list) = decode_content(bytes.as_slice()) {
                        operations = operations.saturating_sub(list.len());
                        walk.begin_page();
                        walk.walk(page, images, &read_operations(&list), limits);
                    }
                },
                PageContent::Skip => {},
                PageContent::Exhausted => {
                    break;
                },
            }
        }
        i = i + 1;
    }
    walk.steps
}

/// How many images are placed.
pub open spec fn placements(steps: Seq<ImageStepModel>) -> nat
    decreases steps.len(),
{
    if steps.len() == 0 {
        0
    } else if steps.last() is Place {
        placements(steps.drop_last()) + 1
    } else {
        placements(steps.drop_last())
    }
}

proof fn lemma_walk_counts(
    walk: ImageWalkModel,
    page: u32,
    images: Map<Seq<char>, ImageModel>,
    ops: Seq<StepModel>,
    k: int,
    limits: InspectLimits,
)
    requires
        walk.items == placements(walk.steps) <= limits.items,
    ensures
        ({
            let end = image_walk(walk, page, images, ops, k, limits);
            end.items == placements(end.steps) <= limits.items
        }),
    decreases ops.len() - k,
{
    if k < ops.len() && walk.items < limits.items {
        let next = image_step(walk, page, images, ops[k]);
        if next.steps != walk.steps {
            assert(next.steps.drop_last() =~= walk.steps);
        }
        lemma_walk_counts(next, page, images, ops, k + 1, limits);
    }
}

proof fn lemma_pages_count(objects: Objects, pages: Seq<ObjectKey>, i: int, pass: ImagePassModel, limits: InspectLimits)
    requires
        pass.items == placements(pass.steps) <= limits.items,
    ensures
        placements(image_steps(objects, pages, i, pass, limits)) <= limits.items,
    decreases pages.len() - i,
{
    let content = less(pass.content, PDF_CONTENT_STREAM_COST_FLOOR_BYTES as nat);
    if i < pages.len() && content > 0 {
        let page = (i + 1) as u32;
        let charged = ImagePassModel { content, ..pass };
        if let Some(next) = image_page(objects, pages[i], page, charged, limits) {
            if let Some((from, resources)) = resources_of(objects, pages[i], MAX_PDF_PARENT_DEPTH as nat) {
                let origin = xobjects_origin_of(objects, resources, from);
                let (images, found, _) = page_images(objects, origin, resources, charged);
                let g = gathered(objects, content_streams(objects, pages[i]), 0, Seq::empty(), found.content, found.cache);
                if let PageContentModel::Ready(bytes) = g.content {
                    if let Some(ops) = content_operations(bytes) {
                        let start = image_page_start(pass.steps, pass.items);
                        assert(start.steps.drop_last() =~= pass.steps);
                        lemma_walk_counts(start, page, images, steps_of(ops), 0, limits);
                    }
                }
            }
            lemma_pages_count(objects, pages, i + 1, next, limits);
        }
    }
}

/// No page that lies beyond what the content budget pays for makes a
/// difference, however many there are: each costs at least the floor.
pub proof fn law_pages_beyond_the_budget_place_nothing(objects: Objects, pages: Seq<ObjectKey>, n: nat, limits: InspectLimits)
    requires
        n <= pages.len(),
        limits.content_total_bytes < n * PDF_CONTENT_STREAM_COST_FLOOR_BYTES,
    ensures
        image_steps(objects, pages.take(n as int), 0, fresh_image_pass(limits), limits) == image_steps(
            objects,
            pages,
            0,
            fresh_image_pass(limits),
            limits,
        ),
{
    lemma_first_pages_suffice(objects, pages, n as int, 0, fresh_image_pass(limits), limits);
}

/// However a document is made, no more images are reported of it than the
/// limit says.
pub proof fn law_images_are_placed_within_limits(objects: Objects, pages: Seq<ObjectKey>, limits: InspectLimits)
    ensures
        placements(image_steps(objects, pages, 0, fresh_image_pass(limits), limits)) <= limits.items,
{
    lemma_pages_count(objects, pages, 0, fresh_image_pass(limits), limits);
}

/// How many operations a pass decodes from a page, its floor paid.
pub open spec fn image_operations(objects: Objects, id: ObjectKey, pass: ImagePassModel) -> nat {
    match resources_of(objects, id, MAX_PDF_PARENT_DEPTH as nat) {
        None => 0,
        Some((from, resources)) => {
            let (images, found, lasted) = page_images(objects, xobjects_origin_of(objects, resources, from), resources, pass);
            if !lasted || images == Map::<Seq<char>, ImageModel>::empty() {
                0
            } else {
                let ids = content_streams(objects, id);
                operations_in(gathered(objects, ids, 0, Seq::empty(), found.content, found.cache).content)
            }
        },
    }
}

/// What a pass does with the pages from the `i`-th on.
pub open spec fn image_work(objects: Objects, pages: Seq<ObjectKey>, i: int, pass: ImagePassModel, limits: InspectLimits) -> PassWork
    decreases pages.len() - i,
{
    let content = less(pass.content, PDF_CONTENT_STREAM_COST_FLOOR_BYTES as nat);
    if i >= pages.len() || pass.items >= limits.items || pass.operations == 0 || content == 0 {
        PassWork::nothing()
    } else {
        let charged = ImagePassModel { content, ..pass };
        match image_page(objects, pages[i], (i + 1) as u32, charged, limits) {
            Some(next) => image_work(objects, pages, i + 1, next, limits).after_page(image_operations(objects, pages[i], charged)),
            None => PassWork::nothing().after_page(0),
        }
    }
}

proof fn lemma_walk_len(
    walk: ImageWalkModel,
    page: u32,
    images: Map<Seq<char>, ImageModel>,
    ops: Seq<StepModel>,
    k: int,
    limits: InspectLimits,
)
    requires
        0 <= k <= ops.len(),
    ensures
        image_walk(walk, page, images, ops, k, limits).steps.len() <= walk.steps.len() + ops.len() - k,
    decreases ops.len() - k,
{
    if k < ops.len() && walk.items < limits.items {
        lemma_walk_len(image_step(walk, page, images, ops[k]), page, images, ops, k + 1, limits);
    }
}

proof fn lemma_pages_work(objects: Objects, pages: Seq<ObjectKey>, i: int, pass: ImagePassModel, limits: InspectLimits)
    ensures
        ({
            let work = image_work(objects, pages, i, pass, limits);
            &&& image_steps(objects, pages, i, pass, limits).len() <= pass.steps.len() + work.pages + work.operations
            &&& work.within(pass.content, pass.operations)
        }),
    decreases pages.len() - i,
{
    let content = less(pass.content, PDF_CONTENT_STREAM_COST_FLOOR_BYTES as nat);
    if i < pages.len() && content > 0 {
        let page = (i + 1) as u32;
        let charged = ImagePassModel { content, ..pass };
        if let Some(next) = image_page(objects, pages[i], page, charged, limits) {
            if let Some((from, resources)) = resources_of(objects, pages[i], MAX_PDF_PARENT_DEPTH as nat) {
                lemma_images_spend(objects, resources, content);
                let (images, found, _) = page_images(objects, xobjects_origin_of(objects, resources, from), resources, charged);
                let ids = content_streams(objects, pages[i]);
                let g = gathered(objects, ids, 0, Seq::empty(), found.content, found.cache);
                lemma_gathered_spends(objects, ids, 0, Seq::empty(), found.content, found.cache);
                if let PageContentModel::Ready(bytes) = g.content {
                    if let Some(ops) = content_operations(bytes) {
                        lemma_walk_len(image_page_start(pass.steps, pass.items), page, images, steps_of(ops), 0, limits);
                    }
                }
            }
            assert(next.content <= content);
            lemma_pages_work(objects, pages, i + 1, next, limits);
        }
    }
}

/// However a document is made, a pass reports no more steps than it decodes
/// operations and looks at pages. What these can be the budgets say; only the
/// operations of the last page may go beyond them.
pub proof fn law_image_steps_are_bounded_by_the_work(objects: Objects, pages: Seq<ObjectKey>, limits: InspectLimits)
    ensures
        ({
            let work = image_work(objects, pages, 0, fresh_image_pass(limits), limits);
            &&& image_steps(objects, pages, 0, fresh_image_pass(limits), limits).len() <= work.pages + work.operations
            &&& work.within(limits.content_total_bytes as nat, limits.operations as nat)
        }),
{
    lemma_pages_work(objects, pages, 0, fresh_image_pass(limits), limits);
}

} // verus!
