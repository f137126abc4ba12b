//! What a whole document shows.
//!
//! The texts of a document are those of its pages, one page after the other. A pass
//! that its limits do not stop reports all of them.

use crate::inspect::InspectLimits;
use crate::inspect::content::{
    PageContentModel, cache_agrees, canonical, gathered, gathered_with, law_canonical_id_reads_the_same,
    law_ready_content_is_the_pages_streams, less, page_bytes, stream_content,
};
use crate::inspect::pdf::{ObjectKey, Objects, PdfNumber, PdfValue, content_operations, content_streams, object_at, unfiltered};
use crate::inspect::placing::{
    PlacedText, Scale, law_steps_lead_to_the_texts, page_shows, replayed, shows_next,
};
use crate::inspect::steps::{StepModel, steps_of};
use crate::inspect::text_pass::{
    TextPassModel, TextStepModel, TextWalkModel, fresh_text_pass, page_start, text_page, text_step, text_steps, text_walk,
};
use crate::limits::{MAX_PDF_CONTENT_BYTES, MAX_PDF_PARENT_DEPTH, PDF_CONTENT_STREAM_COST_FLOOR_BYTES};
use vstd::prelude::*;
use vstd::utf8::encode_utf8;

verus! {

/// A stream is read decoded where its filters are known, and as it is stored otherwise.
pub proof fn law_streams_are_decoded(objects: Objects, id: ObjectKey, dictionary: Seq<(Seq<u8>, PdfValue)>, stored: Seq<u8>)
    requires
        object_at(objects, id) == Some(PdfValue::Stream(dictionary, stored)),
    ensures
        ({
            let (cost, bytes) = stream_content(objects, id)->0;
            &&& stream_content(objects, id) is Some
            &&& cost == stored.len()
            &&& unfiltered(dictionary, stored) matches Some(decoded) ==> bytes == decoded
            &&& unfiltered(dictionary, stored) is None ==> bytes == stored
        }),
{
}

/// The operations of a page, where its content is not too long and can be read.
pub open spec fn operations_on(objects: Objects, id: ObjectKey) -> Seq<StepModel> {
    let bytes = page_bytes(objects, content_streams(objects, id), 0);
    if bytes.len() > 1_048_576 {
        Seq::empty()
    } else {
        match content_operations(bytes) {
            Some(ops) => steps_of(ops),
            None => Seq::empty(),
        }
    }
}

/// The texts of the first `k` pages, which are numbered from 1.
pub open spec fn texts_of_pages(objects: Objects, pages: Seq<ObjectKey>, k: int, scale: Scale) -> Seq<PlacedText>
    decreases k,
{
    if k <= 0 || k > pages.len() {
        Seq::empty()
    } else {
        let ops = operations_on(objects, pages[k - 1]);
        texts_of_pages(objects, pages, k - 1, scale) + page_shows(k as u32, ops, ops.len() as int, scale).texts
    }
}

/// How many operations the first `k` pages have.
pub open spec fn operations_of_pages(objects: Objects, pages: Seq<ObjectKey>, k: int) -> nat
    decreases k,
{
    if k <= 0 || k > pages.len() {
        0
    } else {
        operations_of_pages(objects, pages, k - 1) + operations_on(objects, pages[k - 1]).len()
    }
}

/// What some streams cost at most from the `k`-th on.
pub open spec fn streams_cost(objects: Objects, ids: Seq<ObjectKey>, k: int) -> nat
    decreases ids.len() - k,
{
    if k < 0 || k >= ids.len() {
        0
    } else {
        1024 + (match stream_content(objects, ids[k]) {
            Some((stored, bytes)) => stored + bytes.len() + 1,
            None => 0,
        }) + streams_cost(objects, ids, k + 1)
    }
}

/// What the first `k` pages cost at most.
pub open spec fn pages_cost(objects: Objects, pages: Seq<ObjectKey>, k: int) -> nat
    decreases k,
{
    if k <= 0 || k > pages.len() {
        0
    } else {
        pages_cost(objects, pages, k - 1) + 1024 + streams_cost(objects, content_streams(objects, pages[k - 1]), 0)
    }
}

/// The bytes of some texts.
pub open spec fn bytes_of(texts: Seq<PlacedText>) -> nat
    decreases texts.len(),
{
    if texts.len() == 0 {
        0
    } else {
        bytes_of(texts.drop_last()) + encode_utf8(texts.last().text).len()
    }
}

/// Whether a pass over a document reaches none of its limits.
pub open spec fn within_limits(objects: Objects, pages: Seq<ObjectKey>, limits: InspectLimits, scale: Scale) -> bool {
    let n = pages.len() as int;
    &&& texts_of_pages(objects, pages, n, scale).len() < limits.items
    &&& bytes_of(texts_of_pages(objects, pages, n, scale)) < limits.text_bytes
    &&& operations_of_pages(objects, pages, n) < limits.operations
    &&& pages_cost(objects, pages, n) < limits.content_total_bytes
}

pub(crate) proof fn lemma_affordable(
    objects: Objects,
    ids: Seq<ObjectKey>,
    k: int,
    content: Seq<u8>,
    budget: nat,
    cache: Map<ObjectKey, Seq<u8>>,
)
    requires
        0 <= k <= ids.len(),
        cache_agrees(objects, cache),
        streams_cost(objects, ids, k) < budget,
    ensures
        !(gathered(objects, ids, k, content, budget, cache).content is Exhausted),
        gathered(objects, ids, k, content, budget, cache).budget + streams_cost(objects, ids, k) >= budget,
    decreases ids.len() - k,
{
    reveal_with_fuel(gathered, 2);
    reveal_with_fuel(gathered_with, 2);
    if k < ids.len() {
        let id = ids[k];
        law_canonical_id_reads_the_same(objects, id);
        let left = less(budget, PDF_CONTENT_STREAM_COST_FLOOR_BYTES as nat);
        match canonical(objects, id, MAX_PDF_PARENT_DEPTH as nat).0 {
            None => {
                lemma_affordable(objects, ids, k + 1, content, left, cache);
            },
            Some(target) => {
                assert(stream_content(objects, target) == stream_content(objects, id));
                match stream_content(objects, target) {
                    None => {
                        lemma_affordable(objects, ids, k + 1, content, left, cache);
                    },
                    Some((stored, bytes)) => {
                        let hit = cache.contains_key(target);
                        let kept = if hit { cache } else { cache.insert(target, bytes) };
                        let paid = if hit {
                            left
                        } else {
                            less(left, less(stored, PDF_CONTENT_STREAM_COST_FLOOR_BYTES as nat))
                        };
                        assert(cache_agrees(objects, kept));
                        let rest = less(paid, bytes.len() + 1);
                        let longer = content + bytes + seq![10u8];
                        if longer.len() <= MAX_PDF_CONTENT_BYTES {
                            lemma_affordable(objects, ids, k + 1, longer, rest, kept);
                        }
                    },
                }
            },
        }
    }
}

/// The counts that a pass keeps are those of the texts that it reported.
spec fn counted(steps: Seq<TextStepModel>, items: nat, bytes: nat, scale: Scale) -> bool {
    let texts = replayed(steps, scale).1;
    &&& items == texts.len()
    &&& bytes == if bytes_of(texts) <= usize::MAX { bytes_of(texts) } else { usize::MAX as nat }
}

proof fn lemma_step_counted(walk: TextWalkModel, page: u32, op: StepModel, scale: Scale)
    requires
        counted(walk.steps, walk.items, walk.bytes, scale),
    ensures
        ({
            let next = text_step(walk, page, op);
            counted(next.steps, next.items, next.bytes, scale)
        }),
{
    let next = text_step(walk, page, op);
    if next.steps != walk.steps {
        assert(next.steps.drop_last() =~= walk.steps);
        let before = replayed(walk.steps, scale).1;
        let texts = replayed(next.steps, scale).1;
        if texts != before {
            assert(texts.drop_last() =~= before);
        }
    }
}

proof fn lemma_walk_counted(walk: TextWalkModel, page: u32, ops: Seq<StepModel>, k: int, limits: InspectLimits, scale: Scale)
    requires
        0 <= k,
        counted(walk.steps, walk.items, walk.bytes, scale),
    ensures
        ({
            let end = text_walk(walk, page, ops, k, limits);
            counted(end.steps, end.items, end.bytes, scale)
        }),
    decreases ops.len() - k,
{
    if k < ops.len() && !walk.full(limits) {
        lemma_step_counted(walk, page, ops[k], scale);
        lemma_walk_counted(text_step(walk, page, ops[k]), page, ops, k + 1, limits, scale);
    }
}

/// What was shown stays shown.
proof fn lemma_shown_stays(page: u32, ops: Seq<StepModel>, n: int, k: int, scale: Scale)
    requires
        0 <= n <= k <= ops.len(),
    ensures
        page_shows(page, ops, n, scale).texts.is_prefix_of(page_shows(page, ops, k, scale).texts),
    decreases k - n,
{
    if n < k {
        lemma_shown_stays(page, ops, n, k - 1, scale);
        let s = page_shows(page, ops, k - 1, scale);
        assert(s.texts.is_prefix_of(shows_next(s, page, ops[k - 1], scale).texts));
    }
}

proof fn lemma_bytes_of_start(a: Seq<PlacedText>, b: Seq<PlacedText>)
    requires
        a.is_prefix_of(b),
    ensures
        bytes_of(a) <= bytes_of(b),
        a.len() <= b.len(),
    decreases b.len(),
{
    if a.len() < b.len() {
        assert(a.is_prefix_of(b.drop_last()));
        lemma_bytes_of_start(a, b.drop_last());
    } else {
        assert(a =~= b);
    }
}

proof fn lemma_pages_grow(objects: Objects, pages: Seq<ObjectKey>, i: int, k: int, scale: Scale)
    requires
        0 <= i <= k <= pages.len(),
    ensures
        texts_of_pages(objects, pages, i, scale).is_prefix_of(texts_of_pages(objects, pages, k, scale)),
        operations_of_pages(objects, pages, i) <= operations_of_pages(objects, pages, k),
        pages_cost(objects, pages, i) <= pages_cost(objects, pages, k),
    decreases k - i,
{
    if i < k {
        lemma_pages_grow(objects, pages, i, k - 1, scale);
    }
}

/// A page whose content was gathered adds its texts.
proof fn lemma_page_adds(
    objects: Objects,
    pages: Seq<ObjectKey>,
    i: int,
    pass: TextPassModel,
    limits: InspectLimits,
    scale: Scale,
    bytes: Seq<u8>,
)
    requires
        0 <= i < pages.len() < u32::MAX,
        (scale.value)(PdfNumber::Integer(0)) == 0,
        within_limits(objects, pages, limits, scale),
        replayed(pass.steps, scale).1 == texts_of_pages(objects, pages, i, scale),
        counted(pass.steps, pass.items, pass.bytes, scale),
        bytes == page_bytes(objects, content_streams(objects, pages[i]), 0),
        bytes.len() <= MAX_PDF_CONTENT_BYTES,
        content_operations(bytes) is Some,
    ensures
        ({
            let ops = steps_of(content_operations(bytes)->0);
            let end = text_walk(page_start(pass.steps, pass.items, pass.bytes), (i + 1) as u32, ops, 0, limits);
            &&& replayed(end.steps, scale).1 == texts_of_pages(objects, pages, i + 1, scale)
            &&& counted(end.steps, end.items, end.bytes, scale)
        }),
{
    let ops = steps_of(content_operations(bytes)->0);
    let page = (i + 1) as u32;
    let start = page_start(pass.steps, pass.items, pass.bytes);
    let end = text_walk(start, page, ops, 0, limits);
    let n = law_steps_lead_to_the_texts(pass.steps, pass.items, pass.bytes, page, ops, limits, scale);
    assert(start.steps.drop_last() =~= pass.steps);
    lemma_walk_counted(start, page, ops, 0, limits, scale);
    assert(ops == operations_on(objects, pages[i]));
    let before = texts_of_pages(objects, pages, i, scale);
    let whole = texts_of_pages(objects, pages, i + 1, scale);
    let texts = replayed(end.steps, scale).1;
    if n < ops.len() {
        lemma_shown_stays(page, ops, n, ops.len() as int, scale);
        assert(texts.is_prefix_of(whole));
        lemma_bytes_of_start(texts, whole);
        lemma_pages_grow(objects, pages, i + 1, pages.len() as int, scale);
        lemma_bytes_of_start(whole, texts_of_pages(objects, pages, pages.len() as int, scale));
        assert(false);
    }
}

proof fn lemma_pages_reported(
    objects: Objects,
    pages: Seq<ObjectKey>,
    i: int,
    pass: TextPassModel,
    limits: InspectLimits,
    scale: Scale,
)
    requires
        0 <= i <= pages.len() < u32::MAX,
        (scale.value)(PdfNumber::Integer(0)) == 0,
        within_limits(objects, pages, limits, scale),
        replayed(pass.steps, scale).1 == texts_of_pages(objects, pages, i, scale),
        counted(pass.steps, pass.items, pass.bytes, scale),
        pass.operations + operations_of_pages(objects, pages, i) >= limits.operations,
        pass.content + pages_cost(objects, pages, i) >= limits.content_total_bytes,
        cache_agrees(objects, pass.cache),
    ensures
        replayed(text_steps(objects, pages, i, pass, limits), scale).1 == texts_of_pages(
            objects,
            pages,
            pages.len() as int,
            scale,
        ),
    decreases pages.len() - i,
{
    let n = pages.len() as int;
    lemma_pages_grow(objects, pages, i, n, scale);
    lemma_bytes_of_start(texts_of_pages(objects, pages, i, scale), texts_of_pages(objects, pages, n, scale));
    if i < n {
        lemma_pages_grow(objects, pages, i + 1, n, scale);
        let ids = content_streams(objects, pages[i]);
        let content = less(pass.content, PDF_CONTENT_STREAM_COST_FLOOR_BYTES as nat);
        let g = gathered(objects, ids, 0, Seq::empty(), content, pass.cache);
        assert(pages_cost(objects, pages, i + 1) == pages_cost(objects, pages, i) + 1024 + streams_cost(objects, ids, 0));
        lemma_affordable(objects, ids, 0, Seq::empty(), content, pass.cache);
        law_ready_content_is_the_pages_streams(objects, ids, content, pass.cache);
        let ops = operations_on(objects, pages[i]);
        let more = page_shows((i + 1) as u32, ops, ops.len() as int, scale).texts;
        let before = texts_of_pages(objects, pages, i, scale);
        if ops.len() == 0 {
            assert(before + more =~= before);
        }
        if let PageContentModel::Ready(bytes) = g.content {
            if content_operations(bytes) is Some {
                lemma_page_adds(objects, pages, i, pass, limits, scale, bytes);
                assert(steps_of(content_operations(bytes)->0).len() == (content_operations(bytes)->0).len());
            }
        }
        let next = text_page(pass, (i + 1) as u32, g, limits)->0;
        lemma_pages_reported(objects, pages, i + 1, next, limits, scale);
    }
}

/// A pass that reaches none of its limits reports every text of every page: which page it
/// is on, in which font, and at the place where the operations of the page put it.
pub proof fn law_all_texts_are_reported(objects: Objects, pages: Seq<ObjectKey>, limits: InspectLimits, scale: Scale)
    requires
        pages.len() < u32::MAX,
        (scale.value)(PdfNumber::Integer(0)) == 0,
        within_limits(objects, pages, limits, scale),
    ensures
        replayed(text_steps(objects, pages, 0, fresh_text_pass(limits), limits), scale).1 == texts_of_pages(
            objects,
            pages,
            pages.len() as int,
            scale,
        ),
{
    lemma_pages_reported(objects, pages, 0, fresh_text_pass(limits), limits, scale);
}

} // verus!
