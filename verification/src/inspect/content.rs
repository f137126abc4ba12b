//! The content of a page, gathered within its bounds.

use crate::inspect::pdf::{
    ObjectKey, Objects, PdfValue, Shape, content_operations, content_streams, decompressed, deref_limit, dereferenced,
    document_objects, get_object, object_at, page_contents, parts, shape, stored, unfiltered,
};
use crate::limits::{MAX_PDF_CONTENT_BYTES, MAX_PDF_PARENT_DEPTH, PDF_CONTENT_STREAM_COST_FLOOR_BYTES};
use std::collections::BTreeMap;
use vstd::prelude::*;

verus! {

broadcast use {vstd::std_specs::btree::group_btree_axioms, vstd::laws_cmp::group_laws_cmp};

/// What is left of a budget.
pub open spec fn less(budget: nat, cost: nat) -> nat {
    if budget > cost {
        (budget - cost) as nat
    } else {
        0
    }
}

/// The id that a chain of aliases ends on and the hops that are left; no id
/// where the chain takes more hops than there are.
pub open spec fn canonical(objects: Objects, id: ObjectKey, hops: nat) -> (Option<ObjectKey>, nat)
    decreases hops,
{
    if objects.contains_key(id) && objects[id] is Reference {
        if hops == 0 {
            (None, 0)
        } else {
            canonical(objects, objects[id]->Reference_0, (hops - 1) as nat)
        }
    } else {
        (Some(id), hops)
    }
}

/// Following aliases against a budget of hops agrees with a dereference that
/// may follow as many links.
proof fn lemma_canonical_is_dereferenced(objects: Objects, id: ObjectKey, last: Option<ObjectKey>, hops: nat)
    requires
        objects.contains_key(id),
    ensures
        match canonical(objects, id, hops).0 {
            Some(target) => if objects.contains_key(target) {
                &&& objects[target] !is Reference
                &&& dereferenced(objects, objects[id], last, hops) matches Some((_, value))
                &&& value == objects[target]
            } else {
                dereferenced(objects, objects[id], last, hops) is None
            },
            None => dereferenced(objects, objects[id], last, hops) is None,
        },
    decreases hops,
{
    if objects[id] is Reference && hops > 0 {
        let next = objects[id]->Reference_0;
        if objects.contains_key(next) {
            lemma_canonical_is_dereferenced(objects, next, Some(next), (hops - 1) as nat);
        }
    }
}

/// The id that a chain of aliases ends on stands for the same object as the id
/// that it starts from, and there is no such id, or no object under it, exactly
/// where reading the first id fails. So a fresh budget admits exactly the
/// chains that reading an object admits.
pub proof fn law_canonical_id_reads_the_same(objects: Objects, id: ObjectKey)
    ensures
        object_at(objects, id) == match canonical(objects, id, MAX_PDF_PARENT_DEPTH as nat).0 {
            Some(target) => if objects.contains_key(target) {
                Some(objects[target])
            } else {
                None
            },
            None => None,
        },
        canonical(objects, id, MAX_PDF_PARENT_DEPTH as nat).0 matches Some(target) ==> object_at(objects, target) == object_at(
            objects,
            id,
        ),
{
    if objects.contains_key(id) {
        lemma_canonical_is_dereferenced(objects, id, None, MAX_PDF_PARENT_DEPTH as nat);
    }
    assert(deref_limit() == MAX_PDF_PARENT_DEPTH);
}

/// Following a chain never gives hops back.
pub proof fn lemma_canonical_spends(objects: Objects, id: ObjectKey, hops: nat)
    ensures
        canonical(objects, id, hops).1 <= hops,
    decreases hops,
{
    if objects.contains_key(id) && objects[id] is Reference && hops > 0 {
        lemma_canonical_spends(objects, objects[id]->Reference_0, (hops - 1) as nat);
    }
}

/// Follows aliases from `id`, each against the budget of the caller.
pub fn canonical_object_id_within(doc: &lopdf::Document, id: ObjectKey, hops: &mut usize) -> (r: Option<ObjectKey>)
    ensures
        (r, *final(hops) as nat) == canonical(document_objects(*doc), id, *old(hops) as nat),
{
    let mut current: ObjectKey = id;
    loop
        invariant
            canonical(document_objects(*doc), current, *hops as nat) == canonical(
                document_objects(*doc),
                id,
                *old(hops) as nat,
            ),
        decreases *hops,
    {
        match stored(doc, current) {
            Some(object) => match shape(object) {
                Shape::Reference(next) => {
                    if *hops == 0 {
                        return None;
                    }
                    *hops = *hops - 1;
                    current = next;
                },
                _ => {
                    return Some(current);
                },
            },
            None => {
                return Some(current);
            },
        }
    }
}

/// Follows aliases from `id` to the object that it really names.
pub fn canonical_object_id(doc: &lopdf::Document, id: ObjectKey) -> (r: Option<ObjectKey>)
    ensures
        r == canonical(document_objects(*doc), id, MAX_PDF_PARENT_DEPTH as nat).0,
{
    let mut hops: usize = MAX_PDF_PARENT_DEPTH;
    canonical_object_id_within(doc, id, &mut hops)
}

/// An object's id as one number.
pub open spec fn id_code(id: ObjectKey) -> int {
    id.0 * 65536 + id.1
}

/// Decoded streams by the id of the stream, so that none is decoded twice.
pub struct DecodedStreams {
    by_id: BTreeMap<u64, Vec<u8>>,
}

impl View for DecodedStreams {
    type V = Map<ObjectKey, Seq<u8>>;

    closed spec fn view(&self) -> Map<ObjectKey, Seq<u8>> {
        Map::new(
            |id: ObjectKey| self.by_id@.contains_key(id_code(id) as u64),
            |id: ObjectKey| self.by_id@[id_code(id) as u64]@,
        )
    }
}

/// The id that a number stands for.
spec fn id_of(code: u64) -> ObjectKey {
    ((code / 65536) as u32, (code % 65536) as u16)
}

impl DecodedStreams {
    /// Whether every key stands for an id.
    #[verifier::type_invariant]
    spec fn keys_are_ids(self) -> bool {
        forall|code: u64| #[trigger] self.by_id@.contains_key(code) ==> code == id_code(id_of(code))
    }

    pub fn new() -> (r: Self)
        ensures
            r@ == Map::<ObjectKey, Seq<u8>>::empty(),
    {
        let r = DecodedStreams { by_id: BTreeMap::new() };
        assert(r@ =~= Map::<ObjectKey, Seq<u8>>::empty());
        r
    }

    /// The bytes of a stream that was decoded already.
    pub fn get(&self, id: ObjectKey) -> (r: Option<&Vec<u8>>)
        ensures
            match r {
                Some(bytes) => self@.contains_key(id) && self@[id] == bytes@,
                None => !self@.contains_key(id),
            },
    {
        let code: u64 = id.0 as u64 * 65536 + id.1 as u64;
        self.by_id.get(&code)
    }

    /// Keeps the bytes of a stream.
    pub fn insert(&mut self, id: ObjectKey, bytes: Vec<u8>)
        ensures
            final(self)@ == old(self)@.insert(id, bytes@),
    {
        proof {
            use_type_invariant(&*self);
        }
        let code: u64 = id.0 as u64 * 65536 + id.1 as u64;
        let mut by_id: BTreeMap<u64, Vec<u8>> = BTreeMap::new();
        std::mem::swap(&mut by_id, &mut self.by_id);
        by_id.insert(code, bytes);
        self.by_id = by_id;
        proof {
            assert forall|other: ObjectKey| #![trigger id_code(other)] id_code(other) == id_code(id) implies other == id by {}
            assert(self@ =~= old(self)@.insert(id, bytes@));
        }
    }

    /// How many streams were decoded.
    pub fn len(&self) -> (r: usize)
        ensures
            r == self@.len(),
    {
        proof {
            use_type_invariant(self);
            let codes = self.by_id@.dom();
            let ids = self@.dom();
            assert forall|id: ObjectKey| #[trigger] ids.contains(id) implies codes.map(|code: u64| id_of(code)).contains(id) by {
                let code = id_code(id) as u64;
                assert(codes.contains(code) && id_of(code) == id);
            }
            assert(codes.map(|code: u64| id_of(code)) =~= ids);
            vstd::set_lib::lemma_map_size(codes, ids, |code: u64| id_of(code));
        }
        self.by_id.len()
    }
}

/// How many bytes of a stream are stored, and its bytes decoded: those that
/// are stored where decoding fails.
pub open spec fn stream_content(objects: Objects, id: ObjectKey) -> Option<(nat, Seq<u8>)> {
    match object_at(objects, id) {
        Some(PdfValue::Stream(dictionary, bytes)) => Some((
            bytes.len(),
            match unfiltered(dictionary, bytes) {
                Some(decoded) => decoded,
                None => bytes,
            },
        )),
        _ => None,
    }
}

/// What gathering a page came to.
pub ghost enum PageContentModel {
    Ready(Seq<u8>),
    Skip,
    Exhausted,
}

/// The content of a page, the budget that is left, and the streams decoded so
/// far.
pub ghost struct Gathered {
    pub content: PageContentModel,
    pub budget: nat,
    pub cache: Map<ObjectKey, Seq<u8>>,
}

/// Gathers the streams of a page from the `k`-th on. Each costs a floor before
/// it is looked at, one that is decoded for the first time what its stored
/// bytes cost above the floor, and each its decoded bytes with a line feed
/// behind them. A page with too much content is skipped.
pub open spec fn gathered(
    objects: Objects,
    ids: Seq<ObjectKey>,
    k: int,
    content: Seq<u8>,
    budget: nat,
    cache: Map<ObjectKey, Seq<u8>>,
) -> Gathered
    decreases ids.len() - k, 1int,
{
    if k >= ids.len() {
        Gathered { content: PageContentModel::Ready(content), budget, cache }
    } else {
        let budget = less(budget, PDF_CONTENT_STREAM_COST_FLOOR_BYTES as nat);
        if budget == 0 {
            Gathered { content: PageContentModel::Exhausted, budget, cache }
        } else {
            match canonical(objects, ids[k], MAX_PDF_PARENT_DEPTH as nat).0 {
                None => gathered(objects, ids, k + 1, content, budget, cache),
                Some(id) => if cache.contains_key(id) {
                    gathered_with(objects, ids, k, cache[id], content, budget, cache)
                } else {
                    match stream_content(objects, id) {
                        None => gathered(objects, ids, k + 1, content, budget, cache),
                        Some((encoded, bytes)) => {
                            let budget = less(budget, less(encoded, PDF_CONTENT_STREAM_COST_FLOOR_BYTES as nat));
                            let cache = cache.insert(id, bytes);
                            if budget == 0 {
                                Gathered { content: PageContentModel::Exhausted, budget, cache }
                            } else {
                                gathered_with(objects, ids, k, bytes, content, budget, cache)
                            }
                        },
                    }
                },
            }
        }
    }
}

/// Adds the bytes of the `k`-th stream and gathers on.
pub open spec fn gathered_with(
    objects: Objects,
    ids: Seq<ObjectKey>,
    k: int,
    bytes: Seq<u8>,
    content: Seq<u8>,
    budget: nat,
    cache: Map<ObjectKey, Seq<u8>>,
) -> Gathered
    decreases ids.len() - k, 0int,
    when k < ids.len()
{
    let budget = less(budget, bytes.len() + 1);
    if budget == 0 {
        Gathered { content: PageContentModel::Exhausted, budget, cache }
    } else if content.len() + bytes.len() + 1 > MAX_PDF_CONTENT_BYTES {
        Gathered { content: PageContentModel::Skip, budget, cache }
    } else {
        gathered(objects, ids, k + 1, content + bytes + seq![10u8], budget, cache)
    }
}

/// What gathering a page came to.
pub enum PageContent {
    /// The page's content, within its bounds.
    Ready(Vec<u8>),
    /// The page has too much content; the next ones may still be read.
    Skip,
    /// The budget of the document is spent.
    Exhausted,
}

impl View for PageContent {
    type V = PageContentModel;

    open spec fn view(&self) -> PageContentModel {
        match self {
            PageContent::Ready(bytes) => PageContentModel::Ready(bytes@),
            PageContent::Skip => PageContentModel::Skip,
            PageContent::Exhausted => PageContentModel::Exhausted,
        }
    }
}

/// Gathers the decoded content streams of a page, each followed by a line
/// feed, and charges `doc_budget` for the work.
pub fn gather_page_content(
    doc: &lopdf::Document,
    page_id: ObjectKey,
    doc_budget: &mut usize,
    decoded_cache: &mut DecodedStreams,
) -> (r: PageContent)
    ensures
        ({
            let g = gathered(
                document_objects(*doc),
                content_streams(document_objects(*doc), page_id),
                0,
                Seq::empty(),
                *old(doc_budget) as nat,
                old(decoded_cache)@,
            );
            &&& r@ == g.content
            &&& *final(doc_budget) == g.budget
            &&& final(decoded_cache)@ == g.cache
        }),
{
    let ghost objects = document_objects(*doc);
    let mut content: Vec<u8> = Vec::new();
    let ids: Vec<ObjectKey> = page_contents(doc, page_id);
    let ghost whole = gathered(objects, ids@, 0, content@, *doc_budget as nat, decoded_cache@);
    let mut k: usize = 0;
    while k < ids.len()
        invariant
            objects == document_objects(*doc),
            k <= ids@.len(),
            content@.len() <= MAX_PDF_CONTENT_BYTES,
            gathered(objects, ids@, k as int, content@, *doc_budget as nat, decoded_cache@) == whole,
            whole == gathered(
                document_objects(*doc),
                content_streams(document_objects(*doc), page_id),
                0,
                Seq::empty(),
                *old(doc_budget) as nat,
                old(decoded_cache)@,
            ),
        decreases ids@.len() - k,
    {
        *doc_budget = doc_budget.saturating_sub(PDF_CONTENT_STREAM_COST_FLOOR_BYTES);
        if *doc_budget == 0 {
            return PageContent::Exhausted;
        }
        let object_id: ObjectKey = match canonical_object_id(doc, ids[k]) {
            Some(id) => id,
            None => {
                k = k + 1;
                continue;
            },
        };
        if decoded_cache.get(object_id).is_none() {
            let stream: &lopdf::Stream = match get_object(doc, object_id) {
                Some(object) => match shape(object) {
                    Shape::Stream(stream) => stream,
                    _ => {
                        k = k + 1;
                        continue;
                    },
                },
                None => {
                    k = k + 1;
                    continue;
                },
            };
            let bytes_stored: &Vec<u8> = parts(stream).1;
            let encoded: usize = bytes_stored.len();
            let decoded: Vec<u8> = match decompressed(stream) {
                Some(bytes) => bytes,
                None => bytes_stored.clone(),
            };
            assert(stream_content(objects, object_id) == Some((encoded as nat, decoded@)));
            *doc_budget = doc_budget.saturating_sub(encoded.saturating_sub(PDF_CONTENT_STREAM_COST_FLOOR_BYTES));
            decoded_cache.insert(object_id, decoded);
            if *doc_budget == 0 {
                return PageContent::Exhausted;
            }
        }
        let ghost before = *doc_budget as nat;
        match decoded_cache.get(object_id) {
            Some(bytes) => {
                assert(whole == gathered_with(objects, ids@, k as int, bytes@, content@, before, decoded_cache@));
                *doc_budget = doc_budget.saturating_sub(bytes.len()).saturating_sub(1);
                if *doc_budget == 0 {
                    return PageContent::Exhausted;
                }
                if bytes.len() >= MAX_PDF_CONTENT_BYTES || content.len() + bytes.len() + 1 > MAX_PDF_CONTENT_BYTES {
                    return PageContent::Skip;
                }
                let ghost start = content@;
                content.extend_from_slice(bytes.as_slice());
                assert(content@ =~= start + bytes@);
                content.push(10);
                assert(content@ =~= start + bytes@ + seq![10u8]);
            },
            None => {},
        }
        k = k + 1;
    }
    PageContent::Ready(content)
}

/// Gathering only ever spends the budget.
pub proof fn lemma_gathered_spends(
    objects: Objects,
    ids: Seq<ObjectKey>,
    k: int,
    content: Seq<u8>,
    budget: nat,
    cache: Map<ObjectKey, Seq<u8>>,
)
    ensures
        gathered(objects, ids, k, content, budget, cache).budget <= budget,
    decreases ids.len() - k,
{
    reveal_with_fuel(gathered, 2);
    reveal_with_fuel(gathered_with, 2);
    if k < ids.len() {
        let left = less(budget, PDF_CONTENT_STREAM_COST_FLOOR_BYTES as nat);
        lemma_gathered_spends(objects, ids, k + 1, content, left, cache);
        if let Some(id) = canonical(objects, ids[k], MAX_PDF_PARENT_DEPTH as nat).0 {
            let hit = cache.contains_key(id);
            let found = stream_content(objects, id);
            let (encoded, decoded) = found->0;
            let bytes = if hit { cache[id] } else { decoded };
            let kept = if hit { cache } else { cache.insert(id, decoded) };
            let paid = if hit { left } else { less(left, less(encoded, PDF_CONTENT_STREAM_COST_FLOOR_BYTES as nat)) };
            lemma_gathered_spends(
                objects,
                ids,
                k + 1,
                content + bytes + seq![10u8],
                less(paid, bytes.len() + 1),
                kept,
            );
        }
    }
}

/// The decoded streams of a page from the `k`-th on, each followed by a line
/// feed; an id that names no stream adds nothing.
pub open spec fn page_bytes(objects: Objects, ids: Seq<ObjectKey>, k: int) -> Seq<u8>
    decreases ids.len() - k,
{
    if k >= ids.len() {
        Seq::empty()
    } else {
        match stream_content(objects, ids[k]) {
            Some((_, bytes)) => bytes + seq![10u8] + page_bytes(objects, ids, k + 1),
            None => page_bytes(objects, ids, k + 1),
        }
    }
}

/// Whether every stream kept decoded is one of the document's.
pub open spec fn cache_agrees(objects: Objects, cache: Map<ObjectKey, Seq<u8>>) -> bool {
    forall|id: ObjectKey| #[trigger]
        cache.contains_key(id) ==> (stream_content(objects, id) matches Some((_, bytes)) && bytes == cache[id])
}

proof fn lemma_gathered_content(
    objects: Objects,
    ids: Seq<ObjectKey>,
    k: int,
    content: Seq<u8>,
    budget: nat,
    cache: Map<ObjectKey, Seq<u8>>,
)
    requires
        0 <= k <= ids.len(),
        cache_agrees(objects, cache),
        content.len() <= MAX_PDF_CONTENT_BYTES,
    ensures
        ({
            let g = gathered(objects, ids, k, content, budget, cache);
            let total = content + page_bytes(objects, ids, k);
            &&& cache_agrees(objects, g.cache)
            &&& g.budget <= budget
            &&& g.content matches PageContentModel::Ready(bytes) ==> bytes == total && total.len() <= MAX_PDF_CONTENT_BYTES
            &&& g.content is Skip ==> total.len() > MAX_PDF_CONTENT_BYTES
        }),
    decreases ids.len() - k,
{
    reveal_with_fuel(gathered, 2);
    reveal_with_fuel(gathered_with, 2);
    let total = content + page_bytes(objects, ids, k);
    if k < ids.len() {
        let id = ids[k];
        law_canonical_id_reads_the_same(objects, id);
        let left = less(budget, PDF_CONTENT_STREAM_COST_FLOOR_BYTES as nat);
        match canonical(objects, id, MAX_PDF_PARENT_DEPTH as nat).0 {
            None => {
                lemma_gathered_content(objects, ids, k + 1, content, left, cache);
            },
            Some(target) => {
                assert(stream_content(objects, target) == stream_content(objects, id));
                match stream_content(objects, target) {
                    None => {
                        lemma_gathered_content(objects, ids, k + 1, content, left, cache);
                    },
                    Some((encoded, bytes)) => {
                        let hit = cache.contains_key(target);
                        let kept = if hit { cache } else { cache.insert(target, bytes) };
                        let paid = if hit {
                            left
                        } else {
                            less(left, less(encoded, PDF_CONTENT_STREAM_COST_FLOOR_BYTES as nat))
                        };
                        assert(cache_agrees(objects, kept));
                        let rest = less(paid, bytes.len() + 1);
                        let longer = content + bytes + seq![10u8];
                        assert(total =~= longer + page_bytes(objects, ids, k + 1));
                        if longer.len() <= MAX_PDF_CONTENT_BYTES {
                            lemma_gathered_content(objects, ids, k + 1, longer, rest, kept);
                        }
                    },
                }
            },
        }
    } else {
        assert(total =~= content);
    }
}

/// A page that is read is read whole: its content is that of its streams one
/// after the other, whichever of them were decoded before. A page is skipped
/// only where that is more than a page may have, and never read where it is.
/// Reading only ever spends the budget.
pub proof fn law_ready_content_is_the_pages_streams(
    objects: Objects,
    ids: Seq<ObjectKey>,
    budget: nat,
    cache: Map<ObjectKey, Seq<u8>>,
)
    requires
        cache_agrees(objects, cache),
    ensures
        ({
            let g = gathered(objects, ids, 0, Seq::empty(), budget, cache);
            let total = page_bytes(objects, ids, 0);
            &&& g.content matches PageContentModel::Ready(bytes) ==> bytes == total && total.len() <= MAX_PDF_CONTENT_BYTES
            &&& g.content is Skip ==> total.len() > MAX_PDF_CONTENT_BYTES
            &&& cache_agrees(objects, g.cache)
            &&& g.budget <= budget
        }),
{
    lemma_gathered_content(objects, ids, 0, Seq::empty(), budget, cache);
    assert(Seq::<u8>::empty() + page_bytes(objects, ids, 0) =~= page_bytes(objects, ids, 0));
}

/// How many operations are decoded from the content of a page.
pub open spec fn operations_in(content: PageContentModel) -> nat {
    match content {
        PageContentModel::Ready(bytes) => match content_operations(bytes) {
            Some(ops) => ops.len(),
            None => 0,
        },
        _ => 0,
    }
}

/// What a pass did: the pages that it looked at, the operations decoded from
/// them, and how many of these were decoded from the last page.
pub ghost struct PassWork {
    pub pages: nat,
    pub operations: nat,
    pub last: nat,
}

impl PassWork {
    pub open spec fn nothing() -> PassWork {
        PassWork { pages: 0, operations: 0, last: 0 }
    }

    /// The work with one page looked at before, and operations decoded from it.
    pub open spec fn after_page(self, operations: nat) -> PassWork {
        PassWork {
            pages: self.pages + 1,
            operations: self.operations + operations,
            last: if self.pages == 0 {
                operations
            } else {
                self.last
            },
        }
    }

    /// Whether the work keeps to what is left of the content and operation
    /// budgets. Only the last page may go beyond the operations.
    pub open spec fn within(self, content: nat, operations: nat) -> bool {
        &&& self.pages * PDF_CONTENT_STREAM_COST_FLOOR_BYTES <= content
        &&& self.last <= self.operations <= operations + self.last
    }
}

} // verus!
