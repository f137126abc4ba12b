//! The text that the pages of a PDF show.

use crate::inspect::InspectLimits;
use crate::inspect::content::{
    DecodedStreams, Gathered, PageContent, PageContentModel, PassWork, gather_page_content, gathered,
    lemma_gathered_spends, less, operations_in,
};
use crate::inspect::pdf::{
    ObjectKey, Objects, PdfNumber, content_operations, content_streams, decode_content,
    document_objects, document_trailer, page_tree, tree_pages,
};
use crate::inspect::steps::{
    GeometryStep, Operand, Operation, StepModel, matrix_of, name_of, number_of, operand_name,
    operand_number, read_matrix, read_operations, steps_of,
};
use crate::inspect::strings::{
    clamp_font_name, clamped, decode_pdf_string, law_clamping_keeps_the_longest_start, pdf_text,
};
use crate::limits::{MAX_PDF_FONT_NAME_BYTES, MAX_PDF_GS_STACK_DEPTH, PDF_CONTENT_STREAM_COST_FLOOR_BYTES};
use crate::model::{group_views, views};
use crate::text::trimmed;
use std::rc::Rc;
use vstd::prelude::*;
use vstd::utf8::encode_utf8;

verus! {

broadcast use group_views;

/// A text that a page shows, and the font in effect.
#[derive(Debug, PartialEq)]
pub struct TextItem {
    pub page: u32,
    pub text: String,
    pub font: String,
    pub font_size: PdfNumber,
}

pub ghost struct TextItemModel {
    pub page: u32,
    pub text: Seq<char>,
    pub font: Seq<char>,
    pub font_size: PdfNumber,
}

impl View for TextItem {
    type V = TextItemModel;

    open spec fn view(&self) -> TextItemModel {
        TextItemModel { page: self.page, text: self.text@, font: self.font@, font_size: self.font_size }
    }
}

/// A step of the text pass.
#[derive(Debug, PartialEq)]
pub enum TextStep {
    Geometry(GeometryStep),
    /// A text is shown at the current place, which moves behind it.
    Show(TextItem),
}

pub ghost enum TextStepModel {
    Geometry(GeometryStep),
    Show(TextItemModel),
}

impl View for TextStep {
    type V = TextStepModel;

    open spec fn view(&self) -> TextStepModel {
        match self {
            TextStep::Geometry(step) => TextStepModel::Geometry(*step),
            TextStep::Show(run) => TextStepModel::Show(run@),
        }
    }
}

/// The font of a graphics state. States share the name.
pub struct FontState {
    pub name: Rc<String>,
    pub size: PdfNumber,
}

pub ghost struct FontModel {
    pub name: Seq<char>,
    pub size: PdfNumber,
}

impl View for FontState {
    type V = FontModel;

    open spec fn view(&self) -> FontModel {
        FontModel { name: self.name@, size: self.size }
    }
}

/// A walk over the operations of a page: the fonts of the graphics states that
/// are kept, how many that were not kept are open, what was reported so far,
/// and how many texts and bytes of text that is.
pub ghost struct TextWalkModel {
    pub fonts: Seq<FontModel>,
    pub dropped: nat,
    pub steps: Seq<TextStepModel>,
    pub items: nat,
    pub bytes: nat,
}

impl TextWalkModel {
    pub open spec fn reports(self, step: GeometryStep) -> TextWalkModel {
        TextWalkModel { steps: self.steps.push(TextStepModel::Geometry(step)), ..self }
    }

    /// A text is reported unless it is blank.
    pub open spec fn shows(self, page: u32, text: Seq<char>) -> TextWalkModel {
        if trimmed(text).len() == 0 {
            self
        } else {
            let run = TextItemModel { page, text, font: self.fonts.last().name, font_size: self.fonts.last().size };
            let bytes = self.bytes + encode_utf8(text).len();
            TextWalkModel {
                steps: self.steps.push(TextStepModel::Show(run)),
                items: self.items + 1,
                bytes: if bytes <= usize::MAX {
                    bytes
                } else {
                    usize::MAX as nat
                },
                ..self
            }
        }
    }

    /// Whether nothing more is taken.
    pub open spec fn full(self, limits: InspectLimits) -> bool {
        self.items >= limits.items || self.bytes >= limits.text_bytes
    }
}

/// The walk at the start of a page.
pub open spec fn page_start(steps: Seq<TextStepModel>, items: nat, bytes: nat) -> TextWalkModel {
    TextWalkModel {
        fonts: seq![FontModel { name: "unknown"@, size: PdfNumber::Integer(12) }],
        dropped: 0,
        steps: steps.push(TextStepModel::Geometry(GeometryStep::NewPage)),
        items,
        bytes,
    }
}

/// The text of strings from the `k`-th on.
pub open spec fn joined_text(texts: Seq<Seq<u8>>, k: int) -> Seq<char>
    decreases texts.len() - k,
{
    if k >= texts.len() {
        Seq::empty()
    } else {
        pdf_text(texts[k]) + joined_text(texts, k + 1)
    }
}

/// What one operation does to a walk. Inside a graphics state that was not
/// kept only the ends of such states count.
pub open spec fn text_step(walk: TextWalkModel, page: u32, op: StepModel) -> TextWalkModel {
    let operands = op.operands;
    if walk.dropped > 0 {
        if op.operator == "q"@ {
            TextWalkModel { dropped: walk.dropped + 1, ..walk }
        } else if op.operator == "Q"@ {
            TextWalkModel { dropped: (walk.dropped - 1) as nat, ..walk }
        } else {
            walk
        }
    } else if op.operator == "q"@ {
        if walk.fonts.len() >= MAX_PDF_GS_STACK_DEPTH {
            TextWalkModel { dropped: 1, ..walk }
        } else {
            TextWalkModel { fonts: walk.fonts.push(walk.fonts.last()), ..walk.reports(GeometryStep::Save) }
        }
    } else if op.operator == "Q"@ {
        if walk.fonts.len() > 1 {
            TextWalkModel { fonts: walk.fonts.drop_last(), ..walk.reports(GeometryStep::Restore) }
        } else {
            walk
        }
    } else if op.operator == "cm"@ {
        if operands.len() == 6 {
            walk.reports(GeometryStep::Concat(matrix_of(operands)))
        } else {
            walk
        }
    } else if op.operator == "Tf"@ {
        if operands.len() >= 2 {
            let name = match name_of(operands[0]) {
                Some(name) => name,
                None => "unknown"@,
            };
            let font = FontModel { name: clamped(name, MAX_PDF_FONT_NAME_BYTES as int), size: number_of(operands[1]) };
            TextWalkModel { fonts: walk.fonts.drop_last().push(font), ..walk }
        } else {
            walk
        }
    } else if op.operator == "TL"@ {
        if operands.len() >= 1 {
            walk.reports(GeometryStep::Leading(number_of(operands[0])))
        } else {
            walk
        }
    } else if op.operator == "BT"@ {
        walk.reports(GeometryStep::BeginText)
    } else if op.operator == "Tm"@ {
        if operands.len() >= 6 {
            walk.reports(GeometryStep::TextMatrix(matrix_of(operands)))
        } else {
            walk
        }
    } else if op.operator == "Td"@ || op.operator == "TD"@ {
        if operands.len() >= 2 {
            walk.reports(
                GeometryStep::Move {
                    dx: number_of(operands[0]),
                    dy: number_of(operands[1]),
                    sets_leading: op.operator == "TD"@,
                },
            )
        } else {
            walk
        }
    } else if op.operator == "T*"@ {
        walk.reports(GeometryStep::NextLine)
    } else if op.operator == "Tj"@ {
        if operands.len() >= 1 && operands[0] is Text {
            walk.shows(page, pdf_text(operands[0]->Text_0))
        } else {
            walk
        }
    } else if op.operator == "TJ"@ {
        if operands.len() >= 1 && operands[0] is Texts {
            walk.shows(page, joined_text(operands[0]->Texts_0, 0))
        } else {
            walk
        }
    } else {
        walk
    }
}

/// The operations from the `k`-th on, until the limits are reached.
pub open spec fn text_walk(walk: TextWalkModel, page: u32, ops: Seq<StepModel>, k: int, limits: InspectLimits) -> TextWalkModel
    decreases ops.len() - k,
{
    if k >= ops.len() || walk.full(limits) {
        walk
    } else {
        text_walk(text_step(walk, page, ops[k]), page, ops, k + 1, limits)
    }
}

/// A pass over the pages: what was reported so far, what is left of the
/// budgets, and the streams decoded.
pub ghost struct TextPassModel {
    pub steps: Seq<TextStepModel>,
    pub items: nat,
    pub bytes: nat,
    pub content: nat,
    pub operations: nat,
    pub cache: Map<ObjectKey, Seq<u8>>,
}

/// The pass over a page whose content was gathered; nothing where it is the
/// last page to be looked at.
pub open spec fn text_page(pass: TextPassModel, page: u32, g: Gathered, limits: InspectLimits) -> Option<TextPassModel> {
    let paid = TextPassModel { content: g.budget, cache: g.cache, ..pass };
    match g.content {
        PageContentModel::Exhausted => None,
        PageContentModel::Skip => Some(paid),
        PageContentModel::Ready(bytes) => match content_operations(bytes) {
            None => Some(paid),
            Some(ops) => {
                let walk = text_walk(page_start(pass.steps, pass.items, pass.bytes), page, steps_of(ops), 0, limits);
                Some(
                    TextPassModel {
                        steps: walk.steps,
                        items: walk.items,
                        bytes: walk.bytes,
                        operations: less(pass.operations, ops.len()),
                        ..paid
                    },
                )
            },
        },
    }
}

/// What a pass reports of the pages from the `i`-th on. Each page costs a
/// floor before it is looked at.
pub open spec fn text_steps(objects: Objects, pages: Seq<ObjectKey>, i: int, pass: TextPassModel, limits: InspectLimits) -> Seq<
    TextStepModel,
>
    decreases pages.len() - i,
{
    let content = less(pass.content, PDF_CONTENT_STREAM_COST_FLOOR_BYTES as nat);
    if i >= pages.len() || pass.items >= limits.items || pass.bytes >= limits.text_bytes || pass.operations == 0 || content == 0 {
        pass.steps
    } else {
        let g = gathered(objects, content_streams(objects, pages[i]), 0, Seq::empty(), content, pass.cache);
        match text_page(pass, (i + 1) as u32, g, limits) {
            Some(next) => text_steps(objects, pages, i + 1, next, limits),
            None => pass.steps,
        }
    }
}

/// A pass that has not begun.
pub open spec fn fresh_text_pass(limits: InspectLimits) -> TextPassModel {
    TextPassModel {
        steps: Seq::empty(),
        items: 0,
        bytes: 0,
        content: limits.content_total_bytes as nat,
        operations: limits.operations as nat,
        cache: Map::empty(),
    }
}

struct TextWalk {
    fonts: Vec<FontState>,
    dropped: usize,
    steps: Vec<TextStep>,
    items: usize,
    bytes: usize,
}

impl View for TextWalk {
    type V = TextWalkModel;

    closed spec fn view(&self) -> TextWalkModel {
        TextWalkModel {
            fonts: views(self.fonts@),
            dropped: self.dropped as nat,
            steps: views(self.steps@),
            items: self.items as nat,
            bytes: self.bytes as nat,
        }
    }
}

fn join_text(texts: &Vec<Vec<u8>>) -> (r: String)
    ensures
        r@ == joined_text(views(texts@), 0),
{
    let mut text: String = String::new();
    let mut k: usize = 0;
    while k < texts.len()
        invariant
            k <= texts@.len(),
            text@ + joined_text(views(texts@), k as int) =~= joined_text(views(texts@), 0),
        decreases texts@.len() - k,
    {
        text.append(decode_pdf_string(texts[k].as_slice()).as_str());
        k = k + 1;
    }
    text
}

impl TextWalk {
    fn report(&mut self, step: GeometryStep)
        ensures
            final(self)@ == old(self)@.reports(step),
    {
        self.steps.push(TextStep::Geometry(step));
    }

    fn show(&mut self, page: u32, text: String)
        requires
            old(self).fonts@.len() > 0,
            old(self).items < usize::MAX,
        ensures
            final(self)@ == old(self)@.shows(page, text@),
    {
        if text.as_str().trim().is_empty() {
            return;
        }
        let taken: usize = text.as_str().as_bytes().len();
        let font: &FontState = &self.fonts[self.fonts.len() - 1];
        let run = TextItem { page, font: (*font.name).clone(), font_size: font.size, text };
        self.items = self.items + 1;
        self.bytes = self.bytes.saturating_add(taken);
        self.steps.push(TextStep::Show(run));
    }

    /// Takes one operation.
    fn apply(&mut self, page: u32, op: &Operation)
        requires
            old(self).fonts@.len() > 0,
            old(self).dropped < usize::MAX,
            old(self).items < usize::MAX,
        ensures
            final(self)@ == text_step(old(self)@, page, op@),
            final(self).fonts@.len() > 0,
            final(self).dropped <= old(self).dropped + 1,
    {
        let operator: &str = op.operator.as_str();
        let operands: &Vec<Operand> = &op.operands;
        let n: usize = operands.len();
        if self.dropped > 0 {
            if *operator == *"q" {
                self.dropped = self.dropped + 1;
            } else if *operator == *"Q" {
                self.dropped = self.dropped - 1;
            }
        } else if *operator == *"q" {
            if self.fonts.len() >= MAX_PDF_GS_STACK_DEPTH {
                self.dropped = 1;
            } else {
                let top: &FontState = &self.fonts[self.fonts.len() - 1];
                let saved = FontState { name: top.name.clone(), size: top.size };
                self.fonts.push(saved);
                self.report(GeometryStep::Save);
            }
        } else if *operator == *"Q" {
            if self.fonts.len() > 1 {
                self.fonts.pop();
                assert(views(self.fonts@) =~= views(old(self).fonts@).drop_last());
                self.report(GeometryStep::Restore);
            }
        } else if *operator == *"cm" {
            if n == 6 {
                self.report(GeometryStep::Concat(read_matrix(operands)));
            }
        } else if *operator == *"Tf" {
            if n >= 2 {
                let name: &str = match operand_name(&operands[0]) {
                    Some(name) => name,
                    None => "unknown",
                };
                let font = FontState { name: Rc::new(clamp_font_name(name).to_owned()), size: operand_number(&operands[1]) };
                self.fonts.pop();
                assert(views(self.fonts@) =~= views(old(self).fonts@).drop_last());
                self.fonts.push(font);
            }
        } else if *operator == *"TL" {
            if n >= 1 {
                self.report(GeometryStep::Leading(operand_number(&operands[0])));
            }
        } else if *operator == *"BT" {
            self.report(GeometryStep::BeginText);
        } else if *operator == *"Tm" {
            if n >= 6 {
                self.report(GeometryStep::TextMatrix(read_matrix(operands)));
            }
        } else if *operator == *"Td" || *operator == *"TD" {
            if n >= 2 {
                let sets_leading: bool = *operator == *"TD";
                self.report(
                    GeometryStep::Move { dx: operand_number(&operands[0]), dy: operand_number(&operands[1]), sets_leading },
                );
            }
        } else if *operator == *"T*" {
            self.report(GeometryStep::NextLine);
        } else if *operator == *"Tj" {
            if n >= 1 {
                if let Operand::Text(bytes) = &operands[0] {
                    self.show(page, decode_pdf_string(bytes.as_slice()));
                }
            }
        } else if *operator == *"TJ" {
            if n >= 1 {
                if let Operand::Texts(texts) = &operands[0] {
                    self.show(page, join_text(texts));
                }
            }
        }
        assert(self@.fonts.len() == self.fonts@.len());
    }

    /// Begins a page.
    fn begin_page(&mut self)
        ensures
            final(self)@ == page_start(old(self)@.steps, old(self)@.items, old(self)@.bytes),
            final(self).fonts@.len() > 0,
    {
        let mut fonts: Vec<FontState> = Vec::new();
        fonts.push(FontState { name: Rc::new("unknown".to_owned()), size: PdfNumber::Integer(12) });
        assert(views(fonts@) =~= seq![FontModel { name: "unknown"@, size: PdfNumber::Integer(12) }]);
        self.fonts = fonts;
        self.dropped = 0;
        self.report(GeometryStep::NewPage);
    }

    /// Takes the operations of a page until the limits are reached.
    fn walk(&mut self, page: u32, ops: &Vec<Operation>, limits: &InspectLimits)
        requires
            old(self).fonts@.len() > 0,
            old(self).dropped == 0,
        ensures
            final(self)@ == text_walk(old(self)@, page, views(ops@), 0, *limits),
    {
        let mut k: usize = 0;
        while k < ops.len() && self.items < limits.items && self.bytes < limits.text_bytes
            invariant
                k <= ops@.len(),
                self.fonts@.len() > 0,
                self.dropped <= k,
                text_walk(self@, page, views(ops@), k as int, *limits) == text_walk(
                    old(self)@,
                    page,
                    views(ops@),
                    0,
                    *limits,
                ),
            decreases ops@.len() - k,
        {
            self.apply(page, &ops[k]);
            k = k + 1;
        }
    }
}

/// Reports the text that the operations of a page show, within the limits.
pub fn text_of_operations(page: u32, ops: &Vec<Operation>, limits: &InspectLimits) -> (r: Vec<TextStep>)
    ensures
        views(r@) == text_walk(page_start(Seq::empty(), 0, 0), page, views(ops@), 0, *limits).steps,
{
    let mut walk = TextWalk { fonts: Vec::new(), dropped: 0, steps: Vec::new(), items: 0, bytes: 0 };
    assert(walk@.steps =~= Seq::empty());
    walk.begin_page();
    walk.walk(page, ops, limits);
    walk.steps
}

/// What the first pages come to where the budget ends before they do.
proof fn lemma_first_pages_suffice(
    objects: Objects,
    pages: Seq<ObjectKey>,
    n: int,
    i: int,
    pass: TextPassModel,
    limits: InspectLimits,
)
    requires
        0 <= i <= n <= pages.len(),
        pass.content + i * PDF_CONTENT_STREAM_COST_FLOOR_BYTES <= limits.content_total_bytes,
        n < pages.len() ==> limits.content_total_bytes < n * PDF_CONTENT_STREAM_COST_FLOOR_BYTES,
    ensures
        text_steps(objects, pages.take(n), i, pass, limits) == text_steps(objects, pages, i, pass, limits),
    decreases n - i,
{
    let content = less(pass.content, PDF_CONTENT_STREAM_COST_FLOOR_BYTES as nat);
    if i < n && content > 0 {
        let ids = content_streams(objects, pages[i]);
        let g = gathered(objects, ids, 0, Seq::empty(), content, pass.cache);
        lemma_gathered_spends(objects, ids, 0, Seq::empty(), content, pass.cache);
        assert(pages.take(n)[i] == pages[i]);
        if let Some(next) = text_page(pass, (i + 1) as u32, g, limits) {
            lemma_first_pages_suffice(objects, pages, n, i + 1, next, limits);
        }
    }
}

/// Reports the text that the pages of a document show, within the limits.
pub fn extract_text_items(doc: &lopdf::Document, limits: &InspectLimits) -> (r: Vec<TextStep>)
    ensures
        views(r@) == text_steps(
            document_objects(*doc),
            page_tree(document_trailer(*doc), document_objects(*doc)),
            0,
            fresh_text_pass(*limits),
            *limits,
        ),
{
    let ghost objects = document_objects(*doc);
    let pages: Vec<ObjectKey> = tree_pages(doc);
    let mut walk = TextWalk { fonts: Vec::new(), dropped: 0, steps: Vec::new(), items: 0, bytes: 0 };
    let mut content: usize = limits.content_total_bytes;
    let mut operations: usize = limits.operations;
    let mut cache = DecodedStreams::new();
    let ghost whole = text_steps(objects, pages@, 0, fresh_text_pass(*limits), *limits);
    let mut i: usize = 0;
    while i < pages.len()
        invariant_except_break
            i <= pages@.len(),
            objects == document_objects(*doc),
            text_steps(
                objects,
                pages@,
                i as int,
                TextPassModel {
                    steps: walk@.steps,
                    items: walk@.items,
                    bytes: walk@.bytes,
                    content: content as nat,
                    operations: operations as nat,
                    cache: cache@,
                },
                *limits,
            ) == whole,
        ensures
            walk@.steps == whole,
        decreases pages@.len() - i,
    {
        if walk.items >= limits.items || walk.bytes >= limits.text_bytes || operations == 0 {
            break;
        }
        content = content.saturating_sub(PDF_CONTENT_STREAM_COST_FLOOR_BYTES);
        if content == 0 {
            break;
        }
        let page: u32 = (i + 1) as u32;
        match gather_page_content(doc, pages[i], &mut content, &mut cache) {
            PageContent::Ready(bytes) => {
                if let Some(list) = decode_content(bytes.as_slice()) {
                    operations = operations.saturating_sub(list.len());
                    walk.begin_page();
                    walk.walk(page, &read_operations(&list), limits);
                }
            },
            PageContent::Skip => {},
            PageContent::Exhausted => {
                break;
            },
        }
        i = i + 1;
    }
    walk.steps
}

/// How many texts are shown.
pub open spec fn shown(steps: Seq<TextStepModel>) -> nat
    decreases steps.len(),
{
    if steps.len() == 0 {
        0
    } else if steps.last() is Show {
        shown(steps.drop_last()) + 1
    } else {
        shown(steps.drop_last())
    }
}

/// How many bytes of text are shown.
pub open spec fn shown_bytes(steps: Seq<TextStepModel>) -> nat
    decreases steps.len(),
{
    if steps.len() == 0 {
        0
    } else {
        match steps.last() {
            TextStepModel::Show(run) => shown_bytes(steps.drop_last()) + encode_utf8(run.text).len(),
            _ => shown_bytes(steps.drop_last()),
        }
    }
}

/// Whether each text was taken while both limits had room.
pub open spec fn taken_within(steps: Seq<TextStepModel>, limits: InspectLimits) -> bool {
    forall|j: int|
        #![trigger steps[j]]
        0 <= j < steps.len() && steps[j] is Show ==> shown(steps.take(j)) < limits.items && shown_bytes(steps.take(j))
            < limits.text_bytes
}

/// What is counted agrees with what is reported.
spec fn counted(steps: Seq<TextStepModel>, items: nat, bytes: nat, limits: InspectLimits) -> bool {
    &&& items == shown(steps)
    &&& bytes == if shown_bytes(steps) <= usize::MAX {
        shown_bytes(steps)
    } else {
        usize::MAX as nat
    }
    &&& taken_within(steps, limits)
}

proof fn lemma_counted_push(steps: Seq<TextStepModel>, step: TextStepModel, items: nat, bytes: nat, limits: InspectLimits)
    requires
        counted(steps, items, bytes, limits),
        step is Show ==> items < limits.items && bytes < limits.text_bytes,
    ensures
        taken_within(steps.push(step), limits),
        shown(steps.push(step)) == if step is Show { shown(steps) + 1 } else { shown(steps) },
        shown_bytes(steps.push(step)) == if let TextStepModel::Show(run) = step {
            shown_bytes(steps) + encode_utf8(run.text).len()
        } else {
            shown_bytes(steps)
        },
{
    let longer = steps.push(step);
    assert(longer.drop_last() =~= steps);
    assert forall|j: int|
        #![trigger longer[j]]
        0 <= j < longer.len() && longer[j] is Show implies shown(longer.take(j)) < limits.items && shown_bytes(longer.take(j))
        < limits.text_bytes by {
        if j < steps.len() {
            assert(steps[j] == longer[j]);
            assert(longer.take(j) =~= steps.take(j));
        } else {
            assert(longer.take(j) =~= steps);
        }
    }
}

proof fn lemma_step_counts(walk: TextWalkModel, page: u32, op: StepModel, limits: InspectLimits)
    requires
        counted(walk.steps, walk.items, walk.bytes, limits),
        !walk.full(limits),
    ensures
        ({
            let next = text_step(walk, page, op);
            counted(next.steps, next.items, next.bytes, limits)
        }),
{
    let next = text_step(walk, page, op);
    if next.steps != walk.steps {
        lemma_counted_push(walk.steps, next.steps.last(), walk.items, walk.bytes, limits);
        assert(next.steps == walk.steps.push(next.steps.last()));
    }
}

proof fn lemma_walk_counts(walk: TextWalkModel, page: u32, ops: Seq<StepModel>, k: int, limits: InspectLimits)
    requires
        counted(walk.steps, walk.items, walk.bytes, limits),
    ensures
        ({
            let end = text_walk(walk, page, ops, k, limits);
            counted(end.steps, end.items, end.bytes, limits)
        }),
    decreases ops.len() - k,
{
    if k < ops.len() && !walk.full(limits) {
        lemma_step_counts(walk, page, ops[k], limits);
        lemma_walk_counts(text_step(walk, page, ops[k]), page, ops, k + 1, limits);
    }
}

proof fn lemma_pages_count(objects: Objects, pages: Seq<ObjectKey>, i: int, pass: TextPassModel, limits: InspectLimits)
    requires
        counted(pass.steps, pass.items, pass.bytes, limits),
    ensures
        taken_within(text_steps(objects, pages, i, pass, limits), limits),
    decreases pages.len() - i,
{
    let content = less(pass.content, PDF_CONTENT_STREAM_COST_FLOOR_BYTES as nat);
    if i < pages.len() && content > 0 {
        let g = gathered(objects, content_streams(objects, pages[i]), 0, Seq::empty(), content, pass.cache);
        if let PageContentModel::Ready(bytes) = g.content {
            if let Some(ops) = content_operations(bytes) {
                lemma_counted_push(
                    pass.steps,
                    TextStepModel::Geometry(GeometryStep::NewPage),
                    pass.items,
                    pass.bytes,
                    limits,
                );
                lemma_walk_counts(
                    page_start(pass.steps, pass.items, pass.bytes),
                    (i + 1) as u32,
                    steps_of(ops),
                    0,
                    limits,
                );
            }
        }
        if let Some(next) = text_page(pass, (i + 1) as u32, g, limits) {
            lemma_pages_count(objects, pages, i + 1, next, limits);
        }
    }
}

/// However a document is made, each text that is reported of it was taken
/// while fewer texts, and less text, than the limits had been: the count is
/// within its limit, and the text goes beyond its limit by the last one at
/// most.
pub proof fn law_texts_are_taken_within_limits(objects: Objects, pages: Seq<ObjectKey>, limits: InspectLimits)
    ensures
        taken_within(text_steps(objects, pages, 0, fresh_text_pass(limits), limits), limits),
{
    lemma_pages_count(objects, pages, 0, fresh_text_pass(limits), limits);
}

/// No page that lies beyond what the content budget pays for makes a
/// difference, however many there are: each costs at least the floor.
pub proof fn law_pages_beyond_the_budget_do_not_matter(objects: Objects, pages: Seq<ObjectKey>, n: nat, limits: InspectLimits)
    requires
        n <= pages.len(),
        limits.content_total_bytes < n * PDF_CONTENT_STREAM_COST_FLOOR_BYTES,
    ensures
        text_steps(objects, pages.take(n as int), 0, fresh_text_pass(limits), limits) == text_steps(
            objects,
            pages,
            0,
            fresh_text_pass(limits),
            limits,
        ),
{
    lemma_first_pages_suffice(objects, pages, n as int, 0, fresh_text_pass(limits), limits);
}

/// What a pass does with the pages from the `i`-th on.
pub open spec fn text_work(objects: Objects, pages: Seq<ObjectKey>, i: int, pass: TextPassModel, limits: InspectLimits) -> PassWork
    decreases pages.len() - i,
{
    let content = less(pass.content, PDF_CONTENT_STREAM_COST_FLOOR_BYTES as nat);
    if i >= pages.len() || pass.items >= limits.items || pass.bytes >= limits.text_bytes || pass.operations == 0 || content == 0 {
        PassWork::nothing()
    } else {
        let g = gathered(objects, content_streams(objects, pages[i]), 0, Seq::empty(), content, pass.cache);
        match text_page(pass, (i + 1) as u32, g, limits) {
            Some(next) => text_work(objects, pages, i + 1, next, limits).after_page(operations_in(g.content)),
            None => PassWork::nothing().after_page(0),
        }
    }
}

proof fn lemma_walk_len(walk: TextWalkModel, page: u32, ops: Seq<StepModel>, k: int, limits: InspectLimits)
    requires
        0 <= k <= ops.len(),
    ensures
        text_walk(walk, page, ops, k, limits).steps.len() <= walk.steps.len() + ops.len() - k,
    decreases ops.len() - k,
{
    if k < ops.len() && !walk.full(limits) {
        lemma_walk_len(text_step(walk, page, ops[k]), page, ops, k + 1, limits);
    }
}

proof fn lemma_pages_work(objects: Objects, pages: Seq<ObjectKey>, i: int, pass: TextPassModel, limits: InspectLimits)
    ensures
        ({
            let work = text_work(objects, pages, i, pass, limits);
            &&& text_steps(objects, pages, i, pass, limits).len() <= pass.steps.len() + work.pages + work.operations
            &&& work.within(pass.content, pass.operations)
        }),
    decreases pages.len() - i,
{
    let content = less(pass.content, PDF_CONTENT_STREAM_COST_FLOOR_BYTES as nat);
    if i < pages.len() && content > 0 {
        let ids = content_streams(objects, pages[i]);
        let g = gathered(objects, ids, 0, Seq::empty(), content, pass.cache);
        lemma_gathered_spends(objects, ids, 0, Seq::empty(), content, pass.cache);
        if let Some(next) = text_page(pass, (i + 1) as u32, g, limits) {
            if let PageContentModel::Ready(bytes) = g.content {
                if let Some(ops) = content_operations(bytes) {
                    let start = page_start(pass.steps, pass.items, pass.bytes);
                    lemma_walk_len(start, (i + 1) as u32, steps_of(ops), 0, limits);
                }
            }
            lemma_pages_work(objects, pages, i + 1, next, limits);
        }
    }
}

/// However a document is made, a pass reports no more steps than it decodes
/// operations and looks at pages. What these can be the budgets say; only the
/// operations of the last page may go beyond them.
pub proof fn law_steps_are_bounded_by_the_work(objects: Objects, pages: Seq<ObjectKey>, limits: InspectLimits)
    ensures
        ({
            let work = text_work(objects, pages, 0, fresh_text_pass(limits), limits);
            &&& text_steps(objects, pages, 0, fresh_text_pass(limits), limits).len() <= work.pages + work.operations
            &&& work.within(limits.content_total_bytes as nat, limits.operations as nat)
        }),
{
    lemma_pages_work(objects, pages, 0, fresh_text_pass(limits), limits);
}

/// Whether the name of a font is not longer than it may be.
pub open spec fn short_name(name: Seq<char>) -> bool {
    encode_utf8(name).len() <= MAX_PDF_FONT_NAME_BYTES
}

/// Whether all texts come with the name of a font that is not too long.
pub open spec fn short_names(steps: Seq<TextStepModel>) -> bool {
    forall|j: int| 0 <= j < steps.len() ==> ((#[trigger] steps[j]) matches TextStepModel::Show(run) ==> short_name(run.font))
}

/// Whether the fonts of all graphics states have names that are not too long.
spec fn short_fonts(fonts: Seq<FontModel>) -> bool {
    forall|j: int| 0 <= j < fonts.len() ==> short_name((#[trigger] fonts[j]).name)
}

proof fn lemma_unknown_is_short()
    ensures
        short_name("unknown"@),
{
    reveal_strlit("unknown");
    reveal_with_fuel(encode_utf8, 8);
}

proof fn lemma_walk_names(walk: TextWalkModel, page: u32, ops: Seq<StepModel>, k: int, limits: InspectLimits)
    requires
        walk.fonts.len() > 0,
        short_fonts(walk.fonts),
        short_names(walk.steps),
    ensures
        short_names(text_walk(walk, page, ops, k, limits).steps),
    decreases ops.len() - k,
{
    if k < ops.len() && !walk.full(limits) {
        let op = ops[k];
        let next = text_step(walk, page, op);
        assert(next.fonts.len() > 0 && short_fonts(next.fonts)) by {
            if op.operands.len() >= 2 {
                let name = match name_of(op.operands[0]) {
                    Some(name) => name,
                    None => "unknown"@,
                };
                law_clamping_keeps_the_longest_start(name, MAX_PDF_FONT_NAME_BYTES as nat);
            }
        }
        assert(short_name(walk.fonts.last().name));
        lemma_walk_names(next, page, ops, k + 1, limits);
    }
}

proof fn lemma_pages_names(objects: Objects, pages: Seq<ObjectKey>, i: int, pass: TextPassModel, limits: InspectLimits)
    requires
        short_names(pass.steps),
    ensures
        short_names(text_steps(objects, pages, i, pass, limits)),
    decreases pages.len() - i,
{
    let content = less(pass.content, PDF_CONTENT_STREAM_COST_FLOOR_BYTES as nat);
    if i < pages.len() && content > 0 {
        let g = gathered(objects, content_streams(objects, pages[i]), 0, Seq::empty(), content, pass.cache);
        if let PageContentModel::Ready(bytes) = g.content {
            if let Some(ops) = content_operations(bytes) {
                lemma_unknown_is_short();
                lemma_walk_names(
                    page_start(pass.steps, pass.items, pass.bytes),
                    (i + 1) as u32,
                    steps_of(ops),
                    0,
                    limits,
                );
            }
        }
        if let Some(next) = text_page(pass, (i + 1) as u32, g, limits) {
            lemma_pages_names(objects, pages, i + 1, next, limits);
        }
    }
}

/// However long the names of fonts in a document are, none that is reported is
/// longer than it may be.
pub proof fn law_font_names_are_short(objects: Objects, pages: Seq<ObjectKey>, limits: InspectLimits)
    ensures
        short_names(text_steps(objects, pages, 0, fresh_text_pass(limits), limits)),
{
    lemma_pages_names(objects, pages, 0, fresh_text_pass(limits), limits);
}

/// The operations from the `k`-th on, no limit in force.
pub open spec fn text_fold(walk: TextWalkModel, page: u32, ops: Seq<StepModel>, k: int) -> TextWalkModel
    decreases ops.len() - k,
{
    if k >= ops.len() {
        walk
    } else {
        text_fold(text_step(walk, page, ops[k]), page, ops, k + 1)
    }
}

/// How many more graphics states are saved than restored after the operations
/// from the `k`-th on, from a given depth; nothing where more are restored
/// somewhere than were saved.
pub open spec fn depth_after(ops: Seq<StepModel>, k: int, depth: nat) -> Option<nat>
    decreases ops.len() - k,
{
    if k >= ops.len() {
        Some(depth)
    } else if ops[k].operator == "q"@ {
        depth_after(ops, k + 1, depth + 1)
    } else if ops[k].operator == "Q"@ {
        if depth == 0 {
            None
        } else {
            depth_after(ops, k + 1, (depth - 1) as nat)
        }
    } else {
        depth_after(ops, k + 1, depth)
    }
}

/// Whether a walk keeps as many graphics states as it may before it drops any.
pub open spec fn walk_ok(walk: TextWalkModel) -> bool {
    &&& 1 <= walk.fonts.len() <= MAX_PDF_GS_STACK_DEPTH
    &&& walk.dropped > 0 ==> walk.fonts.len() == MAX_PDF_GS_STACK_DEPTH
}

/// The number of graphics states that are open.
pub open spec fn level(walk: TextWalkModel) -> nat {
    walk.fonts.len() + walk.dropped
}

/// The fonts of the outermost graphics states.
pub open spec fn outer_fonts(walk: TextWalkModel, n: nat) -> Seq<FontModel> {
    walk.fonts.take(if n < walk.fonts.len() { n as int } else { walk.fonts.len() as int })
}

proof fn lemma_step_level(walk: TextWalkModel, page: u32, op: StepModel, outer: nat)
    requires
        walk_ok(walk),
        1 <= outer < level(walk),
    ensures
        ({
            let next = text_step(walk, page, op);
            &&& walk_ok(next)
            &&& level(next) == if op.operator == "q"@ {
                level(walk) + 1int
            } else if op.operator == "Q"@ {
                level(walk) - 1
            } else {
                level(walk) as int
            }
            &&& outer_fonts(next, outer) == outer_fonts(walk, outer)
        }),
{
    reveal_strlit("q");
    reveal_strlit("Q");
    assert("q"@[0] != "Q"@[0]);
    let next = text_step(walk, page, op);
    assert(outer_fonts(next, outer) =~= outer_fonts(walk, outer));
}

proof fn lemma_fold_level(walk: TextWalkModel, page: u32, ops: Seq<StepModel>, k: int, outer: nat)
    requires
        walk_ok(walk),
        1 <= outer < level(walk),
        depth_after(ops, k, (level(walk) - outer - 1) as nat) is Some,
    ensures
        ({
            let end = text_fold(walk, page, ops, k);
            &&& walk_ok(end)
            &&& level(end) == outer + 1 + depth_after(ops, k, (level(walk) - outer - 1) as nat)->0
            &&& outer_fonts(end, outer) == outer_fonts(walk, outer)
        }),
    decreases ops.len() - k,
{
    if k < ops.len() {
        lemma_step_level(walk, page, ops[k], outer);
        lemma_fold_level(text_step(walk, page, ops[k]), page, ops, k + 1, outer);
    }
}

/// A graphics state that is saved and restored leaves the font as it was,
/// whatever happens in between and however deep it is: also where it is so
/// deep that it is not kept.
pub proof fn law_restored_state_is_the_saved_one(walk: TextWalkModel, page: u32, save: StepModel, ops: Seq<StepModel>, restore: StepModel)
    requires
        walk_ok(walk),
        save.operator == "q"@,
        restore.operator == "Q"@,
        depth_after(ops, 0, 0) == Some(0nat),
    ensures
        ({
            let inside = text_fold(text_step(walk, page, save), page, ops, 0);
            let end = text_step(inside, page, restore);
            end.fonts == walk.fonts && end.dropped == walk.dropped
        }),
{
    reveal_strlit("q");
    reveal_strlit("Q");
    assert("q"@[0] != "Q"@[0]);
    let entered = text_step(walk, page, save);
    let outer = level(walk);
    assert(outer_fonts(entered, outer) =~= walk.fonts);
    lemma_fold_level(entered, page, ops, 0, outer);
    let inside = text_fold(entered, page, ops, 0);
    let end = text_step(inside, page, restore);
    assert(end.fonts =~= walk.fonts);
}

/// While a graphics state that was not kept is open, nothing is reported and
/// no font changes.
pub proof fn law_dropped_states_show_nothing(walk: TextWalkModel, page: u32, op: StepModel)
    requires
        walk.dropped > 0,
    ensures
        ({
            let next = text_step(walk, page, op);
            next.steps == walk.steps && next.fonts == walk.fonts && next.items == walk.items && next.bytes == walk.bytes
        }),
{
}

} // verus!
