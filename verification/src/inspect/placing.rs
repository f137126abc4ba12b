//! Where a page shows its texts and images.
//!
//! Places are computed twice: from the operations of a page by the rules of PDF, and
//! from the steps that a pass reports. Numbers are valued by any function, lengths of
//! texts by any other.

use crate::inspect::InspectLimits;
use crate::inspect::image_pass::{ImageStepModel, ImageWalkModel, image_page_start, image_step, image_walk};
use crate::inspect::pdf::PdfNumber;
use crate::inspect::resources::ImageModel;
use crate::inspect::steps::{GeometryStep, Matrix, OperandModel, StepModel};
use crate::inspect::strings::{clamped, name_of_bytes, pdf_text};
use crate::inspect::text_pass::{
    FontModel, TextStepModel, TextWalkModel, joined_text, page_start, text_step, text_walk,
};
use crate::text::{trimmed, trimmed_end, trimmed_start, white_space};
use vstd::prelude::*;

verus! {

/// A transformation: `x` becomes `a x + c y + e`, and `y` becomes `b x + d y + f`.
pub ghost struct Transform {
    pub a: int,
    pub b: int,
    pub c: int,
    pub d: int,
    pub e: int,
    pub f: int,
}

/// The transformation that changes nothing.
pub open spec fn identity() -> Transform {
    Transform { a: 1, b: 0, c: 0, d: 1, e: 0, f: 0 }
}

impl Transform {
    /// Where a point goes.
    pub open spec fn maps(self, x: int, y: int) -> (int, int) {
        (self.a * x + self.c * y + self.e, self.b * x + self.d * y + self.f)
    }

    /// Where a direction goes.
    pub open spec fn turns(self, x: int, y: int) -> (int, int) {
        (self.a * x + self.c * y, self.b * x + self.d * y)
    }

    /// This transformation after another.
    pub open spec fn after(self, first: Transform) -> Transform {
        let x = self.turns(first.a, first.b);
        let y = self.turns(first.c, first.d);
        let origin = self.maps(first.e, first.f);
        Transform { a: x.0, b: x.1, c: y.0, d: y.1, e: origin.0, f: origin.1 }
    }
}

/// What is known of numbers and texts: the value of a number and the width of a text
/// in a size.
pub ghost struct Scale {
    pub value: spec_fn(PdfNumber) -> int,
    pub width: spec_fn(Seq<char>, PdfNumber) -> int,
}

/// The coordinates at some point of a page: the transformations of the graphics
/// states, the innermost last, the text matrix with the start of the line as its
/// origin, the leading, and the place where the next text is shown.
pub ghost struct Place {
    pub saved: Seq<Transform>,
    pub text: Transform,
    pub leading: int,
    pub at: (int, int),
}

/// The coordinates at the start of a page.
pub open spec fn page_corner() -> Place {
    Place { saved: seq![identity()], text: identity(), leading: 0, at: (0, 0) }
}

impl Place {
    /// The start of the line, on the page.
    pub open spec fn at_line_start(self) -> Place {
        Place { at: self.saved.last().maps(self.text.e, self.text.f), ..self }
    }

    /// The next line, at an offset from this one in the coordinates of the text.
    pub open spec fn line_moved(self, dx: int, dy: int) -> Place {
        let start = self.text.maps(dx, dy);
        Place { text: Transform { e: start.0, f: start.1, ..self.text }, ..self }.at_line_start()
    }

    /// A text matrix.
    pub open spec fn with_text(self, text: Transform) -> Place {
        Place { text, ..self }.at_line_start()
    }
}

/// A text on a page.
pub ghost struct PlacedText {
    pub page: u32,
    pub text: Seq<char>,
    pub font: Seq<char>,
    pub size: PdfNumber,
    pub at: (int, int),
}

/// An image on a page, and the transformation that its unit square is placed by.
pub ghost struct PlacedImage {
    pub page: u32,
    pub image: ImageModel,
    pub by: Transform,
}

/// A matrix as a transformation.
pub open spec fn transform_of(m: Matrix, scale: Scale) -> Transform {
    Transform {
        a: (scale.value)(m.a),
        b: (scale.value)(m.b),
        c: (scale.value)(m.c),
        d: (scale.value)(m.d),
        e: (scale.value)(m.e),
        f: (scale.value)(m.f),
    }
}

/// Where a reported step leads.
pub open spec fn follow(place: Place, step: GeometryStep, scale: Scale) -> Place {
    match step {
        GeometryStep::NewPage => page_corner(),
        GeometryStep::Save => Place { saved: place.saved.push(place.saved.last()), ..place },
        GeometryStep::Restore => Place { saved: place.saved.drop_last(), ..place },
        GeometryStep::Concat(m) => Place {
            saved: place.saved.drop_last().push(place.saved.last().after(transform_of(m, scale))),
            ..place
        },
        GeometryStep::BeginText => place.with_text(identity()),
        GeometryStep::TextMatrix(m) => place.with_text(transform_of(m, scale)),
        GeometryStep::Move { dx, dy, sets_leading } => {
            let led = Place { leading: if sets_leading { -(scale.value)(dy) } else { place.leading }, ..place };
            led.line_moved((scale.value)(dx), (scale.value)(dy))
        },
        GeometryStep::Leading(leading) => Place { leading: (scale.value)(leading), ..place },
        GeometryStep::NextLine => place.line_moved(0, -place.leading),
    }
}

/// Where the steps of a text pass lead, and the texts that they show on the way.
pub open spec fn replayed(steps: Seq<TextStepModel>, scale: Scale) -> (Place, Seq<PlacedText>)
    decreases steps.len(),
{
    if steps.len() == 0 {
        (page_corner(), Seq::empty())
    } else {
        let (place, texts) = replayed(steps.drop_last(), scale);
        match steps.last() {
            TextStepModel::Geometry(step) => (follow(place, step, scale), texts),
            TextStepModel::Show(run) => (
                Place { at: (place.at.0 + (scale.width)(run.text, run.font_size), place.at.1), ..place },
                texts.push(
                    PlacedText { page: run.page, text: run.text, font: run.font, size: run.font_size, at: place.at },
                ),
            ),
        }
    }
}

/// Where the steps of an image pass lead, and the images that they place on the way.
pub open spec fn replayed_images(steps: Seq<ImageStepModel>, scale: Scale) -> (Place, Seq<PlacedImage>)
    decreases steps.len(),
{
    if steps.len() == 0 {
        (page_corner(), Seq::empty())
    } else {
        let (place, images) = replayed_images(steps.drop_last(), scale);
        match steps.last() {
            ImageStepModel::Geometry(step) => (follow(place, step, scale), images),
            ImageStepModel::Place(item) => (
                place,
                images.push(PlacedImage { page: item.page, image: item.image, by: place.saved.last() }),
            ),
        }
    }
}

/// A number among operands: zero where there is something else.
pub open spec fn amount(operand: OperandModel) -> PdfNumber {
    if operand is Number {
        operand->Number_0
    } else {
        PdfNumber::Integer(0)
    }
}

/// The transformation that the first six operands spell.
pub open spec fn spelled(operands: Seq<OperandModel>, scale: Scale) -> Transform {
    Transform {
        a: (scale.value)(amount(operands[0])),
        b: (scale.value)(amount(operands[1])),
        c: (scale.value)(amount(operands[2])),
        d: (scale.value)(amount(operands[3])),
        e: (scale.value)(amount(operands[4])),
        f: (scale.value)(amount(operands[5])),
    }
}

/// The text of strings, one after the other.
pub open spec fn text_of_all(texts: Seq<Seq<u8>>) -> Seq<char>
    decreases texts.len(),
{
    if texts.len() == 0 {
        Seq::empty()
    } else {
        text_of_all(texts.drop_last()) + pdf_text(texts.last())
    }
}

/// The text that an operation shows, if it shows any: the string of `Tj` or the
/// strings of `TJ`.
pub open spec fn text_shown(op: StepModel) -> Option<Seq<char>> {
    if op.operands.len() == 0 {
        None
    } else {
        match op.operands[0] {
            OperandModel::Text(bytes) => if op.operator == "Tj"@ {
                Some(pdf_text(bytes))
            } else {
                None
            },
            OperandModel::Texts(texts) => if op.operator == "TJ"@ {
                Some(text_of_all(texts))
            } else {
                None
            },
            _ => None,
        }
    }
}

/// Whether a text is nothing but white space.
pub open spec fn blank_text(text: Seq<char>) -> bool {
    forall|i: int| 0 <= i < text.len() ==> white_space(#[trigger] text[i])
}

/// The font that `Tf` sets: at most 127 bytes of its name.
pub open spec fn font_set(op: StepModel) -> FontModel {
    let name = match op.operands[0] {
        OperandModel::Name(bytes) => match name_of_bytes(bytes) {
            Some(name) => name,
            None => "unknown"@,
        },
        _ => "unknown"@,
    };
    FontModel { name: clamped(name, 127), size: amount(op.operands[1]) }
}

/// What an operation does to the coordinates, by the rules of PDF. Saving and
/// restoring graphics states is not among them.
pub open spec fn moved(place: Place, op: StepModel, scale: Scale) -> Place {
    let o = op.operands;
    if op.operator == "cm"@ && o.len() == 6 {
        Place { saved: place.saved.drop_last().push(place.saved.last().after(spelled(o, scale))), ..place }
    } else if op.operator == "BT"@ {
        place.with_text(identity())
    } else if op.operator == "Tm"@ && o.len() >= 6 {
        place.with_text(spelled(o, scale))
    } else if op.operator == "TL"@ && o.len() >= 1 {
        Place { leading: (scale.value)(amount(o[0])), ..place }
    } else if op.operator == "Td"@ && o.len() >= 2 {
        place.line_moved((scale.value)(amount(o[0])), (scale.value)(amount(o[1])))
    } else if op.operator == "TD"@ && o.len() >= 2 {
        Place { leading: -(scale.value)(amount(o[1])), ..place }.line_moved(
            (scale.value)(amount(o[0])),
            (scale.value)(amount(o[1])),
        )
    } else if op.operator == "T*"@ {
        place.line_moved(0, -place.leading)
    } else {
        place
    }
}

/// What the operations of a page have shown so far: the coordinates, the fonts of the
/// graphics states, how many states beyond the 512th are open, and the texts.
pub ghost struct Shown {
    pub place: Place,
    pub fonts: Seq<FontModel>,
    pub beyond: nat,
    pub texts: Seq<PlacedText>,
}

/// A page on which nothing has been shown: text would be in an unknown font of size
/// 12.
pub open spec fn nothing_shown() -> Shown {
    Shown {
        place: page_corner(),
        fonts: seq![FontModel { name: "unknown"@, size: PdfNumber::Integer(12) }],
        beyond: 0,
        texts: Seq::empty(),
    }
}

/// What one operation shows.
pub open spec fn shows_next(s: Shown, page: u32, op: StepModel, scale: Scale) -> Shown {
    if op.operator == "q"@ {
        if s.beyond > 0 || s.fonts.len() >= 512 {
            Shown { beyond: s.beyond + 1, ..s }
        } else {
            Shown {
                place: Place { saved: s.place.saved.push(s.place.saved.last()), ..s.place },
                fonts: s.fonts.push(s.fonts.last()),
                ..s
            }
        }
    } else if op.operator == "Q"@ {
        if s.beyond > 0 {
            Shown { beyond: (s.beyond - 1) as nat, ..s }
        } else if s.fonts.len() > 1 {
            Shown {
                place: Place { saved: s.place.saved.drop_last(), ..s.place },
                fonts: s.fonts.drop_last(),
                ..s
            }
        } else {
            s
        }
    } else if s.beyond > 0 {
        s
    } else if op.operator == "Tf"@ && op.operands.len() >= 2 {
        Shown { fonts: s.fonts.drop_last().push(font_set(op)), ..s }
    } else {
        match text_shown(op) {
            Some(text) => if blank_text(text) {
                s
            } else {
                let font = s.fonts.last();
                Shown {
                    place: Place { at: (s.place.at.0 + (scale.width)(text, font.size), s.place.at.1), ..s.place },
                    texts: s.texts.push(
                        PlacedText { page, text, font: font.name, size: font.size, at: s.place.at },
                    ),
                    ..s
                }
            },
            None => Shown { place: moved(s.place, op, scale), ..s },
        }
    }
}

/// What the first `k` operations of a page show, no limit in force.
pub open spec fn page_shows(page: u32, ops: Seq<StepModel>, k: int, scale: Scale) -> Shown
    decreases k,
{
    if k <= 0 || k > ops.len() {
        nothing_shown()
    } else {
        shows_next(page_shows(page, ops, k - 1, scale), page, ops[k - 1], scale)
    }
}

proof fn lemma_operators()
    ensures
        "q"@ != "Q"@ && "q"@ != "cm"@ && "q"@ != "Tf"@ && "q"@ != "TL"@ && "q"@ != "BT"@ && "q"@ != "Tm"@ && "q"@ != "Td"@ && "q"@ != "TD"@ && "q"@ != "T*"@ && "q"@ != "Tj"@ && "q"@ != "TJ"@ && "q"@ != "Do"@,
        "Q"@ != "cm"@ && "Q"@ != "Tf"@ && "Q"@ != "TL"@ && "Q"@ != "BT"@ && "Q"@ != "Tm"@ && "Q"@ != "Td"@ && "Q"@ != "TD"@ && "Q"@ != "T*"@ && "Q"@ != "Tj"@ && "Q"@ != "TJ"@ && "Q"@ != "Do"@,
        "cm"@ != "Tf"@ && "cm"@ != "TL"@ && "cm"@ != "BT"@ && "cm"@ != "Tm"@ && "cm"@ != "Td"@ && "cm"@ != "TD"@ && "cm"@ != "T*"@ && "cm"@ != "Tj"@ && "cm"@ != "TJ"@ && "cm"@ != "Do"@,
        "Tf"@ != "TL"@ && "Tf"@ != "BT"@ && "Tf"@ != "Tm"@ && "Tf"@ != "Td"@ && "Tf"@ != "TD"@ && "Tf"@ != "T*"@ && "Tf"@ != "Tj"@ && "Tf"@ != "TJ"@ && "Tf"@ != "Do"@,
        "TL"@ != "BT"@ && "TL"@ != "Tm"@ && "TL"@ != "Td"@ && "TL"@ != "TD"@ && "TL"@ != "T*"@ && "TL"@ != "Tj"@ && "TL"@ != "TJ"@ && "TL"@ != "Do"@,
        "BT"@ != "Tm"@ && "BT"@ != "Td"@ && "BT"@ != "TD"@ && "BT"@ != "T*"@ && "BT"@ != "Tj"@ && "BT"@ != "TJ"@ && "BT"@ != "Do"@,
        "Tm"@ != "Td"@ && "Tm"@ != "TD"@ && "Tm"@ != "T*"@ && "Tm"@ != "Tj"@ && "Tm"@ != "TJ"@ && "Tm"@ != "Do"@,
        "Td"@ != "TD"@ && "Td"@ != "T*"@ && "Td"@ != "Tj"@ && "Td"@ != "TJ"@ && "Td"@ != "Do"@,
        "TD"@ != "T*"@ && "TD"@ != "Tj"@ && "TD"@ != "TJ"@ && "TD"@ != "Do"@,
        "T*"@ != "Tj"@ && "T*"@ != "TJ"@ && "T*"@ != "Do"@,
        "Tj"@ != "TJ"@ && "Tj"@ != "Do"@,
        "TJ"@ != "Do"@,
{
    reveal_strlit("q");
    reveal_strlit("Q");
    reveal_strlit("cm");
    reveal_strlit("Tf");
    reveal_strlit("TL");
    reveal_strlit("BT");
    reveal_strlit("Tm");
    reveal_strlit("Td");
    reveal_strlit("TD");
    reveal_strlit("T*");
    reveal_strlit("Tj");
    reveal_strlit("TJ");
    reveal_strlit("Do");
    assert("q"@.len() == 1 && "Q"@.len() == 1 && "cm"@.len() == 2 && "Tf"@.len() == 2);
    assert("q"@[0] == 'q' && "Q"@[0] == 'Q' && "cm"@[0] == 'c' && "BT"@[0] == 'B' && "Do"@[0] == 'D');
    assert("Tf"@[0] == 'T' && "TL"@[0] == 'T' && "Tm"@[0] == 'T' && "Td"@[0] == 'T' && "TD"@[0] == 'T');
    assert("Tj"@[0] == 'T' && "TJ"@[0] == 'T' && "T*"@[0] == 'T');
    assert("Tf"@[1] == 'f' && "TL"@[1] == 'L' && "BT"@[1] == 'T' && "Tm"@[1] == 'm' && "Td"@[1] == 'd' && "TD"@[1] == 'D');
    assert("T*"@[1] == '*' && "Tj"@[1] == 'j' && "TJ"@[1] == 'J' && "cm"@[1] == 'm' && "Do"@[1] == 'o');
}

proof fn lemma_trimmed_start(s: Seq<char>)
    ensures
        trimmed_start(s).len() == 0 <==> blank_text(s),
        trimmed_start(s).len() > 0 ==> !white_space(trimmed_start(s)[0]),
    decreases s.len(),
{
    if s.len() > 0 && white_space(s[0]) {
        lemma_trimmed_start(s.drop_first());
        if blank_text(s.drop_first()) {
            assert forall|i: int| 0 <= i < s.len() implies white_space(#[trigger] s[i]) by {
                if i > 0 {
                    assert(s.drop_first()[i - 1] == s[i]);
                }
            }
        }
        if blank_text(s) {
            assert forall|i: int| 0 <= i < s.drop_first().len() implies white_space(#[trigger] s.drop_first()[i]) by {
                assert(s.drop_first()[i] == s[i + 1]);
            }
        }
    }
}

proof fn lemma_trimmed_end(s: Seq<char>)
    requires
        s.len() > 0,
        !white_space(s[0]),
    ensures
        trimmed_end(s).len() > 0,
    decreases s.len(),
{
    if white_space(s.last()) {
        assert(s.len() > 1);
        assert(s.drop_last()[0] == s[0]);
        lemma_trimmed_end(s.drop_last());
    }
}

proof fn lemma_blank(s: Seq<char>)
    ensures
        trimmed(s).len() == 0 <==> blank_text(s),
{
    lemma_trimmed_start(s);
    if trimmed_start(s).len() > 0 {
        lemma_trimmed_end(trimmed_start(s));
    }
}

proof fn lemma_joined(texts: Seq<Seq<u8>>, k: int)
    requires
        0 <= k <= texts.len(),
    ensures
        text_of_all(texts.take(k)) + joined_text(texts, k) == text_of_all(texts),
    decreases texts.len() - k,
{
    if k == texts.len() {
        assert(texts.take(k) =~= texts);
        assert(text_of_all(texts) + Seq::<char>::empty() =~= text_of_all(texts));
    } else {
        lemma_joined(texts, k + 1);
        assert(texts.take(k + 1).drop_last() =~= texts.take(k));
        assert(text_of_all(texts.take(k)) + joined_text(texts, k) =~= text_of_all(texts.take(k + 1)) + joined_text(
            texts,
            k + 1,
        ));
    }
}

/// Whether a walk has reported what was shown.
spec fn agrees(walk: TextWalkModel, s: Shown, before: Seq<PlacedText>, scale: Scale) -> bool {
    let (place, texts) = replayed(walk.steps, scale);
    &&& place == s.place
    &&& texts == before + s.texts
    &&& walk.fonts == s.fonts
    &&& walk.dropped == s.beyond
    &&& s.fonts.len() == s.place.saved.len() > 0
    &&& s.beyond > 0 ==> s.fonts.len() >= 512
}

proof fn lemma_next_text(walk: TextWalkModel, s: Shown, before: Seq<PlacedText>, page: u32, op: StepModel, scale: Scale)
    requires
        agrees(walk, s, before, scale),
        (scale.value)(PdfNumber::Integer(0)) == 0,
    ensures
        agrees(text_step(walk, page, op), shows_next(s, page, op, scale), before, scale),
{
    let next = text_step(walk, page, op);
    lemma_operators();
    if op.operands.len() >= 1 {
        match op.operands[0] {
            OperandModel::Text(bytes) => lemma_blank(pdf_text(bytes)),
            OperandModel::Texts(texts) => {
                lemma_joined(texts, 0);
                assert(texts.take(0) =~= Seq::<Seq<u8>>::empty());
                assert(Seq::<char>::empty() + joined_text(texts, 0) =~= joined_text(texts, 0));
                lemma_blank(text_of_all(texts));
            },
            _ => {},
        }
    }
    if next.steps != walk.steps {
        assert(next.steps.drop_last() =~= walk.steps);
    }
    let t = shows_next(s, page, op, scale);
    if t.texts != s.texts {
        assert(before + t.texts =~= (before + s.texts).push(t.texts.last()));
    }
}

proof fn lemma_page_agrees(
    walk: TextWalkModel,
    before: Seq<PlacedText>,
    page: u32,
    ops: Seq<StepModel>,
    k: int,
    limits: InspectLimits,
    scale: Scale,
) -> (n: int)
    requires
        0 <= k <= ops.len(),
        (scale.value)(PdfNumber::Integer(0)) == 0,
        agrees(walk, page_shows(page, ops, k, scale), before, scale),
    ensures
        k <= n <= ops.len(),
        agrees(text_walk(walk, page, ops, k, limits), page_shows(page, ops, n, scale), before, scale),
        n < ops.len() ==> text_walk(walk, page, ops, k, limits).full(limits),
        n > k ==> !walk.full(limits),
    decreases ops.len() - k,
{
    if k < ops.len() && !walk.full(limits) {
        let s = page_shows(page, ops, k, scale);
        lemma_next_text(walk, s, before, page, ops[k], scale);
        lemma_page_agrees(text_step(walk, page, ops[k]), before, page, ops, k + 1, limits, scale)
    } else {
        k
    }
}

/// The steps that are reported of a page lead to exactly the texts that its operations
/// show by the rules of PDF: each with its place, its font and its size, in their
/// order. Where they end before the operations do, a limit is reached.
pub proof fn law_steps_lead_to_the_texts(
    steps: Seq<TextStepModel>,
    items: nat,
    bytes: nat,
    page: u32,
    ops: Seq<StepModel>,
    limits: InspectLimits,
    scale: Scale,
) -> (n: int)
    requires
        (scale.value)(PdfNumber::Integer(0)) == 0,
    ensures
        ({
            let end = text_walk(page_start(steps, items, bytes), page, ops, 0, limits);
            &&& 0 <= n <= ops.len()
            &&& replayed(end.steps, scale).1 == replayed(steps, scale).1 + page_shows(page, ops, n, scale).texts
            &&& n < ops.len() ==> end.items >= limits.items || end.bytes >= limits.text_bytes
        }),
{
    let start = page_start(steps, items, bytes);
    let before = replayed(steps, scale).1;
    assert(start.steps.drop_last() =~= steps);
    assert(before + Seq::<PlacedText>::empty() =~= before);
    assert(agrees(start, page_shows(page, ops, 0, scale), before, scale));
    lemma_page_agrees(start, before, page, ops, 0, limits, scale)
}

/// What the operations of a page have placed so far.
pub ghost struct Pictured {
    pub saved: Seq<Transform>,
    pub beyond: nat,
    pub images: Seq<PlacedImage>,
}

/// What one operation places, on a page that declares some images.
pub open spec fn pictures_next(
    s: Pictured,
    page: u32,
    declared: Map<Seq<char>, ImageModel>,
    op: StepModel,
    scale: Scale,
) -> Pictured {
    if op.operator == "q"@ {
        if s.beyond > 0 || s.saved.len() >= 512 {
            Pictured { beyond: s.beyond + 1, ..s }
        } else {
            Pictured { saved: s.saved.push(s.saved.last()), ..s }
        }
    } else if op.operator == "Q"@ {
        if s.beyond > 0 {
            Pictured { beyond: (s.beyond - 1) as nat, ..s }
        } else if s.saved.len() > 1 {
            Pictured { saved: s.saved.drop_last(), ..s }
        } else {
            s
        }
    } else if s.beyond > 0 || op.operands.len() == 0 {
        s
    } else if op.operator == "cm"@ && op.operands.len() == 6 {
        Pictured { saved: s.saved.drop_last().push(s.saved.last().after(spelled(op.operands, scale))), ..s }
    } else if op.operator == "Do"@ && op.operands[0] is Name {
        match name_of_bytes(op.operands[0]->Name_0) {
            Some(name) => if declared.contains_key(name) {
                Pictured { images: s.images.push(PlacedImage { page, image: declared[name], by: s.saved.last() }), ..s }
            } else {
                s
            },
            None => s,
        }
    } else {
        s
    }
}

/// What the first `k` operations of a page place, no limit in force.
pub open spec fn page_pictures(
    page: u32,
    declared: Map<Seq<char>, ImageModel>,
    ops: Seq<StepModel>,
    k: int,
    scale: Scale,
) -> Pictured
    decreases k,
{
    if k <= 0 || k > ops.len() {
        Pictured { saved: seq![identity()], beyond: 0, images: Seq::empty() }
    } else {
        pictures_next(page_pictures(page, declared, ops, k - 1, scale), page, declared, ops[k - 1], scale)
    }
}

spec fn image_agrees(walk: ImageWalkModel, s: Pictured, before: Seq<PlacedImage>, scale: Scale) -> bool {
    let (place, images) = replayed_images(walk.steps, scale);
    &&& place.saved == s.saved
    &&& images == before + s.images
    &&& walk.depth == s.saved.len() > 0
    &&& walk.dropped == s.beyond
    &&& s.beyond > 0 ==> s.saved.len() >= 512
}

proof fn lemma_next_image(
    walk: ImageWalkModel,
    s: Pictured,
    before: Seq<PlacedImage>,
    page: u32,
    declared: Map<Seq<char>, ImageModel>,
    op: StepModel,
    scale: Scale,
)
    requires
        image_agrees(walk, s, before, scale),
    ensures
        image_agrees(
            image_step(walk, page, declared, op),
            pictures_next(s, page, declared, op, scale),
            before,
            scale,
        ),
{
    let next = image_step(walk, page, declared, op);
    lemma_operators();
    if next.steps != walk.steps {
        assert(next.steps.drop_last() =~= walk.steps);
    }
    let t = pictures_next(s, page, declared, op, scale);
    if t.images != s.images {
        assert(before + t.images =~= (before + s.images).push(t.images.last()));
    }
}

proof fn lemma_page_images_agree(
    walk: ImageWalkModel,
    before: Seq<PlacedImage>,
    page: u32,
    declared: Map<Seq<char>, ImageModel>,
    ops: Seq<StepModel>,
    k: int,
    limits: InspectLimits,
    scale: Scale,
) -> (n: int)
    requires
        0 <= k <= ops.len(),
        image_agrees(walk, page_pictures(page, declared, ops, k, scale), before, scale),
    ensures
        k <= n <= ops.len(),
        image_agrees(
            image_walk(walk, page, declared, ops, k, limits),
            page_pictures(page, declared, ops, n, scale),
            before,
            scale,
        ),
        n < ops.len() ==> image_walk(walk, page, declared, ops, k, limits).items >= limits.items,
    decreases ops.len() - k,
{
    if k < ops.len() && walk.items < limits.items {
        let s = page_pictures(page, declared, ops, k, scale);
        lemma_next_image(walk, s, before, page, declared, ops[k], scale);
        lemma_page_images_agree(
            image_step(walk, page, declared, ops[k]),
            before,
            page,
            declared,
            ops,
            k + 1,
            limits,
            scale,
        )
    } else {
        k
    }
}

/// The steps that are reported of a page lead to exactly the images that its
/// operations place by the rules of PDF, each by the transformation in force, in their
/// order. Where they end before the operations do, the limit is reached.
pub proof fn law_steps_lead_to_the_images(
    steps: Seq<ImageStepModel>,
    items: nat,
    page: u32,
    declared: Map<Seq<char>, ImageModel>,
    ops: Seq<StepModel>,
    limits: InspectLimits,
    scale: Scale,
) -> (n: int)
    ensures
        ({
            let end = image_walk(image_page_start(steps, items), page, declared, ops, 0, limits);
            &&& 0 <= n <= ops.len()
            &&& replayed_images(end.steps, scale).1 == replayed_images(steps, scale).1 + page_pictures(
                page,
                declared,
                ops,
                n,
                scale,
            ).images
            &&& n < ops.len() ==> end.items >= limits.items
        }),
{
    let start = image_page_start(steps, items);
    let before = replayed_images(steps, scale).1;
    assert(start.steps.drop_last() =~= steps);
    assert(before + Seq::<PlacedImage>::empty() =~= before);
    assert(image_agrees(start, page_pictures(page, declared, ops, 0, scale), before, scale));
    lemma_page_images_agree(start, before, page, declared, ops, 0, limits, scale)
}

} // verus!
