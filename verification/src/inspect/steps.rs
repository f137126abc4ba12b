//! What a pass over a page reports, in order: how the coordinates change, and
//! what is shown in them.

use crate::inspect::pdf::{
    OperationModel, PdfNumber, PdfValue, Shape, object_value, object_values, operations_of, shape,
};
use crate::inspect::strings::{name_of_bytes, name_str};
use crate::model::{group_views, views};
use vstd::prelude::*;

verus! {

broadcast use group_views;

/// The six numbers of a transformation.
#[derive(Debug, Clone, Copy, PartialEq, Eq, Structural)]
pub struct Matrix {
    pub a: PdfNumber,
    pub b: PdfNumber,
    pub c: PdfNumber,
    pub d: PdfNumber,
    pub e: PdfNumber,
    pub f: PdfNumber,
}

/// A change of coordinates.
#[derive(Debug, Clone, Copy, PartialEq, Eq, Structural)]
pub enum GeometryStep {
    /// A page begins: one graphics state, with the identity.
    NewPage,
    /// The graphics state is saved.
    Save,
    /// The graphics state saved last comes back.
    Restore,
    /// The transformation is preceded by another.
    Concat(Matrix),
    /// A text object begins at the origin.
    BeginText,
    /// The text matrix is set.
    TextMatrix(Matrix),
    /// The next line starts at an offset from this one. Where `sets_leading`,
    /// the leading becomes minus `dy`.
    Move { dx: PdfNumber, dy: PdfNumber, sets_leading: bool },
    /// The leading is set.
    Leading(PdfNumber),
    /// The next line starts one leading below this one.
    NextLine,
}

/// An operand, as far as a pass reads it.
#[derive(Debug)]
pub enum Operand {
    Number(PdfNumber),
    Name(Vec<u8>),
    Text(Vec<u8>),
    /// An array: the strings in it, in order.
    Texts(Vec<Vec<u8>>),
    Other,
}

pub ghost enum OperandModel {
    Number(PdfNumber),
    Name(Seq<u8>),
    Text(Seq<u8>),
    Texts(Seq<Seq<u8>>),
    Other,
}

impl View for Operand {
    type V = OperandModel;

    open spec fn view(&self) -> OperandModel {
        match self {
            Operand::Number(number) => OperandModel::Number(*number),
            Operand::Name(bytes) => OperandModel::Name(bytes@),
            Operand::Text(bytes) => OperandModel::Text(bytes@),
            Operand::Texts(texts) => OperandModel::Texts(views(texts@)),
            Operand::Other => OperandModel::Other,
        }
    }
}

/// An operation of a content stream.
#[derive(Debug)]
pub struct Operation {
    pub operator: String,
    pub operands: Vec<Operand>,
}

pub ghost struct StepModel {
    pub operator: Seq<char>,
    pub operands: Seq<OperandModel>,
}

impl View for Operation {
    type V = StepModel;

    open spec fn view(&self) -> StepModel {
        StepModel { operator: self.operator@, operands: views(self.operands@) }
    }
}

/// The strings among the values from the `k`-th on.
pub open spec fn texts_in(values: Seq<PdfValue>, k: int) -> Seq<Seq<u8>>
    decreases values.len() - k,
{
    if k >= values.len() {
        Seq::empty()
    } else {
        match values[k] {
            PdfValue::Text(bytes) => seq![bytes] + texts_in(values, k + 1),
            _ => texts_in(values, k + 1),
        }
    }
}

/// What a pass reads of a value.
pub open spec fn operand_of(value: PdfValue) -> OperandModel {
    match value {
        PdfValue::Integer(n) => OperandModel::Number(PdfNumber::Integer(n)),
        PdfValue::Real(bits) => OperandModel::Number(PdfNumber::Real(bits)),
        PdfValue::Name(bytes) => OperandModel::Name(bytes),
        PdfValue::Text(bytes) => OperandModel::Text(bytes),
        PdfValue::Array(values) => OperandModel::Texts(texts_in(values, 0)),
        _ => OperandModel::Other,
    }
}

/// What a pass reads of an operation.
pub open spec fn step_of(op: OperationModel) -> StepModel {
    StepModel { operator: op.operator, operands: op.operands.map_values(|value: PdfValue| operand_of(value)) }
}

/// What a pass reads of operations.
pub open spec fn steps_of(ops: Seq<OperationModel>) -> Seq<StepModel> {
    ops.map_values(|op: OperationModel| step_of(op))
}

fn read_texts(values: &Vec<lopdf::Object>) -> (r: Vec<Vec<u8>>)
    ensures
        views(r@) == texts_in(object_values(values@), 0),
{
    let ghost all = object_values(values@);
    let mut texts: Vec<Vec<u8>> = Vec::new();
    let mut k: usize = 0;
    while k < values.len()
        invariant
            k <= values@.len(),
            all == object_values(values@),
            views(texts@) + texts_in(all, k as int) =~= texts_in(all, 0),
        decreases values@.len() - k,
    {
        let ghost before = texts@;
        if let Shape::Text(bytes) = shape(&values[k]) {
            texts.push(vstd::slice::slice_to_vec(bytes));
            assert(views(texts@) =~= views(before).push(bytes@));
        }
        k = k + 1;
    }
    texts
}

/// Reads an operand.
pub fn read_operand(obj: &lopdf::Object) -> (r: Operand)
    ensures
        r@ == operand_of(object_value(*obj)),
{
    match shape(obj) {
        Shape::Integer(n) => Operand::Number(PdfNumber::Integer(n)),
        Shape::Real(bits) => Operand::Number(PdfNumber::Real(bits)),
        Shape::Name(bytes) => Operand::Name(vstd::slice::slice_to_vec(bytes)),
        Shape::Text(bytes) => Operand::Text(vstd::slice::slice_to_vec(bytes)),
        Shape::Array(values) => Operand::Texts(read_texts(values)),
        _ => Operand::Other,
    }
}

fn read_operands(objects: &Vec<lopdf::Object>) -> (r: Vec<Operand>)
    ensures
        views(r@) == object_values(objects@).map_values(|value: PdfValue| operand_of(value)),
{
    let ghost all = object_values(objects@).map_values(|value: PdfValue| operand_of(value));
    let mut operands: Vec<Operand> = Vec::new();
    let mut k: usize = 0;
    while k < objects.len()
        invariant
            k <= objects@.len(),
            all == object_values(objects@).map_values(|value: PdfValue| operand_of(value)),
            views(operands@) =~= all.take(k as int),
        decreases objects@.len() - k,
    {
        operands.push(read_operand(&objects[k]));
        k = k + 1;
    }
    assert(views(operands@) =~= all);
    operands
}

/// Reads operations.
pub fn read_operations(list: &Vec<(String, Vec<lopdf::Object>)>) -> (r: Vec<Operation>)
    ensures
        views(r@) == steps_of(operations_of(list@)),
{
    let ghost all = steps_of(operations_of(list@));
    let mut ops: Vec<Operation> = Vec::new();
    let mut k: usize = 0;
    while k < list.len()
        invariant
            k <= list@.len(),
            all == steps_of(operations_of(list@)),
            views(ops@) =~= all.take(k as int),
        decreases list@.len() - k,
    {
        let op = Operation { operator: list[k].0.clone(), operands: read_operands(&list[k].1) };
        assert(op@ == all[k as int]);
        ops.push(op);
        k = k + 1;
    }
    assert(views(ops@) =~= all);
    ops
}

/// The number that an operand is; zero for one that is none.
pub open spec fn number_of(operand: OperandModel) -> PdfNumber {
    match operand {
        OperandModel::Number(number) => number,
        _ => PdfNumber::Integer(0),
    }
}

/// The number that an operand is; zero for one that is none.
pub fn operand_number(operand: &Operand) -> (r: PdfNumber)
    ensures
        r == number_of(operand@),
{
    match operand {
        Operand::Number(number) => *number,
        _ => PdfNumber::Integer(0),
    }
}

/// The number that an object is; zero for one that is none.
pub fn obj_to_number(obj: &lopdf::Object) -> (r: PdfNumber)
    ensures
        r == number_of(operand_of(object_value(*obj))),
{
    operand_number(&read_operand(obj))
}

/// The text that a name is; nothing for another operand, or for a name that is
/// not UTF-8.
pub open spec fn name_of(operand: OperandModel) -> Option<Seq<char>> {
    match operand {
        OperandModel::Name(bytes) => name_of_bytes(bytes),
        _ => None,
    }
}

/// The text that a name is.
pub fn operand_name(operand: &Operand) -> (r: Option<&str>)
    ensures
        match r {
            Some(text) => name_of(operand@) == Some(text@),
            None => name_of(operand@) is None,
        },
{
    match operand {
        Operand::Name(bytes) => name_str(bytes.as_slice()),
        _ => None,
    }
}

/// The transformation that six operands spell.
pub open spec fn matrix_of(operands: Seq<OperandModel>) -> Matrix {
    Matrix {
        a: number_of(operands[0]),
        b: number_of(operands[1]),
        c: number_of(operands[2]),
        d: number_of(operands[3]),
        e: number_of(operands[4]),
        f: number_of(operands[5]),
    }
}

/// The transformation that six operands spell.
pub fn read_matrix(operands: &Vec<Operand>) -> (r: Matrix)
    requires
        operands@.len() >= 6,
    ensures
        r == matrix_of(views(operands@)),
{
    Matrix {
        a: operand_number(&operands[0]),
        b: operand_number(&operands[1]),
        c: operand_number(&operands[2]),
        d: operand_number(&operands[3]),
        e: operand_number(&operands[4]),
        f: operand_number(&operands[5]),
    }
}

/// An array gives its strings in order, and nothing for anything else in it.
pub proof fn law_arrays_give_their_strings(a: Seq<PdfValue>, b: Seq<PdfValue>, value: PdfValue)
    ensures
        texts_in(a + b, 0) == texts_in(a, 0) + texts_in(b, 0),
        texts_in(seq![value], 0) == if value is Text { seq![value->Text_0] } else { Seq::empty() },
{
    lemma_texts_of_both(a, b, 0);
    reveal_with_fuel(texts_in, 2);
    assert(texts_in(seq![value], 0) =~= if value is Text { seq![value->Text_0] } else { Seq::empty() });
}

proof fn lemma_texts_of_both(a: Seq<PdfValue>, b: Seq<PdfValue>, k: int)
    requires
        0 <= k <= a.len(),
    ensures
        texts_in(a + b, k) == texts_in(a, k) + texts_in(b, 0),
    decreases a.len() - k,
{
    if k == a.len() {
        lemma_texts_shift(a, b, 0);
        assert(texts_in(a, k) + texts_in(b, 0) =~= texts_in(b, 0));
    } else {
        lemma_texts_of_both(a, b, k + 1);
        assert(texts_in(a + b, k) =~= texts_in(a, k) + texts_in(b, 0));
    }
}

proof fn lemma_texts_shift(a: Seq<PdfValue>, b: Seq<PdfValue>, k: int)
    requires
        0 <= k <= b.len(),
    ensures
        texts_in(a + b, a.len() + k) == texts_in(b, k),
    decreases b.len() - k,
{
    if k < b.len() {
        lemma_texts_shift(a, b, k + 1);
    }
}

/// Numbers, names and strings are read as what they are, and every operand of every
/// operation is read.
pub proof fn law_operands_are_read_as_they_are(ops: Seq<OperationModel>, i: int, j: int)
    requires
        0 <= i < ops.len(),
        0 <= j < ops[i].operands.len(),
    ensures
        steps_of(ops).len() == ops.len(),
        steps_of(ops)[i].operator == ops[i].operator,
        steps_of(ops)[i].operands.len() == ops[i].operands.len(),
        match ops[i].operands[j] {
            PdfValue::Integer(n) => steps_of(ops)[i].operands[j] == OperandModel::Number(PdfNumber::Integer(n)),
            PdfValue::Real(bits) => steps_of(ops)[i].operands[j] == OperandModel::Number(PdfNumber::Real(bits)),
            PdfValue::Name(bytes) => steps_of(ops)[i].operands[j] == OperandModel::Name(bytes),
            PdfValue::Text(bytes) => steps_of(ops)[i].operands[j] == OperandModel::Text(bytes),
            PdfValue::Array(values) => steps_of(ops)[i].operands[j] is Texts,
            _ => !(steps_of(ops)[i].operands[j] is Number) && !(steps_of(ops)[i].operands[j] is Text) && !(steps_of(
                ops,
            )[i].operands[j] is Texts) && !(steps_of(ops)[i].operands[j] is Name),
        },
{
}

} // verus!
