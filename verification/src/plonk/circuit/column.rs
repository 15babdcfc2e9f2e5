//! Typed columns, selectors, challenges and column queries.

use super::sealed;
use super::sealed::SealedPhase;
use crate::middleware::{
    Advice, Any, ChallengeMid, ColumnMid, ColumnType, Fixed, Instance, MetadataColumn, Rotation,
};
use vstd::prelude::*;
use vstd::std_specs::convert::{FromSpecImpl, TryFromSpecImpl};

verus! {

/// A column with an index and a kind.
#[derive(Clone, Copy, Debug, PartialEq, Eq, Hash)]
pub struct Column<C: ColumnType> {
    pub index: usize,
    pub column_type: C,
}

impl<C: ColumnType> Column<C> {
    /// The column `index` of kind `column_type`.
    pub fn new(index: usize, column_type: C) -> (r: Self)
        ensures
            r == (Column { index, column_type }),
    {
        Column { index, column_type }
    }

    /// Index of this column.
    pub fn index(&self) -> (r: usize)
        ensures
            r == self.index,
    {
        self.index
    }

    /// Kind of this column.
    pub fn column_type(&self) -> (r: &C)
        ensures
            *r == self.column_type,
    {
        &self.column_type
    }

    /// The column with its kind widened to [`Any`].
    pub open spec fn spec_any(self) -> Column<Any> {
        Column { index: self.index, column_type: self.column_type.spec_any() }
    }

    /// Strict column order: by kind (instance, then advice by phase, then
    /// fixed), and within a kind by index.
    pub open spec fn spec_lt(self, other: Self) -> bool {
        let a = self.column_type.spec_any();
        let b = other.column_type.spec_any();
        a.spec_lt(b) || (!b.spec_lt(a) && self.index < other.index)
    }

    /// Whether `self` comes strictly before `other` in the column order.
    pub fn lt(&self, other: &Self) -> (r: bool)
        ensures
            r == self.spec_lt(*other),
    {
        let a = self.column_type.to_any();
        let b = other.column_type.to_any();
        a.lt(&b) || (!b.lt(&a) && self.index < other.index)
    }
}

impl Column<Any> {
    /// Whether two columns are the same column.
    pub fn same(&self, other: &Column<Any>) -> (r: bool)
        ensures
            r == (*self == *other),
    {
        self.index == other.index && self.column_type == other.column_type
    }
}

impl Column<Fixed> {
    /// Whether two columns are the same column.
    pub fn same(&self, other: &Column<Fixed>) -> (r: bool)
        ensures
            r == (*self == *other),
    {
        assert(self.column_type == Fixed && other.column_type == Fixed);
        self.index == other.index
    }
}

impl Column<Advice> {
    /// Whether two columns are the same column.
    pub fn same(&self, other: &Column<Advice>) -> (r: bool)
        ensures
            r == (*self == *other),
    {
        self.index == other.index && self.column_type.phase == other.column_type.phase
    }
}

impl Column<Instance> {
    /// Whether two columns are the same column.
    pub fn same(&self, other: &Column<Instance>) -> (r: bool)
        ensures
            r == (*self == *other),
    {
        assert(self.column_type == Instance && other.column_type == Instance);
        self.index == other.index
    }
}

impl From<Column<Any>> for MetadataColumn {
    fn from(val: Column<Any>) -> (r: Self) {
        MetadataColumn { index: val.index, column_type: val.column_type }
    }
}

impl FromSpecImpl<Column<Any>> for MetadataColumn {
    open spec fn obeys_from_spec() -> bool {
        true
    }

    open spec fn from_spec(val: Column<Any>) -> Self {
        MetadataColumn { index: val.index, column_type: val.column_type }
    }
}

impl From<ColumnMid> for Column<Any> {
    fn from(column: ColumnMid) -> (r: Column<Any>) {
        Column { index: column.index, column_type: column.column_type }
    }
}

impl FromSpecImpl<ColumnMid> for Column<Any> {
    open spec fn obeys_from_spec() -> bool {
        true
    }

    open spec fn from_spec(column: ColumnMid) -> Self {
        Column { index: column.index, column_type: column.column_type }
    }
}

impl From<Column<Any>> for ColumnMid {
    fn from(val: Column<Any>) -> (r: Self) {
        ColumnMid { index: val.index, column_type: val.column_type }
    }
}

impl FromSpecImpl<Column<Any>> for ColumnMid {
    open spec fn obeys_from_spec() -> bool {
        true
    }

    open spec fn from_spec(val: Column<Any>) -> Self {
        ColumnMid { index: val.index, column_type: val.column_type }
    }
}

impl From<Column<Advice>> for Column<Any> {
    fn from(advice: Column<Advice>) -> (r: Column<Any>) {
        Column { index: advice.index, column_type: Any::Advice(advice.column_type) }
    }
}

impl FromSpecImpl<Column<Advice>> for Column<Any> {
    open spec fn obeys_from_spec() -> bool {
        true
    }

    open spec fn from_spec(advice: Column<Advice>) -> Self {
        Column { index: advice.index, column_type: Any::Advice(advice.column_type) }
    }
}

impl From<Column<Fixed>> for Column<Any> {
    fn from(fixed: Column<Fixed>) -> (r: Column<Any>) {
        Column { index: fixed.index, column_type: Any::Fixed }
    }
}

impl FromSpecImpl<Column<Fixed>> for Column<Any> {
    open spec fn obeys_from_spec() -> bool {
        true
    }

    open spec fn from_spec(fixed: Column<Fixed>) -> Self {
        Column { index: fixed.index, column_type: Any::Fixed }
    }
}

impl From<Column<Instance>> for Column<Any> {
    fn from(instance: Column<Instance>) -> (r: Column<Any>) {
        Column { index: instance.index, column_type: Any::Instance }
    }
}

impl FromSpecImpl<Column<Instance>> for Column<Any> {
    open spec fn obeys_from_spec() -> bool {
        true
    }

    open spec fn from_spec(instance: Column<Instance>) -> Self {
        Column { index: instance.index, column_type: Any::Instance }
    }
}

impl TryFrom<Column<Any>> for Column<Advice> {
    type Error = &'static str;

    fn try_from(any: Column<Any>) -> (r: Result<Self, Self::Error>) {
        match any.column_type {
            Any::Advice(advice) => Ok(Column { index: any.index, column_type: advice }),
            _ => Err("Cannot convert into Column<Advice>"),
        }
    }
}

impl TryFromSpecImpl<Column<Any>> for Column<Advice> {
    open spec fn obeys_try_from_spec() -> bool {
        true
    }

    open spec fn try_from_spec(any: Column<Any>) -> Result<Self, Self::Error> {
        match any.column_type {
            Any::Advice(advice) => Ok(Column { index: any.index, column_type: advice }),
            _ => Err("Cannot convert into Column<Advice>"),
        }
    }
}

impl TryFrom<Column<Any>> for Column<Fixed> {
    type Error = &'static str;

    fn try_from(any: Column<Any>) -> (r: Result<Self, Self::Error>) {
        match any.column_type {
            Any::Fixed => Ok(Column { index: any.index, column_type: Fixed }),
            _ => Err("Cannot convert into Column<Fixed>"),
        }
    }
}

impl TryFromSpecImpl<Column<Any>> for Column<Fixed> {
    open spec fn obeys_try_from_spec() -> bool {
        true
    }

    open spec fn try_from_spec(any: Column<Any>) -> Result<Self, Self::Error> {
        match any.column_type {
            Any::Fixed => Ok(Column { index: any.index, column_type: Fixed }),
            _ => Err("Cannot convert into Column<Fixed>"),
        }
    }
}

impl TryFrom<Column<Any>> for Column<Instance> {
    type Error = &'static str;

    fn try_from(any: Column<Any>) -> (r: Result<Self, Self::Error>) {
        match any.column_type {
            Any::Instance => Ok(Column { index: any.index, column_type: Instance }),
            _ => Err("Cannot convert into Column<Instance>"),
        }
    }
}

impl TryFromSpecImpl<Column<Any>> for Column<Instance> {
    open spec fn obeys_try_from_spec() -> bool {
        true
    }

    open spec fn try_from_spec(any: Column<Any>) -> Result<Self, Self::Error> {
        match any.column_type {
            Any::Instance => Ok(Column { index: any.index, column_type: Instance }),
            _ => Err("Cannot convert into Column<Instance>"),
        }
    }
}

/// A marker for a phase of the protocol.
pub trait Phase: SealedPhase {

}

impl<P: SealedPhase> Phase for P {

}

/// First phase.
#[derive(Debug)]
pub struct FirstPhase;

impl SealedPhase for FirstPhase {
    open spec fn spec_to_sealed(self) -> sealed::Phase {
        sealed::Phase(0)
    }

    fn to_sealed(self) -> (r: sealed::Phase) {
        sealed::Phase(0)
    }
}

/// Second phase.
#[derive(Debug)]
pub struct SecondPhase;

impl SealedPhase for SecondPhase {
    open spec fn spec_to_sealed(self) -> sealed::Phase {
        sealed::Phase(1)
    }

    fn to_sealed(self) -> (r: sealed::Phase) {
        sealed::Phase(1)
    }
}

/// Third phase.
#[derive(Debug)]
pub struct ThirdPhase;

impl SealedPhase for ThirdPhase {
    open spec fn spec_to_sealed(self) -> sealed::Phase {
        sealed::Phase(2)
    }

    fn to_sealed(self) -> (r: sealed::Phase) {
        sealed::Phase(2)
    }
}

/// A selector: a boolean per row of the circuit, by which gates are switched
/// on and off. A simple selector may only be multiplied by expressions that
/// hold no simple selector.
#[derive(Clone, Copy, Debug, PartialEq, Eq, Structural, Hash)]
pub struct Selector(pub usize, pub bool);

impl Selector {
    /// Whether this selector is simple.
    pub open spec fn spec_is_simple(&self) -> bool {
        self.1
    }

    /// Whether this selector is simple.
    #[verifier::when_used_as_spec(spec_is_simple)]
    pub fn is_simple(&self) -> (r: bool)
        ensures
            r == self.1,
    {
        self.1
    }

    /// Index of this selector.
    pub open spec fn spec_index(&self) -> usize {
        self.0
    }

    /// Index of this selector.
    #[verifier::when_used_as_spec(spec_index)]
    pub fn index(&self) -> (r: usize)
        ensures
            r == self.0,
    {
        self.0
    }
}

/// Query of a fixed column at a relative position.
#[derive(Clone, Copy, Debug, PartialEq, Eq, Structural)]
pub struct FixedQuery {
    /// Index of the query in the constraint system, once interned.
    pub index: Option<usize>,
    /// Index of the column.
    pub column_index: usize,
    /// Rotation of the query.
    pub rotation: Rotation,
}

impl FixedQuery {
    /// Index of the column.
    pub fn column_index(&self) -> (r: usize)
        ensures
            r == self.column_index,
    {
        self.column_index
    }

    /// Rotation of the query.
    pub fn rotation(&self) -> (r: Rotation)
        ensures
            r == self.rotation,
    {
        self.rotation
    }
}

/// Query of an advice column at a relative position.
#[derive(Clone, Copy, Debug, PartialEq, Eq, Structural)]
pub struct AdviceQuery {
    /// Index of the query in the constraint system, once interned.
    pub index: Option<usize>,
    /// Index of the column.
    pub column_index: usize,
    /// Rotation of the query.
    pub rotation: Rotation,
    /// Phase of the column.
    pub phase: sealed::Phase,
}

impl AdviceQuery {
    /// Index of the column.
    pub fn column_index(&self) -> (r: usize)
        ensures
            r == self.column_index,
    {
        self.column_index
    }

    /// Rotation of the query.
    pub fn rotation(&self) -> (r: Rotation)
        ensures
            r == self.rotation,
    {
        self.rotation
    }

    /// Phase of the column.
    pub fn phase(&self) -> (r: u8)
        ensures
            r == self.phase.0,
    {
        self.phase.0
    }
}

/// Query of an instance column at a relative position.
#[derive(Clone, Copy, Debug, PartialEq, Eq, Structural)]
pub struct InstanceQuery {
    /// Index of the query in the constraint system, once interned.
    pub index: Option<usize>,
    /// Index of the column.
    pub column_index: usize,
    /// Rotation of the query.
    pub rotation: Rotation,
}

impl InstanceQuery {
    /// Index of the column.
    pub fn column_index(&self) -> (r: usize)
        ensures
            r == self.column_index,
    {
        self.column_index
    }

    /// Rotation of the query.
    pub fn rotation(&self) -> (r: Rotation)
        ensures
            r == self.rotation,
    {
        self.rotation
    }
}

/// A fixed column of a lookup table.
///
/// The column inside is reached only through [`TableColumn::inner`]: a table
/// is loaded through the table layouter, which fills the rows that the table
/// leaves open with the column's default value.
#[derive(Clone, Copy, Debug, PartialEq, Eq, Hash)]
pub struct TableColumn {
    pub(crate) inner: Column<Fixed>,
}

impl TableColumn {
    /// The fixed column that stores the table column.
    pub closed spec fn spec_inner(&self) -> Column<Fixed> {
        self.inner
    }

    /// The fixed column that stores the table column.
    #[verifier::when_used_as_spec(spec_inner)]
    pub fn inner(&self) -> (r: Column<Fixed>)
        ensures
            r == self.spec_inner(),
    {
        self.inner
    }

    /// The table column stored in `inner`.
    pub(crate) fn new(inner: Column<Fixed>) -> (r: TableColumn)
        ensures
            r.inner() == inner,
    {
        TableColumn { inner }
    }

    /// Two table columns with the same inner column are the same.
    pub proof fn lemma_inner_injective(a: TableColumn, b: TableColumn)
        ensures
            a.inner() == b.inner() <==> a == b,
    {
    }
}

/// A challenge squeezed from the transcript once the advice columns of its
/// phase are committed.
#[derive(Clone, Copy, Debug, PartialEq, Eq, Structural, Hash)]
pub struct Challenge {
    pub index: usize,
    pub phase: u8,
}

impl Challenge {
    /// Index of this challenge.
    pub open spec fn spec_index(&self) -> usize {
        self.index
    }

    /// Index of this challenge.
    #[verifier::when_used_as_spec(spec_index)]
    pub fn index(&self) -> (r: usize)
        ensures
            r == self.index,
    {
        self.index
    }

    /// Phase of this challenge.
    pub open spec fn spec_phase(&self) -> u8 {
        self.phase
    }

    /// Phase of this challenge.
    #[verifier::when_used_as_spec(spec_phase)]
    pub fn phase(&self) -> (r: u8)
        ensures
            r == self.phase,
    {
        self.phase
    }
}

impl From<Challenge> for ChallengeMid {
    fn from(val: Challenge) -> (r: Self) {
        ChallengeMid { index: val.index, phase: val.phase }
    }
}

impl FromSpecImpl<Challenge> for ChallengeMid {
    open spec fn obeys_from_spec() -> bool {
        true
    }

    open spec fn from_spec(val: Challenge) -> Self {
        ChallengeMid { index: val.index, phase: val.phase }
    }
}

impl From<ChallengeMid> for Challenge {
    fn from(c: ChallengeMid) -> (r: Self) {
        Challenge { index: c.index, phase: c.phase }
    }
}

impl FromSpecImpl<ChallengeMid> for Challenge {
    open spec fn obeys_from_spec() -> bool {
        true
    }

    open spec fn from_spec(c: ChallengeMid) -> Self {
        Challenge { index: c.index, phase: c.phase }
    }
}

} // verus!
