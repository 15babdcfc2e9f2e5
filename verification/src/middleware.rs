//! Plain data shared with a proving backend: column kinds, rotations and the
//! selector-free form of a constraint system.

use vstd::prelude::*;

verus! {

/// A signed row offset relative to the row being constrained.
#[derive(Clone, Copy, Debug, PartialEq, Eq, Structural, Hash)]
pub struct Rotation(pub i32);

impl Rotation {
    /// The current row.
    pub fn cur() -> (r: Rotation)
        ensures
            r == Rotation(0),
    {
        Rotation(0)
    }

    /// The previous row.
    pub fn prev() -> (r: Rotation)
        ensures
            r.0 == -1,
    {
        Rotation(-1)
    }

    /// The next row.
    pub fn next() -> (r: Rotation)
        ensures
            r == Rotation(1),
    {
        Rotation(1)
    }
}

/// An advice column, tagged with the phase in which it is committed.
#[derive(Clone, Copy, Debug, PartialEq, Eq, Structural, Hash)]
pub struct Advice {
    pub phase: u8,
}

/// A fixed column.
#[derive(Clone, Copy, Debug, PartialEq, Eq, Structural, Hash)]
pub struct Fixed;

/// An instance column.
#[derive(Clone, Copy, Debug, PartialEq, Eq, Structural, Hash)]
pub struct Instance;

/// Any of the three column kinds.
#[derive(Clone, Copy, Debug, PartialEq, Eq, Structural, Hash)]
pub enum Any {
    Advice(Advice),
    Fixed,
    Instance,
}

impl Any {
    /// Rank of the column kind in the column order: instance columns come
    /// first, then advice columns, then fixed columns.
    pub open spec fn spec_rank(self) -> nat {
        match self {
            Any::Instance => 0,
            Any::Advice(_) => 1,
            Any::Fixed => 2,
        }
    }

    /// Phase of an advice kind, zero for the other kinds.
    pub open spec fn spec_phase(self) -> nat {
        match self {
            Any::Advice(a) => a.phase as nat,
            _ => 0,
        }
    }

    /// Strict order on column kinds: by rank, and among advice kinds by phase.
    pub open spec fn spec_lt(self, other: Any) -> bool {
        self.spec_rank() < other.spec_rank() || (self.spec_rank() == other.spec_rank()
            && self.spec_phase() < other.spec_phase())
    }

    /// Whether `self` comes strictly before `other` in the column order.
    pub fn lt(&self, other: &Any) -> (r: bool)
        ensures
            r == self.spec_lt(*other),
    {
        match (self, other) {
            (Any::Instance, Any::Instance) => false,
            (Any::Instance, _) => true,
            (Any::Advice(_), Any::Instance) => false,
            (Any::Advice(a), Any::Advice(b)) => a.phase < b.phase,
            (Any::Advice(_), Any::Fixed) => true,
            (Any::Fixed, _) => false,
        }
    }
}

/// A kind of column: one of [`Advice`], [`Fixed`], [`Instance`], or [`Any`].
pub trait ColumnType: Copy + Sized {
    /// The kind as a value of [`Any`].
    spec fn spec_any(self) -> Any;

    /// The kind as a value of [`Any`].
    fn to_any(&self) -> (r: Any)
        ensures
            r == self.spec_any(),
    ;

    /// The query of the column `index` of this kind at rotation `at`.
    fn query_cell<F>(&self, index: usize, at: Rotation) -> (r: ExpressionMid<F>)
        ensures
            r == spec_query_cell::<F>(self.spec_any(), index, at),
    ;
}

/// The query expression for column `index` of kind `kind` at rotation `at`.
pub open spec fn spec_query_cell<F>(kind: Any, index: usize, at: Rotation) -> ExpressionMid<F> {
    match kind {
        Any::Advice(a) => ExpressionMid::Advice(
            AdviceQueryMid { column_index: index, rotation: at, phase: a.phase },
        ),
        Any::Fixed => ExpressionMid::Fixed(FixedQueryMid { column_index: index, rotation: at }),
        Any::Instance => ExpressionMid::Instance(
            InstanceQueryMid { column_index: index, rotation: at },
        ),
    }
}

impl ColumnType for Advice {
    open spec fn spec_any(self) -> Any {
        Any::Advice(self)
    }

    fn to_any(&self) -> (r: Any) {
        Any::Advice(*self)
    }

    fn query_cell<F>(&self, index: usize, at: Rotation) -> (r: ExpressionMid<F>) {
        ExpressionMid::Advice(AdviceQueryMid { column_index: index, rotation: at, phase: self.phase })
    }
}

impl ColumnType for Fixed {
    open spec fn spec_any(self) -> Any {
        Any::Fixed
    }

    fn to_any(&self) -> (r: Any) {
        Any::Fixed
    }

    fn query_cell<F>(&self, index: usize, at: Rotation) -> (r: ExpressionMid<F>) {
        ExpressionMid::Fixed(FixedQueryMid { column_index: index, rotation: at })
    }
}

impl ColumnType for Instance {
    open spec fn spec_any(self) -> Any {
        Any::Instance
    }

    fn to_any(&self) -> (r: Any) {
        Any::Instance
    }

    fn query_cell<F>(&self, index: usize, at: Rotation) -> (r: ExpressionMid<F>) {
        ExpressionMid::Instance(InstanceQueryMid { column_index: index, rotation: at })
    }
}

impl ColumnType for Any {
    open spec fn spec_any(self) -> Any {
        self
    }

    fn to_any(&self) -> (r: Any) {
        *self
    }

    fn query_cell<F>(&self, index: usize, at: Rotation) -> (r: ExpressionMid<F>) {
        match self {
            Any::Advice(a) => ExpressionMid::Advice(
                AdviceQueryMid { column_index: index, rotation: at, phase: a.phase },
            ),
            Any::Fixed => ExpressionMid::Fixed(FixedQueryMid { column_index: index, rotation: at }),
            Any::Instance => ExpressionMid::Instance(
                InstanceQueryMid { column_index: index, rotation: at },
            ),
        }
    }
}

/// A column of any kind, by index.
#[derive(Clone, Copy, Debug, PartialEq, Eq, Structural, Hash)]
pub struct ColumnMid {
    pub index: usize,
    pub column_type: Any,
}

/// A challenge, by index and phase.
#[derive(Clone, Copy, Debug, PartialEq, Eq, Structural, Hash)]
pub struct ChallengeMid {
    pub index: usize,
    pub phase: u8,
}

/// Query of a fixed column at a relative position.
#[derive(Clone, Copy, Debug, PartialEq, Eq, Structural)]
pub struct FixedQueryMid {
    pub column_index: usize,
    pub rotation: Rotation,
}

/// Query of an advice column at a relative position.
#[derive(Clone, Copy, Debug, PartialEq, Eq, Structural)]
pub struct AdviceQueryMid {
    pub column_index: usize,
    pub rotation: Rotation,
    pub phase: u8,
}

/// Query of an instance column at a relative position.
#[derive(Clone, Copy, Debug, PartialEq, Eq, Structural)]
pub struct InstanceQueryMid {
    pub column_index: usize,
    pub rotation: Rotation,
}

/// A polynomial expression with no selectors and no query indices.
#[derive(Debug, PartialEq, Eq)]
pub enum ExpressionMid<F> {
    Constant(F),
    Fixed(FixedQueryMid),
    Advice(AdviceQueryMid),
    Instance(InstanceQueryMid),
    Challenge(ChallengeMid),
    Negated(Box<ExpressionMid<F>>),
    Sum(Box<ExpressionMid<F>>, Box<ExpressionMid<F>>),
    Product(Box<ExpressionMid<F>>, Box<ExpressionMid<F>>),
    Scaled(Box<ExpressionMid<F>>, F),
}

impl<F> ExpressionMid<F> {
    /// A copy of the expression.
    pub fn duplicate(&self) -> (r: Self) where F: Copy
        ensures
            r == *self,
        decreases self,
    {
        match self {
            ExpressionMid::Constant(c) => ExpressionMid::Constant(*c),
            ExpressionMid::Fixed(q) => ExpressionMid::Fixed(*q),
            ExpressionMid::Advice(q) => ExpressionMid::Advice(*q),
            ExpressionMid::Instance(q) => ExpressionMid::Instance(*q),
            ExpressionMid::Challenge(c) => ExpressionMid::Challenge(*c),
            ExpressionMid::Negated(a) => ExpressionMid::Negated(Box::new(a.duplicate())),
            ExpressionMid::Sum(a, b) => ExpressionMid::Sum(
                Box::new(a.duplicate()),
                Box::new(b.duplicate()),
            ),
            ExpressionMid::Product(a, b) => ExpressionMid::Product(
                Box::new(a.duplicate()),
                Box::new(b.duplicate()),
            ),
            ExpressionMid::Scaled(a, f) => ExpressionMid::Scaled(Box::new(a.duplicate()), *f),
        }
    }
}

impl<F: Copy> Clone for ExpressionMid<F> {
    fn clone(&self) -> (r: Self)
        ensures
            r == *self,
    {
        self.duplicate()
    }
}

/// A gate with a single polynomial.
#[derive(Debug)]
pub struct GateV2Backend<F> {
    pub name: String,
    pub poly: ExpressionMid<F>,
}

impl<F> GateV2Backend<F> {
    /// Name of this gate.
    pub fn name(&self) -> (r: &str)
        ensures
            r@ == self.name@,
    {
        self.name.as_str()
    }

    /// Polynomial of this gate.
    pub fn polynomial(&self) -> (r: &ExpressionMid<F>)
        ensures
            *r == self.poly,
    {
        &self.poly
    }
}

/// The columns that take part in the permutation argument.
#[derive(Debug)]
pub struct PermutationArgumentV2 {
    pub columns: Vec<ColumnMid>,
}

/// A lookup argument over selector-free expressions.
#[derive(Debug)]
pub struct LookupArgumentV2<F> {
    pub name: String,
    pub input_expressions: Vec<ExpressionMid<F>>,
    pub table_expressions: Vec<ExpressionMid<F>>,
}

/// A shuffle argument over selector-free expressions.
#[derive(Debug)]
pub struct ShuffleArgumentV2<F> {
    pub name: String,
    pub input_expressions: Vec<ExpressionMid<F>>,
    pub shuffle_expressions: Vec<ExpressionMid<F>>,
}

/// A column named in an annotation.
#[derive(Clone, Copy, Debug, PartialEq, Eq, Structural, Hash)]
pub struct MetadataColumn {
    pub column_type: Any,
    pub index: usize,
}

/// The selector-free form of a constraint system that a backend consumes.
#[derive(Debug)]
pub struct ConstraintSystemV2Backend<F> {
    pub num_fixed_columns: usize,
    pub num_advice_columns: usize,
    pub num_instance_columns: usize,
    pub num_challenges: usize,
    /// Index of each advice column that is left unblinded.
    pub unblinded_advice_columns: Vec<usize>,
    /// Phase of each advice column.
    pub advice_column_phase: Vec<u8>,
    /// Phase of each challenge.
    pub challenge_phase: Vec<u8>,
    pub gates: Vec<GateV2Backend<F>>,
    pub permutation: PermutationArgumentV2,
    pub lookups: Vec<LookupArgumentV2<F>>,
    pub shuffles: Vec<ShuffleArgumentV2<F>>,
    /// Annotations of columns, each column at most once.
    pub general_column_annotations: Vec<(MetadataColumn, String)>,
}

} // verus!
