//! The constraint builder: columns, selectors, gates and lookup arguments,
//! registered during configuration and frozen afterwards.

use crate::column::{Column, ColumnKind, Selector};
use crate::expression::Expression;
use vstd::prelude::*;

verus! {

/// Why a configuration step was refused.
#[derive(Clone, Copy, Debug, PartialEq, Eq, Structural)]
pub enum ConfigurationError {
    /// The constraint system was sealed before the call.
    Closed,
    /// A column is not allocated, or is of a kind that the call cannot take.
    InvalidColumn,
    /// A selector is not allocated.
    UnknownSelector,
    /// No further index is left for a column or a selector.
    Exhausted,
}

/// A named polynomial identity: `poly` must evaluate to zero on every row at
/// which `selector` is on.
#[derive(Debug)]
pub struct Gate {
    pub name: &'static str,
    pub selector: Selector,
    pub poly: Expression,
}

/// A named membership check: on every row at which `selector` is on, the
/// value of `input` must occur in the column `table`.
#[derive(Debug)]
pub struct Lookup {
    pub name: &'static str,
    pub selector: Selector,
    pub input: Expression,
    pub table: Column,
}

/// One step of configuration.
pub enum ConfigStep {
    /// Allocate a column of a kind.
    Column(ColumnKind),
    /// Allocate a selector.
    Selector,
    /// Enable equality on a column.
    Equality(Column),
    /// Make a fixed column a column of constants.
    Constant(Column),
    /// Register a gate.
    Gate(Gate),
    /// Register a lookup argument.
    Lookup(Lookup),
    /// End configuration.
    Seal,
}

/// A constraint system in the course of a sequence of configuration steps:
/// the system so far, and the error of the step that was refused, after
/// which nothing changes.
pub struct Setup {
    pub shape: Shape,
    pub error: Option<ConfigurationError>,
}

impl Setup {
    /// The next step, which is taken unless a step before it was refused.
    pub open spec fn next(self, s: ConfigStep) -> Setup {
        if self.error is Some {
            self
        } else {
            let (shape, error) = self.shape.step(s);
            Setup { shape, error }
        }
    }
}

/// The error of a result, if it is one.
pub open spec fn refusal<T>(r: Result<T, ConfigurationError>) -> Option<ConfigurationError> {
    match r {
        Ok(_) => None,
        Err(e) => Some(e),
    }
}

/// What a constraint system holds.
pub struct Shape {
    /// For each advice column, whether equality is enabled on it.
    pub advice: Seq<bool>,
    /// For each fixed column, whether equality is enabled on it.
    pub fixed: Seq<bool>,
    /// For each instance column, whether equality is enabled on it.
    pub instance: Seq<bool>,
    /// The number of lookup-table columns.
    pub tables: nat,
    /// The number of selectors.
    pub selectors: nat,
    pub gates: Seq<Gate>,
    pub lookups: Seq<Lookup>,
    /// Whether configuration is over.
    pub sealed: bool,
}

impl Shape {
    /// The system that holds nothing and is open for configuration.
    pub open spec fn empty() -> Shape {
        Shape {
            advice: Seq::empty(),
            fixed: Seq::empty(),
            instance: Seq::empty(),
            tables: 0,
            selectors: 0,
            gates: Seq::empty(),
            lookups: Seq::empty(),
            sealed: false,
        }
    }

    /// The number of columns of a kind.
    pub open spec fn width(self, kind: ColumnKind) -> nat {
        match kind {
            ColumnKind::Advice => self.advice.len(),
            ColumnKind::Fixed => self.fixed.len(),
            ColumnKind::Instance => self.instance.len(),
            ColumnKind::LookupTable => self.tables,
        }
    }

    /// Whether a column is allocated.
    pub open spec fn has_column(self, column: Column) -> bool {
        column.index < self.width(column.kind)
    }

    /// Whether an expression may read a column.
    pub open spec fn queryable(self, column: Column) -> bool {
        self.has_column(column) && column.kind != ColumnKind::LookupTable
    }

    /// Whether a column may take part in copy constraints.
    pub open spec fn equality(self, column: Column) -> bool {
        match column.kind {
            ColumnKind::Advice => column.index < self.advice.len() && self.advice[column.index as int],
            ColumnKind::Fixed => column.index < self.fixed.len() && self.fixed[column.index as int],
            ColumnKind::Instance => column.index < self.instance.len()
                && self.instance[column.index as int],
            ColumnKind::LookupTable => false,
        }
    }

    /// Whether an expression reads allocated columns only.
    pub open spec fn expression_ok(self, e: Expression) -> bool
        decreases e,
    {
        match e {
            Expression::Constant(_) => true,
            Expression::ColumnRef { column, rotation } => self.queryable(column),
            Expression::Neg(a) => self.expression_ok(*a),
            Expression::Add(a, b) => self.expression_ok(*a) && self.expression_ok(*b),
            Expression::Sub(a, b) => self.expression_ok(*a) && self.expression_ok(*b),
            Expression::Mul(a, b) => self.expression_ok(*a) && self.expression_ok(*b),
        }
    }

    /// Whether a gate names an allocated selector and allocated columns.
    pub open spec fn gate_ok(self, gate: Gate) -> bool {
        gate.selector.index < self.selectors && self.expression_ok(gate.poly)
    }

    /// Whether a lookup names an allocated selector, allocated columns and a
    /// lookup-table column.
    pub open spec fn lookup_ok(self, lookup: Lookup) -> bool {
        &&& lookup.selector.index < self.selectors
        &&& self.expression_ok(lookup.input)
        &&& lookup.table.kind == ColumnKind::LookupTable
        &&& lookup.table.index < self.tables
    }

    /// Every gate and every lookup is in order.
    pub open spec fn wf(self) -> bool {
        &&& forall|i: int| 0 <= i < self.gates.len() ==> self.gate_ok(#[trigger] self.gates[i])
        &&& forall|i: int| 0 <= i < self.lookups.len() ==> self.lookup_ok(#[trigger] self.lookups[i])
    }

    /// The system with one more column of a kind, equality not enabled.
    pub open spec fn with_column(self, kind: ColumnKind) -> Shape {
        match kind {
            ColumnKind::Advice => Shape { advice: self.advice.push(false), ..self },
            ColumnKind::Fixed => Shape { fixed: self.fixed.push(false), ..self },
            ColumnKind::Instance => Shape { instance: self.instance.push(false), ..self },
            ColumnKind::LookupTable => Shape { tables: self.tables + 1, ..self },
        }
    }

    /// The system with equality enabled on a column.
    pub open spec fn with_equality(self, column: Column) -> Shape {
        match column.kind {
            ColumnKind::Advice => Shape {
                advice: self.advice.update(column.index as int, true),
                ..self
            },
            ColumnKind::Fixed => Shape { fixed: self.fixed.update(column.index as int, true), ..self },
            ColumnKind::Instance => Shape {
                instance: self.instance.update(column.index as int, true),
                ..self
            },
            ColumnKind::LookupTable => self,
        }
    }

    /// Why a column cannot be allocated, if it cannot.
    pub open spec fn column_error(self, kind: ColumnKind) -> Option<ConfigurationError> {
        if self.sealed {
            Some(ConfigurationError::Closed)
        } else if self.width(kind) >= usize::MAX {
            Some(ConfigurationError::Exhausted)
        } else {
            None
        }
    }

    /// Why a selector cannot be allocated, if it cannot.
    pub open spec fn selector_error(self) -> Option<ConfigurationError> {
        if self.sealed {
            Some(ConfigurationError::Closed)
        } else if self.selectors >= usize::MAX {
            Some(ConfigurationError::Exhausted)
        } else {
            None
        }
    }

    /// Why equality cannot be enabled on a column, if it cannot.
    pub open spec fn equality_error(self, column: Column) -> Option<ConfigurationError> {
        if self.sealed {
            Some(ConfigurationError::Closed)
        } else if !self.queryable(column) {
            Some(ConfigurationError::InvalidColumn)
        } else {
            None
        }
    }

    /// Why a column cannot be made a column of constants, if it cannot.
    pub open spec fn constant_error(self, column: Column) -> Option<ConfigurationError> {
        if self.sealed {
            Some(ConfigurationError::Closed)
        } else if column.kind != ColumnKind::Fixed || !self.has_column(column) {
            Some(ConfigurationError::InvalidColumn)
        } else {
            None
        }
    }

    /// Why a gate cannot be registered, if it cannot.
    pub open spec fn gate_error(self, gate: Gate) -> Option<ConfigurationError> {
        if self.sealed {
            Some(ConfigurationError::Closed)
        } else if gate.selector.index >= self.selectors {
            Some(ConfigurationError::UnknownSelector)
        } else if !self.expression_ok(gate.poly) {
            Some(ConfigurationError::InvalidColumn)
        } else {
            None
        }
    }

    /// Why a lookup argument cannot be registered, if it cannot.
    pub open spec fn lookup_error(self, lookup: Lookup) -> Option<ConfigurationError> {
        if self.sealed {
            Some(ConfigurationError::Closed)
        } else if lookup.selector.index >= self.selectors {
            Some(ConfigurationError::UnknownSelector)
        } else if !self.lookup_ok(lookup) {
            Some(ConfigurationError::InvalidColumn)
        } else {
            None
        }
    }

    /// The system after a configuration step, and the error if the step is
    /// refused. A refused step leaves the system as it was.
    #[verifier::opaque]
    pub open spec fn step(self, s: ConfigStep) -> (Shape, Option<ConfigurationError>) {
        match s {
            ConfigStep::Column(kind) => match self.column_error(kind) {
                Some(e) => (self, Some(e)),
                None => (self.with_column(kind), None),
            },
            ConfigStep::Selector => match self.selector_error() {
                Some(e) => (self, Some(e)),
                None => (Shape { selectors: self.selectors + 1, ..self }, None),
            },
            ConfigStep::Equality(column) => match self.equality_error(column) {
                Some(e) => (self, Some(e)),
                None => (self.with_equality(column), None),
            },
            ConfigStep::Constant(column) => match self.constant_error(column) {
                Some(e) => (self, Some(e)),
                None => (self.with_equality(column), None),
            },
            ConfigStep::Gate(gate) => match self.gate_error(gate) {
                Some(e) => (self, Some(e)),
                None => (Shape { gates: self.gates.push(gate), ..self }, None),
            },
            ConfigStep::Lookup(lookup) => match self.lookup_error(lookup) {
                Some(e) => (self, Some(e)),
                None => (Shape { lookups: self.lookups.push(lookup), ..self }, None),
            },
            ConfigStep::Seal => (Shape { sealed: true, ..self }, None),
        }
    }

    /// The start of a sequence of configuration steps.
    pub open spec fn begin(self) -> Setup {
        Setup { shape: self, error: None }
    }

    /// The column that the next allocation of a kind returns.
    pub open spec fn next_column(self, kind: ColumnKind) -> Column {
        Column { kind, index: self.width(kind) as usize }
    }

    /// The selector that the next allocation returns.
    pub open spec fn next_selector(self) -> Selector {
        Selector { index: self.selectors as usize }
    }

    /// A later state of the same configuration: it keeps every column,
    /// every equality mark, every selector, every gate and every lookup
    /// argument, and what it adds to the gates and lookup arguments is
    /// guarded by selectors that were allocated later.
    pub open spec fn precedes(self, later: Shape) -> bool {
        &&& forall|k: ColumnKind| self.width(k) <= later.width(k)
        &&& forall|c: Column| self.equality(c) ==> later.equality(c)
        &&& self.selectors <= later.selectors
        &&& self.gates.is_prefix_of(later.gates)
        &&& forall|i: int|
            self.gates.len() <= i < later.gates.len() ==> (#[trigger] later.gates[i]).selector.index
                >= self.selectors
        &&& self.lookups.is_prefix_of(later.lookups)
        &&& forall|i: int|
            self.lookups.len() <= i < later.lookups.len() ==> (
            #[trigger] later.lookups[i]).selector.index >= self.selectors
    }

    /// A later state that has the same columns, `selectors` more selectors,
    /// and is sealed exactly if this one is.
    pub open spec fn grown(self, later: Shape, selectors: nat) -> bool {
        &&& forall|k: ColumnKind| later.width(k) == self.width(k)
        &&& later.selectors == self.selectors + selectors
        &&& later.sealed == self.sealed
    }

    /// Two states with the same columns have the same numbers of columns of
    /// each kind.
    pub proof fn lemma_same_widths(self, later: Shape)
        requires
            forall|k: ColumnKind| later.width(k) == self.width(k),
        ensures
            later.advice.len() == self.advice.len(),
            later.fixed.len() == self.fixed.len(),
            later.instance.len() == self.instance.len(),
            later.tables == self.tables,
    {
        assert(later.width(ColumnKind::Advice) == self.width(ColumnKind::Advice));
        assert(later.width(ColumnKind::Fixed) == self.width(ColumnKind::Fixed));
        assert(later.width(ColumnKind::Instance) == self.width(ColumnKind::Instance));
        assert(later.width(ColumnKind::LookupTable) == self.width(ColumnKind::LookupTable));
    }

    /// `precedes` is transitive.
    pub proof fn lemma_precedes_transitive(self, middle: Shape, later: Shape)
        requires
            self.precedes(middle),
            middle.precedes(later),
        ensures
            self.precedes(later),
    {
        assert forall|k: ColumnKind| self.width(k) <= later.width(k) by {
            assert(self.width(k) <= middle.width(k));
            assert(middle.width(k) <= later.width(k));
        }
        assert forall|i: int| self.gates.len() <= i < later.gates.len() implies (
        #[trigger] later.gates[i]).selector.index >= self.selectors by {
            if i < middle.gates.len() {
                assert(later.gates[i] == middle.gates[i]);
            }
        }
        assert forall|i: int| self.lookups.len() <= i < later.lookups.len() implies (
        #[trigger] later.lookups[i]).selector.index >= self.selectors by {
            if i < middle.lookups.len() {
                assert(later.lookups[i] == middle.lookups[i]);
            }
        }
    }

    /// Allocating columns or selectors and enabling equality keep an
    /// expression in order.
    pub proof fn lemma_expression_ok_grows(self, later: Shape, e: Expression)
        requires
            self.expression_ok(e),
            forall|k: ColumnKind| self.width(k) <= later.width(k),
        ensures
            later.expression_ok(e),
        decreases e,
    {
        match e {
            Expression::Constant(_) => {},
            Expression::ColumnRef { column, rotation } => {
                assert(self.width(column.kind) <= later.width(column.kind));
            },
            Expression::Neg(a) => {
                self.lemma_expression_ok_grows(later, *a);
            },
            Expression::Add(a, b) => {
                self.lemma_expression_ok_grows(later, *a);
                self.lemma_expression_ok_grows(later, *b);
            },
            Expression::Sub(a, b) => {
                self.lemma_expression_ok_grows(later, *a);
                self.lemma_expression_ok_grows(later, *b);
            },
            Expression::Mul(a, b) => {
                self.lemma_expression_ok_grows(later, *a);
                self.lemma_expression_ok_grows(later, *b);
            },
        }
    }

    /// A well-formed system stays so when columns and selectors are added
    /// and gates and lookups are kept.
    pub proof fn lemma_wf_grows(self, later: Shape)
        requires
            self.wf(),
            forall|k: ColumnKind| self.width(k) <= later.width(k),
            self.selectors <= later.selectors,
            later.gates == self.gates,
            later.lookups == self.lookups,
        ensures
            later.wf(),
    {
        assert forall|i: int| 0 <= i < later.gates.len() implies later.gate_ok(
            #[trigger] later.gates[i],
        ) by {
            assert(self.gate_ok(self.gates[i]));
            self.lemma_expression_ok_grows(later, self.gates[i].poly);
        }
        assert forall|i: int| 0 <= i < later.lookups.len() implies later.lookup_ok(
            #[trigger] later.lookups[i],
        ) by {
            assert(self.lookup_ok(self.lookups[i]));
            self.lemma_expression_ok_grows(later, self.lookups[i].input);
            assert(self.width(ColumnKind::LookupTable) <= later.width(ColumnKind::LookupTable));
        }
    }
}

/// The constraint builder. It is filled during configuration and sealed when
/// synthesis begins.
pub struct ConstraintSystem {
    advice: Vec<bool>,
    fixed: Vec<bool>,
    instance: Vec<bool>,
    tables: usize,
    selectors: usize,
    gates: Vec<Gate>,
    lookups: Vec<Lookup>,
    sealed: bool,
}

impl View for ConstraintSystem {
    type V = Shape;

    closed spec fn view(&self) -> Shape {
        Shape {
            advice: self.advice@,
            fixed: self.fixed@,
            instance: self.instance@,
            tables: self.tables as nat,
            selectors: self.selectors as nat,
            gates: self.gates@,
            lookups: self.lookups@,
            sealed: self.sealed,
        }
    }
}

impl ConstraintSystem {
    /// The empty constraint system, open for configuration.
    pub fn new() -> (cs: ConstraintSystem)
        ensures
            cs@ == Shape::empty(),
            cs@.wf(),
    {
        ConstraintSystem {
            advice: Vec::new(),
            fixed: Vec::new(),
            instance: Vec::new(),
            tables: 0,
            selectors: 0,
            gates: Vec::new(),
            lookups: Vec::new(),
            sealed: false,
        }
    }

    /// Allocates a column of the given kind. It fails with `Closed` once the
    /// system is sealed, and with `Exhausted` when no index is left.
    pub fn allocate_column(&mut self, kind: ColumnKind) -> (r: Result<Column, ConfigurationError>)
        ensures
            (final(self)@, refusal(r)) == old(self)@.step(ConfigStep::Column(kind)),
            r matches Ok(column) ==> column == old(self)@.next_column(kind),
            r is Ok <==> old(self)@.column_error(kind) is None,
            r is Ok ==> final(self)@ == old(self)@.with_column(kind) && old(self)@.precedes(
                final(self)@,
            ),
            old(self)@.wf() ==> final(self)@.wf(),
    {
        proof {
            reveal(Shape::step);
        }
        if self.sealed {
            return Err(ConfigurationError::Closed);
        }
        let index: usize = match kind {
            ColumnKind::Advice => self.advice.len(),
            ColumnKind::Fixed => self.fixed.len(),
            ColumnKind::Instance => self.instance.len(),
            ColumnKind::LookupTable => self.tables,
        };
        if index == usize::MAX {
            return Err(ConfigurationError::Exhausted);
        }
        match kind {
            ColumnKind::Advice => {
                self.advice.push(false);
            },
            ColumnKind::Fixed => {
                self.fixed.push(false);
            },
            ColumnKind::Instance => {
                self.instance.push(false);
            },
            ColumnKind::LookupTable => {
                self.tables = self.tables + 1;
            },
        }
        proof {
            if old(self)@.wf() {
                old(self)@.lemma_wf_grows(self@);
            }
        }
        Ok(Column { kind, index })
    }

    /// Allocates an advice column.
    pub fn advice_column(&mut self) -> (r: Result<Column, ConfigurationError>)
        ensures
            (final(self)@, refusal(r)) == old(self)@.step(ConfigStep::Column(ColumnKind::Advice)),
            r matches Ok(column) ==> column == old(self)@.next_column(ColumnKind::Advice),
            r is Ok <==> old(self)@.column_error(ColumnKind::Advice) is None,
            r is Ok ==> final(self)@ == old(self)@.with_column(ColumnKind::Advice) && old(self)@.precedes(
                final(self)@,
            ),
            old(self)@.wf() ==> final(self)@.wf(),
    {
        self.allocate_column(ColumnKind::Advice)
    }

    /// Allocates a fixed column.
    pub fn fixed_column(&mut self) -> (r: Result<Column, ConfigurationError>)
        ensures
            (final(self)@, refusal(r)) == old(self)@.step(ConfigStep::Column(ColumnKind::Fixed)),
            r matches Ok(column) ==> column == old(self)@.next_column(ColumnKind::Fixed),
            r is Ok <==> old(self)@.column_error(ColumnKind::Fixed) is None,
            r is Ok ==> final(self)@ == old(self)@.with_column(ColumnKind::Fixed) && old(self)@.precedes(
                final(self)@,
            ),
            old(self)@.wf() ==> final(self)@.wf(),
    {
        self.allocate_column(ColumnKind::Fixed)
    }

    /// Allocates an instance column.
    pub fn instance_column(&mut self) -> (r: Result<Column, ConfigurationError>)
        ensures
            (final(self)@, refusal(r)) == old(self)@.step(ConfigStep::Column(ColumnKind::Instance)),
            r matches Ok(column) ==> column == old(self)@.next_column(ColumnKind::Instance),
            r is Ok <==> old(self)@.column_error(ColumnKind::Instance) is None,
            r is Ok ==> final(self)@ == old(self)@.with_column(ColumnKind::Instance) && old(self)@.precedes(
                final(self)@,
            ),
            old(self)@.wf() ==> final(self)@.wf(),
    {
        self.allocate_column(ColumnKind::Instance)
    }

    /// Allocates a lookup-table column.
    pub fn lookup_table_column(&mut self) -> (r: Result<Column, ConfigurationError>)
        ensures
            (final(self)@, refusal(r)) == old(self)@.step(
                ConfigStep::Column(ColumnKind::LookupTable),
            ),
            r matches Ok(column) ==> column == old(self)@.next_column(ColumnKind::LookupTable),
            r is Ok <==> old(self)@.column_error(ColumnKind::LookupTable) is None,
            r is Ok ==> final(self)@ == old(self)@.with_column(ColumnKind::LookupTable) && old(self)@.precedes(
                final(self)@,
            ),
            old(self)@.wf() ==> final(self)@.wf(),
    {
        self.allocate_column(ColumnKind::LookupTable)
    }

    /// Allocates a selector. It fails with `Closed` once the system is
    /// sealed, and with `Exhausted` when no index is left.
    pub fn selector(&mut self) -> (r: Result<Selector, ConfigurationError>)
        ensures
            (final(self)@, refusal(r)) == old(self)@.step(ConfigStep::Selector),
            r matches Ok(s) ==> s == old(self)@.next_selector(),
            r is Ok <==> old(self)@.selector_error() is None,
            r is Ok ==> final(self)@ == (Shape {
                selectors: old(self)@.selectors + 1,
                ..old(self)@
            }) && old(self)@.precedes(final(self)@),
            old(self)@.wf() ==> final(self)@.wf(),
    {
        proof {
            reveal(Shape::step);
        }
        if self.sealed {
            return Err(ConfigurationError::Closed);
        }
        if self.selectors == usize::MAX {
            return Err(ConfigurationError::Exhausted);
        }
        let index: usize = self.selectors;
        self.selectors = index + 1;
        proof {
            if old(self)@.wf() {
                old(self)@.lemma_wf_grows(self@);
            }
        }
        Ok(Selector { index })
    }

    /// Allocates a selector that may guard a lookup argument.
    pub fn complex_selector(&mut self) -> (r: Result<Selector, ConfigurationError>)
        ensures
            (final(self)@, refusal(r)) == old(self)@.step(ConfigStep::Selector),
            r matches Ok(s) ==> s == old(self)@.next_selector(),
            r is Ok <==> old(self)@.selector_error() is None,
            r is Ok ==> final(self)@ == (Shape {
                selectors: old(self)@.selectors + 1,
                ..old(self)@
            }) && old(self)@.precedes(final(self)@),
            old(self)@.wf() ==> final(self)@.wf(),
    {
        self.selector()
    }

    /// Marks a column as eligible for copy constraints. It fails with
    /// `Closed` once the system is sealed, and with `InvalidColumn` for a
    /// column that is not allocated or is a lookup-table column.
    pub fn enable_equality(&mut self, column: Column) -> (r: Result<(), ConfigurationError>)
        ensures
            (final(self)@, refusal(r)) == old(self)@.step(ConfigStep::Equality(column)),
            r is Ok <==> old(self)@.equality_error(column) is None,
            r is Ok ==> final(self)@ == old(self)@.with_equality(column) && old(self)@.precedes(
                final(self)@,
            ),
            old(self)@.wf() ==> final(self)@.wf(),
    {
        proof {
            reveal(Shape::step);
        }
        if self.sealed {
            return Err(ConfigurationError::Closed);
        }
        match column.kind {
            ColumnKind::Advice => {
                if column.index >= self.advice.len() {
                    return Err(ConfigurationError::InvalidColumn);
                }
                self.advice[column.index] = true;
            },
            ColumnKind::Fixed => {
                if column.index >= self.fixed.len() {
                    return Err(ConfigurationError::InvalidColumn);
                }
                self.fixed[column.index] = true;
            },
            ColumnKind::Instance => {
                if column.index >= self.instance.len() {
                    return Err(ConfigurationError::InvalidColumn);
                }
                self.instance[column.index] = true;
            },
            ColumnKind::LookupTable => {
                return Err(ConfigurationError::InvalidColumn);
            },
        }
        proof {
            if old(self)@.wf() {
                old(self)@.lemma_wf_grows(self@);
            }
        }
        Ok(())
    }

    /// Marks a fixed column as one that holds constants, which makes it
    /// eligible for copy constraints. It fails with `Closed` once the system
    /// is sealed, and with `InvalidColumn` for a column that is not an
    /// allocated fixed column.
    pub fn enable_constant(&mut self, column: Column) -> (r: Result<(), ConfigurationError>)
        ensures
            (final(self)@, refusal(r)) == old(self)@.step(ConfigStep::Constant(column)),
            r is Ok <==> old(self)@.constant_error(column) is None,
            r is Ok ==> final(self)@ == old(self)@.with_equality(column) && old(self)@.precedes(
                final(self)@,
            ),
            old(self)@.wf() ==> final(self)@.wf(),
    {
        proof {
            reveal(Shape::step);
        }
        if self.sealed {
            return Err(ConfigurationError::Closed);
        }
        match column.kind {
            ColumnKind::Fixed => self.enable_equality(column),
            _ => Err(ConfigurationError::InvalidColumn),
        }
    }

    /// Whether an expression reads allocated columns only.
    pub fn expression_ok(&self, e: &Expression) -> (b: bool)
        ensures
            b == self@.expression_ok(*e),
        decreases *e,
    {
        match e {
            Expression::Constant(_) => true,
            Expression::ColumnRef { column, rotation } => {
                match column.kind {
                    ColumnKind::Advice => column.index < self.advice.len(),
                    ColumnKind::Fixed => column.index < self.fixed.len(),
                    ColumnKind::Instance => column.index < self.instance.len(),
                    ColumnKind::LookupTable => false,
                }
            },
            Expression::Neg(a) => self.expression_ok(a),
            Expression::Add(a, b) => self.expression_ok(a) && self.expression_ok(b),
            Expression::Sub(a, b) => self.expression_ok(a) && self.expression_ok(b),
            Expression::Mul(a, b) => self.expression_ok(a) && self.expression_ok(b),
        }
    }

    /// Registers a gate: `poly` must vanish on every row at which `selector`
    /// is on. It fails with `Closed` once the system is sealed, with
    /// `UnknownSelector` for a selector that is not allocated, and with
    /// `InvalidColumn` where `poly` reads a column that is not allocated or
    /// is a lookup-table column.
    pub fn create_gate(&mut self, name: &'static str, selector: Selector, poly: Expression) -> (r:
        Result<(), ConfigurationError>)
        ensures
            (final(self)@, refusal(r)) == old(self)@.step(
                ConfigStep::Gate(Gate { name, selector, poly }),
            ),
            r is Ok <==> old(self)@.gate_error(Gate { name, selector, poly }) is None,
            r is Ok ==> final(self)@ == (Shape {
                gates: old(self)@.gates.push(Gate { name, selector, poly }),
                ..old(self)@
            }),
            old(self)@.wf() ==> final(self)@.wf(),
    {
        proof {
            reveal(Shape::step);
        }
        if self.sealed {
            return Err(ConfigurationError::Closed);
        }
        if selector.index >= self.selectors {
            return Err(ConfigurationError::UnknownSelector);
        }
        if !self.expression_ok(&poly) {
            return Err(ConfigurationError::InvalidColumn);
        }
        self.gates.push(Gate { name, selector, poly });
        proof {
            if old(self)@.wf() {
                assert forall|i: int| 0 <= i < self@.gates.len() implies self@.gate_ok(
                    #[trigger] self@.gates[i],
                ) by {
                    if i < old(self)@.gates.len() {
                        assert(old(self)@.gate_ok(old(self)@.gates[i]));
                    }
                    old(self)@.lemma_expression_ok_grows(self@, self@.gates[i].poly);
                }
                assert forall|i: int| 0 <= i < self@.lookups.len() implies self@.lookup_ok(
                    #[trigger] self@.lookups[i],
                ) by {
                    assert(old(self)@.lookup_ok(old(self)@.lookups[i]));
                    old(self)@.lemma_expression_ok_grows(self@, self@.lookups[i].input);
                }
            }
        }
        Ok(())
    }

    /// Registers a lookup argument: on every row at which `selector` is on,
    /// the value of `input` must occur in the column `table`. It fails with
    /// `Closed` once the system is sealed, with `UnknownSelector` for a
    /// selector that is not allocated, and with `InvalidColumn` where `input`
    /// reads a column that it may not read or `table` is not an allocated
    /// lookup-table column.
    pub fn lookup(
        &mut self,
        name: &'static str,
        selector: Selector,
        input: Expression,
        table: Column,
    ) -> (r: Result<(), ConfigurationError>)
        ensures
            (final(self)@, refusal(r)) == old(self)@.step(
                ConfigStep::Lookup(Lookup { name, selector, input, table }),
            ),
            r is Ok <==> old(self)@.lookup_error(Lookup { name, selector, input, table }) is None,
            r is Ok ==> final(self)@ == (Shape {
                lookups: old(self)@.lookups.push(Lookup { name, selector, input, table }),
                ..old(self)@
            }),
            old(self)@.wf() ==> final(self)@.wf(),
    {
        proof {
            reveal(Shape::step);
        }
        if self.sealed {
            return Err(ConfigurationError::Closed);
        }
        if selector.index >= self.selectors {
            return Err(ConfigurationError::UnknownSelector);
        }
        if !self.expression_ok(&input) {
            return Err(ConfigurationError::InvalidColumn);
        }
        match table.kind {
            ColumnKind::LookupTable => {},
            _ => {
                return Err(ConfigurationError::InvalidColumn);
            },
        }
        if table.index >= self.tables {
            return Err(ConfigurationError::InvalidColumn);
        }
        self.lookups.push(Lookup { name, selector, input, table });
        proof {
            if old(self)@.wf() {
                assert forall|i: int| 0 <= i < self@.lookups.len() implies self@.lookup_ok(
                    #[trigger] self@.lookups[i],
                ) by {
                    if i < old(self)@.lookups.len() {
                        assert(old(self)@.lookup_ok(old(self)@.lookups[i]));
                    }
                    old(self)@.lemma_expression_ok_grows(self@, self@.lookups[i].input);
                }
                assert forall|i: int| 0 <= i < self@.gates.len() implies self@.gate_ok(
                    #[trigger] self@.gates[i],
                ) by {
                    assert(old(self)@.gate_ok(old(self)@.gates[i]));
                    old(self)@.lemma_expression_ok_grows(self@, self@.gates[i].poly);
                }
            }
        }
        Ok(())
    }

    /// Ends configuration: every later registration fails with `Closed`.
    pub fn seal(&mut self)
        ensures
            (final(self)@, None::<ConfigurationError>) == old(self)@.step(ConfigStep::Seal),
            old(self)@.wf() ==> final(self)@.wf(),
    {
        proof {
            reveal(Shape::step);
        }
        self.sealed = true;
        proof {
            if old(self)@.wf() {
                old(self)@.lemma_wf_grows(self@);
            }
        }
    }

    /// Whether configuration is over.
    pub fn is_sealed(&self) -> (b: bool)
        ensures
            b == self@.sealed,
    {
        self.sealed
    }

    /// The number of columns of a kind.
    pub fn num_columns(&self, kind: ColumnKind) -> (n: usize)
        ensures
            n == self@.width(kind),
    {
        match kind {
            ColumnKind::Advice => self.advice.len(),
            ColumnKind::Fixed => self.fixed.len(),
            ColumnKind::Instance => self.instance.len(),
            ColumnKind::LookupTable => self.tables,
        }
    }

    /// The number of selectors.
    pub fn num_selectors(&self) -> (n: usize)
        ensures
            n == self@.selectors,
    {
        self.selectors
    }

    /// Whether a column may take part in copy constraints.
    pub fn equality_enabled(&self, column: Column) -> (b: bool)
        ensures
            b == self@.equality(column),
    {
        match column.kind {
            ColumnKind::Advice => column.index < self.advice.len() && self.advice[column.index],
            ColumnKind::Fixed => column.index < self.fixed.len() && self.fixed[column.index],
            ColumnKind::Instance => column.index < self.instance.len()
                && self.instance[column.index],
            ColumnKind::LookupTable => false,
        }
    }

    /// The number of gates.
    pub fn num_gates(&self) -> (n: usize)
        ensures
            n == self@.gates.len(),
    {
        self.gates.len()
    }

    /// A gate, by its index.
    pub fn gate(&self, i: usize) -> (g: &Gate)
        requires
            i < self@.gates.len(),
        ensures
            *g == self@.gates[i as int],
    {
        &self.gates[i]
    }

    /// The number of lookup arguments.
    pub fn num_lookups(&self) -> (n: usize)
        ensures
            n == self@.lookups.len(),
    {
        self.lookups.len()
    }

    /// A lookup argument, by its index.
    pub fn lookup_at(&self, i: usize) -> (l: &Lookup)
        requires
            i < self@.lookups.len(),
        ensures
            *l == self@.lookups[i as int],
    {
        &self.lookups[i]
    }
}

} // verus!
