//! The verifier: it replays every gate, lookup argument, copy constraint and
//! instance binding against a sealed witness grid.

use crate::column::{Cell, Column};
use crate::field::Fe;
use crate::layouter::{AssignmentError, Layout, Layouter};
use vstd::prelude::*;

verus! {

/// One constraint that a witness does not meet.
#[derive(Clone, Copy, Debug, PartialEq, Eq)]
pub enum VerificationFailure {
    /// A gate does not vanish on a row at which its selector is on.
    GateViolation { gate_index: usize, gate_name: &'static str, row: usize, value: Fe },
    /// The input of a lookup argument is not in its table, on a row at which
    /// its selector is on.
    LookupMiss { lookup_index: usize, lookup_name: &'static str, row: usize, value: Fe },
    /// The two cells of a copy constraint hold different values.
    CopyMismatch { cell_a: Cell, cell_b: Cell },
    /// A cell bound to an instance cell holds another value than it.
    InstanceMismatch { column: usize, row: usize, expected: Fe, actual: Fe },
}

/// The failures that `f` reports for the items below `i` on every row below
/// `rows`, then for item `i` on the rows below `r`, in that order.
pub open spec fn scan(
    f: spec_fn(int, int) -> Option<VerificationFailure>,
    rows: nat,
    i: nat,
    r: nat,
) -> Seq<VerificationFailure>
    decreases i, r,
{
    if r > 0 {
        let rest = scan(f, rows, i, (r - 1) as nat);
        match f(i as int, r - 1) {
            Some(x) => rest.push(x),
            None => rest,
        }
    } else if i > 0 {
        scan(f, rows, (i - 1) as nat, rows)
    } else {
        Seq::empty()
    }
}

/// The failures that `f` reports for the items below `n`, in order.
pub open spec fn scan_list(f: spec_fn(int) -> Option<VerificationFailure>, n: nat) -> Seq<
    VerificationFailure,
>
    decreases n,
{
    if n == 0 {
        Seq::empty()
    } else {
        let rest = scan_list(f, (n - 1) as nat);
        match f(n - 1) {
            Some(x) => rest.push(x),
            None => rest,
        }
    }
}

/// A scan that stops earlier is a prefix of one that stops later.
pub proof fn lemma_scan_prefix(
    f: spec_fn(int, int) -> Option<VerificationFailure>,
    rows: nat,
    i: nat,
    r: nat,
    j: nat,
    s: nat,
)
    requires
        r <= rows,
        s <= rows,
        i < j || (i == j && r <= s),
    ensures
        scan(f, rows, i, r).is_prefix_of(scan(f, rows, j, s)),
    decreases j, s,
{
    if i == j && r == s {
    } else if s > 0 {
        lemma_scan_prefix(f, rows, i, r, j, (s - 1) as nat);
    } else {
        lemma_scan_prefix(f, rows, i, r, (j - 1) as nat, rows);
    }
}

/// A failure that `f` reports for an item and a row is in the scan of all
/// items.
pub proof fn lemma_scan_contains(
    f: spec_fn(int, int) -> Option<VerificationFailure>,
    rows: nat,
    n: nat,
    i: nat,
    r: nat,
)
    requires
        i < n,
        r < rows,
        f(i as int, r as int) is Some,
    ensures
        scan(f, rows, n, 0).contains(f(i as int, r as int).unwrap()),
{
    let part = scan(f, rows, i, r + 1);
    let all = scan(f, rows, n, 0);
    lemma_scan_prefix(f, rows, i, r + 1, n, 0);
    let last = part.len() - 1;
    assert(part[last] == f(i as int, r as int).unwrap());
    assert(all[last] == part[last]);
}

/// A scan is empty exactly if `f` reports nothing.
pub proof fn lemma_scan_empty(
    f: spec_fn(int, int) -> Option<VerificationFailure>,
    rows: nat,
    i: nat,
    r: nat,
)
    requires
        r <= rows,
    ensures
        scan(f, rows, i, r).len() == 0 <==> (forall|a: int, b: int|
            0 <= a < i && 0 <= b < rows || a == i && 0 <= b < r ==> #[trigger] f(a, b) is None),
    decreases i, r,
{
    if r > 0 {
        lemma_scan_empty(f, rows, i, (r - 1) as nat);
    } else if i > 0 {
        lemma_scan_empty(f, rows, (i - 1) as nat, rows);
    }
}

/// A failure that `f` reports for an item is in the list of all items.
pub proof fn lemma_scan_list_contains(
    f: spec_fn(int) -> Option<VerificationFailure>,
    n: nat,
    i: nat,
)
    requires
        i < n,
        f(i as int) is Some,
    ensures
        scan_list(f, n).contains(f(i as int).unwrap()),
    decreases n,
{
    let all = scan_list(f, n);
    if i == n - 1 {
        assert(all[all.len() - 1] == f(i as int).unwrap());
    } else {
        lemma_scan_list_contains(f, (n - 1) as nat, i);
        let rest = scan_list(f, (n - 1) as nat);
        let k = choose|k: int| 0 <= k < rest.len() && rest[k] == f(i as int).unwrap();
        assert(all[k] == rest[k]);
    }
}

/// A list that stops earlier is a prefix of one that stops later.
pub proof fn lemma_scan_list_prefix(f: spec_fn(int) -> Option<VerificationFailure>, m: nat, n: nat)
    requires
        m <= n,
    ensures
        scan_list(f, m).is_prefix_of(scan_list(f, n)),
    decreases n,
{
    if m < n {
        lemma_scan_list_prefix(f, m, (n - 1) as nat);
    }
}

/// A list is empty exactly if `f` reports nothing.
pub proof fn lemma_scan_list_empty(f: spec_fn(int) -> Option<VerificationFailure>, n: nat)
    ensures
        scan_list(f, n).len() == 0 <==> (forall|a: int| 0 <= a < n ==> #[trigger] f(a) is None),
    decreases n,
{
    if n > 0 {
        lemma_scan_list_empty(f, (n - 1) as nat);
    }
}

impl Layout {
    /// Whether a value occurs in a lookup-table column.
    pub open spec fn table_has(self, table: Column, v: nat) -> bool {
        exists|t: int|
            0 <= t < self.rows && #[trigger] self.cells.contains_key(
                Cell { column: table, row: t as usize },
            ) && self.cells[Cell { column: table, row: t as usize }].value() == v
    }

    /// Whether every gate and every lookup argument reads assigned cells only
    /// on the rows at which it is active.
    pub open spec fn complete(self) -> bool {
        &&& forall|i: int, r: int|
            0 <= i < self.cs.gates.len() && #[trigger] self.flags.contains(
                (self.cs.gates[i].selector, r),
            ) ==> self.cs.gates[i].poly.defined(self.cells, r)
        &&& forall|i: int, r: int|
            0 <= i < self.cs.lookups.len() && #[trigger] self.flags.contains(
                (self.cs.lookups[i].selector, r),
            ) ==> self.cs.lookups[i].input.defined(self.cells, r)
    }

    /// The failure of a gate on a row, if it fails there.
    pub open spec fn gate_failure(self, i: int, r: int) -> Option<VerificationFailure> {
        let g = self.cs.gates[i];
        let v = g.poly.eval(self.cells, r);
        if self.flags.contains((g.selector, r)) && v != 0 {
            Some(
                VerificationFailure::GateViolation {
                    gate_index: i as usize,
                    gate_name: g.name,
                    row: r as usize,
                    value: Fe::of(v),
                },
            )
        } else {
            None
        }
    }

    /// The failure of a lookup argument on a row, if it fails there.
    pub open spec fn lookup_failure(self, i: int, r: int) -> Option<VerificationFailure> {
        let l = self.cs.lookups[i];
        let v = l.input.eval(self.cells, r);
        if self.flags.contains((l.selector, r)) && !self.table_has(l.table, v) {
            Some(
                VerificationFailure::LookupMiss {
                    lookup_index: i as usize,
                    lookup_name: l.name,
                    row: r as usize,
                    value: Fe::of(v),
                },
            )
        } else {
            None
        }
    }

    /// The failure of a copy constraint, if it fails.
    pub open spec fn copy_failure(self, i: int) -> Option<VerificationFailure> {
        let (a, b) = self.copies[i];
        if self.cells[a] != self.cells[b] {
            Some(VerificationFailure::CopyMismatch { cell_a: a, cell_b: b })
        } else {
            None
        }
    }

    /// The failure of an instance binding, if it fails.
    pub open spec fn binding_failure(self, i: int) -> Option<VerificationFailure> {
        let (c, public) = self.bindings[i];
        if self.cells[c] != self.cells[public] {
            Some(
                VerificationFailure::InstanceMismatch {
                    column: public.column.index,
                    row: public.row,
                    expected: self.cells[public],
                    actual: self.cells[c],
                },
            )
        } else {
            None
        }
    }

    /// `gate_failure` as a function of a gate's index and a row.
    pub open spec fn gate_check(self) -> spec_fn(int, int) -> Option<VerificationFailure> {
        |i: int, r: int| self.gate_failure(i, r)
    }

    /// `lookup_failure` as a function of a lookup's index and a row.
    pub open spec fn lookup_check(self) -> spec_fn(int, int) -> Option<VerificationFailure> {
        |i: int, r: int| self.lookup_failure(i, r)
    }

    /// `copy_failure` as a function of the constraint.
    pub open spec fn copy_check(self) -> spec_fn(int) -> Option<VerificationFailure> {
        |i: int| self.copy_failure(i)
    }

    /// `binding_failure` as a function of the binding.
    pub open spec fn binding_check(self) -> spec_fn(int) -> Option<VerificationFailure> {
        |i: int| self.binding_failure(i)
    }

    /// The failures of the gates: gate by gate, and row by row for each.
    pub open spec fn gate_failures(self) -> Seq<VerificationFailure> {
        scan(self.gate_check(), self.rows, self.cs.gates.len(), 0)
    }

    /// The failures of the lookup arguments: lookup by lookup, and row by row
    /// for each.
    pub open spec fn lookup_failures(self) -> Seq<VerificationFailure> {
        scan(self.lookup_check(), self.rows, self.cs.lookups.len(), 0)
    }

    /// The failures of the copy constraints, in the order of the constraints.
    pub open spec fn copy_failures(self) -> Seq<VerificationFailure> {
        scan_list(self.copy_check(), self.copies.len())
    }

    /// The failures of the instance bindings, in the order of the bindings.
    pub open spec fn binding_failures(self) -> Seq<VerificationFailure> {
        scan_list(self.binding_check(), self.bindings.len())
    }

    /// Every failure: those of the gates, then of the lookup arguments, then
    /// of the copy constraints, then of the instance bindings.
    pub open spec fn failures(self) -> Seq<VerificationFailure> {
        self.gate_failures() + self.lookup_failures() + self.copy_failures()
            + self.binding_failures()
    }

    /// Success, or the first failure.
    pub open spec fn verdict(self) -> Result<(), VerificationFailure> {
        if self.failures().len() == 0 {
            Ok(())
        } else {
            Err(self.failures()[0])
        }
    }
}

/// A sealed witness: the grid, the constraints and the bindings of one
/// synthesized circuit, which nothing changes any more.
pub struct MockProver {
    layouter: Layouter,
}

impl View for MockProver {
    type V = Layout;

    closed spec fn view(&self) -> Layout {
        self.layouter@
    }
}

impl Layouter {
    /// Whether a gate or lookup argument reads an unassigned cell on a row at
    /// which it is active.
    fn is_complete(&self) -> (b: bool)
        requires
            self.wf(),
        ensures
            b == self@.complete(),
    {
        proof {
            self.lemma_wf();
        }
        let rows: usize = self.rows();
        let cs = self.constraint_system();
        let grid = self.grid();
        let mut i: usize = 0;
        while i < cs.num_gates()
            invariant
                i <= cs@.gates.len(),
                cs@ == self@.cs,
                grid.wf(),
                grid.cells() == self@.cells,
                grid.flags() == self@.flags,
                rows == self@.rows,
                self@.wf(),
                forall|a: int, r: int|
                    0 <= a < i && #[trigger] self@.flags.contains((self@.cs.gates[a].selector, r))
                        ==> self@.cs.gates[a].poly.defined(self@.cells, r),
            decreases cs@.gates.len() - i,
        {
            let gate = cs.gate(i);
            let mut r: usize = 0;
            while r < rows
                invariant
                    r <= rows,
                    i < cs@.gates.len(),
                    cs@ == self@.cs,
                    *gate == self@.cs.gates[i as int],
                    grid.wf(),
                    grid.cells() == self@.cells,
                    grid.flags() == self@.flags,
                    rows == self@.rows,
                self@.wf(),
                        forall|b: int|
                        0 <= b < r && #[trigger] self@.flags.contains((gate.selector, b))
                            ==> gate.poly.defined(self@.cells, b),
                decreases rows - r,
            {
                if grid.is_enabled(gate.selector, r) && gate.poly.evaluate(grid, r).is_none() {
                    return false;
                }
                r = r + 1;
            }
            i = i + 1;
        }
        let mut j: usize = 0;
        while j < cs.num_lookups()
            invariant
                j <= cs@.lookups.len(),
                cs@ == self@.cs,
                grid.wf(),
                grid.cells() == self@.cells,
                grid.flags() == self@.flags,
                rows == self@.rows,
                self@.wf(),
                forall|a: int, r: int|
                    0 <= a < self@.cs.gates.len() && #[trigger] self@.flags.contains(
                        (self@.cs.gates[a].selector, r),
                    ) ==> self@.cs.gates[a].poly.defined(self@.cells, r),
                forall|a: int, r: int|
                    0 <= a < j && #[trigger] self@.flags.contains((self@.cs.lookups[a].selector, r))
                        ==> self@.cs.lookups[a].input.defined(self@.cells, r),
            decreases cs@.lookups.len() - j,
        {
            let lookup = cs.lookup_at(j);
            let mut r: usize = 0;
            while r < rows
                invariant
                    r <= rows,
                    j < cs@.lookups.len(),
                    cs@ == self@.cs,
                    *lookup == self@.cs.lookups[j as int],
                    grid.wf(),
                    grid.cells() == self@.cells,
                    grid.flags() == self@.flags,
                    rows == self@.rows,
                self@.wf(),
                        forall|b: int|
                        0 <= b < r && #[trigger] self@.flags.contains((lookup.selector, b))
                            ==> lookup.input.defined(self@.cells, b),
                decreases rows - r,
            {
                if grid.is_enabled(lookup.selector, r) && lookup.input.evaluate(grid, r).is_none() {
                    return false;
                }
                r = r + 1;
            }
            j = j + 1;
        }
        true
    }

    /// Ends synthesis and hands the witness over for verification. It fails
    /// with `UnassignedCell` where a gate or a lookup argument reads a cell
    /// that holds no value, on a row at which its selector is on.
    pub fn seal(self) -> (r: Result<MockProver, AssignmentError>)
        requires
            self.wf(),
        ensures
            match r {
                Ok(p) => self@.complete() && p.wf() && p@ == self@,
                Err(e) => !self@.complete() && e == AssignmentError::UnassignedCell,
            },
    {
        if self.is_complete() {
            Ok(MockProver { layouter: self })
        } else {
            Err(AssignmentError::UnassignedCell)
        }
    }
}

impl MockProver {
    /// The witness is in order and complete.
    pub closed spec fn wf(&self) -> bool {
        self.layouter.wf() && self.layouter@.complete()
    }

    /// What is seen of a sealed witness is in order and complete.
    pub proof fn lemma_wf(&self)
        requires
            self.wf(),
        ensures
            self@.wf(),
            self@.complete(),
    {
        self.layouter.lemma_wf();
    }

    /// The value of a cell, if it is assigned.
    pub fn value_of(&self, cell: Cell) -> (o: Option<Fe>)
        requires
            self.wf(),
        ensures
            o is Some <==> self@.cells.contains_key(cell),
            o is Some ==> o.unwrap() == self@.cells[cell],
    {
        self.layouter.value_of(cell)
    }

    /// Whether a value occurs in a lookup-table column.
    fn table_has(&self, table: Column, v: Fe) -> (b: bool)
        requires
            self.wf(),
        ensures
            b == self@.table_has(table, v.value()),
    {
        let grid = self.layouter.grid();
        let rows: usize = grid.rows();
        let mut t: usize = 0;
        while t < rows
            invariant
                t <= rows,
                rows == self@.rows,
                grid.wf(),
                grid.cells() == self@.cells,
                forall|u: int|
                    0 <= u < t ==> !(#[trigger] self@.cells.contains_key(
                        Cell { column: table, row: u as usize },
                    ) && self@.cells[Cell { column: table, row: u as usize }].value() == v.value()),
            decreases rows - t,
        {
            match grid.get(Cell { column: table, row: t }) {
                Some(x) => {
                    proof {
                        if x.value() == v.value() {
                            x.lemma_value_injective(v);
                        }
                    }
                    if x == v {
                        assert(self@.cells.contains_key(
                            Cell { column: table, row: (t as int) as usize },
                        ));
                        return true;
                    }
                },
                None => {},
            }
            t = t + 1;
        }
        false
    }

    /// The failure of a gate on a row, if it fails there.
    fn check_gate(&self, i: usize, r: usize) -> (o: Option<VerificationFailure>)
        requires
            self.wf(),
            i < self@.cs.gates.len(),
            r < self@.rows,
        ensures
            o == self@.gate_failure(i as int, r as int),
    {
        let gate = self.layouter.constraint_system().gate(i);
        let grid = self.layouter.grid();
        if !grid.is_enabled(gate.selector, r) {
            return None;
        }
        match gate.poly.evaluate(grid, r) {
            Some(v) => {
                proof {
                    v.lemma_of_value();
                }
                if v.is_zero() {
                    None
                } else {
                    Some(
                        VerificationFailure::GateViolation {
                            gate_index: i,
                            gate_name: gate.name,
                            row: r,
                            value: v,
                        },
                    )
                }
            },
            None => None,
        }
    }

    /// The failure of a lookup argument on a row, if it fails there.
    fn check_lookup(&self, i: usize, r: usize) -> (o: Option<VerificationFailure>)
        requires
            self.wf(),
            i < self@.cs.lookups.len(),
            r < self@.rows,
        ensures
            o == self@.lookup_failure(i as int, r as int),
    {
        let lookup = self.layouter.constraint_system().lookup_at(i);
        let grid = self.layouter.grid();
        if !grid.is_enabled(lookup.selector, r) {
            return None;
        }
        match lookup.input.evaluate(grid, r) {
            Some(v) => {
                proof {
                    v.lemma_of_value();
                }
                if self.table_has(lookup.table, v) {
                    None
                } else {
                    Some(
                        VerificationFailure::LookupMiss {
                            lookup_index: i,
                            lookup_name: lookup.name,
                            row: r,
                            value: v,
                        },
                    )
                }
            },
            None => None,
        }
    }

    /// The failure of a copy constraint, if it fails.
    fn check_copy(&self, i: usize) -> (o: Option<VerificationFailure>)
        requires
            self.wf(),
            i < self@.copies.len(),
        ensures
            o == self@.copy_failure(i as int),
    {
        proof {
            self.layouter.lemma_wf();
        }
        let pair = self.layouter.copies()[i];
        assert(self@.cells.contains_key(self@.copies[i as int].0));
        let grid = self.layouter.grid();
        match (grid.get(pair.0), grid.get(pair.1)) {
            (Some(a), Some(b)) => {
                if a == b {
                    None
                } else {
                    Some(VerificationFailure::CopyMismatch { cell_a: pair.0, cell_b: pair.1 })
                }
            },
            _ => None,
        }
    }

    /// The failure of an instance binding, if it fails.
    fn check_binding(&self, i: usize) -> (o: Option<VerificationFailure>)
        requires
            self.wf(),
            i < self@.bindings.len(),
        ensures
            o == self@.binding_failure(i as int),
    {
        proof {
            self.layouter.lemma_wf();
        }
        let pair = self.layouter.bindings()[i];
        assert(self@.cells.contains_key(self@.bindings[i as int].0));
        let grid = self.layouter.grid();
        match (grid.get(pair.0), grid.get(pair.1)) {
            (Some(a), Some(b)) => {
                if a == b {
                    None
                } else {
                    Some(
                        VerificationFailure::InstanceMismatch {
                            column: pair.1.column.index,
                            row: pair.1.row,
                            expected: b,
                            actual: a,
                        },
                    )
                }
            },
            _ => None,
        }
    }

    /// Checks the constraints in order and stops at the first that fails:
    /// the gates, then the lookup arguments, the copy constraints and the
    /// instance bindings.
    pub fn verify(&self) -> (r: Result<(), VerificationFailure>)
        requires
            self.wf(),
        ensures
            r == self@.verdict(),
    {
        let rows: usize = self.layouter.rows();
        let gates: usize = self.layouter.constraint_system().num_gates();
        let mut i: usize = 0;
        while i < gates
            invariant
                self.wf(),
                i <= gates,
                gates == self@.cs.gates.len(),
                rows == self@.rows,
                scan(self@.gate_check(), self@.rows, i as nat, 0).len() == 0,
            decreases gates - i,
        {
            let mut r: usize = 0;
            while r < rows
                invariant
                    self.wf(),
                    i < gates,
                    r <= rows,
                    gates == self@.cs.gates.len(),
                    rows == self@.rows,
                    scan(self@.gate_check(), self@.rows, i as nat, r as nat).len() == 0,
                decreases rows - r,
            {
                match self.check_gate(i, r) {
                    Some(f) => {
                        proof {
                            let part = scan(self@.gate_check(), self@.rows, i as nat, (r + 1) as nat);
                            lemma_scan_prefix(
                                self@.gate_check(),
                                self@.rows,
                                i as nat,
                                (r + 1) as nat,
                                gates as nat,
                                0,
                            );
                            assert(part[0] == f);
                            assert(self@.gate_failures()[0] == f);
                        }
                        return Err(f);
                    },
                    None => {},
                }
                r = r + 1;
            }
            i = i + 1;
        }
        let lookups: usize = self.layouter.constraint_system().num_lookups();
        let mut j: usize = 0;
        while j < lookups
            invariant
                self.wf(),
                j <= lookups,
                lookups == self@.cs.lookups.len(),
                rows == self@.rows,
                self@.gate_failures().len() == 0,
                scan(self@.lookup_check(), self@.rows, j as nat, 0).len() == 0,
            decreases lookups - j,
        {
            let mut r: usize = 0;
            while r < rows
                invariant
                    self.wf(),
                    j < lookups,
                    r <= rows,
                    lookups == self@.cs.lookups.len(),
                    rows == self@.rows,
                    self@.gate_failures().len() == 0,
                    scan(self@.lookup_check(), self@.rows, j as nat, r as nat).len() == 0,
                decreases rows - r,
            {
                match self.check_lookup(j, r) {
                    Some(f) => {
                        proof {
                            let part = scan(
                                self@.lookup_check(),
                                self@.rows,
                                j as nat,
                                (r + 1) as nat,
                            );
                            lemma_scan_prefix(
                                self@.lookup_check(),
                                self@.rows,
                                j as nat,
                                (r + 1) as nat,
                                lookups as nat,
                                0,
                            );
                            assert(part[0] == f);
                            assert(self@.lookup_failures()[0] == f);
                        }
                        return Err(f);
                    },
                    None => {},
                }
                r = r + 1;
            }
            j = j + 1;
        }
        let copies: usize = self.layouter.copies().len();
        let mut c: usize = 0;
        while c < copies
            invariant
                self.wf(),
                c <= copies,
                copies == self@.copies.len(),
                self@.gate_failures().len() == 0,
                self@.lookup_failures().len() == 0,
                scan_list(self@.copy_check(), c as nat).len() == 0,
            decreases copies - c,
        {
            match self.check_copy(c) {
                Some(f) => {
                    proof {
                        lemma_scan_list_prefix(self@.copy_check(), (c + 1) as nat, copies as nat);
                        assert(scan_list(self@.copy_check(), (c + 1) as nat)[0] == f);
                        assert(self@.copy_failures()[0] == f);
                    }
                    return Err(f);
                },
                None => {},
            }
            c = c + 1;
        }
        let bindings: usize = self.layouter.bindings().len();
        let mut b: usize = 0;
        while b < bindings
            invariant
                self.wf(),
                b <= bindings,
                bindings == self@.bindings.len(),
                self@.gate_failures().len() == 0,
                self@.lookup_failures().len() == 0,
                self@.copy_failures().len() == 0,
                scan_list(self@.binding_check(), b as nat).len() == 0,
            decreases bindings - b,
        {
            match self.check_binding(b) {
                Some(f) => {
                    proof {
                        lemma_scan_list_prefix(
                            self@.binding_check(),
                            (b + 1) as nat,
                            bindings as nat,
                        );
                        assert(scan_list(self@.binding_check(), (b + 1) as nat)[0] == f);
                        assert(self@.binding_failures()[0] == f);
                    }
                    return Err(f);
                },
                None => {},
            }
            b = b + 1;
        }
        Ok(())
    }

    /// Checks every constraint and returns every failure: those of the
    /// gates, then of the lookup arguments, of the copy constraints and of
    /// the instance bindings.
    pub fn verify_all(&self) -> (out: Vec<VerificationFailure>)
        requires
            self.wf(),
        ensures
            out@ == self@.failures(),
    {
        let rows: usize = self.layouter.rows();
        let mut out: Vec<VerificationFailure> = Vec::new();
        let gates: usize = self.layouter.constraint_system().num_gates();
        let mut i: usize = 0;
        while i < gates
            invariant
                self.wf(),
                i <= gates,
                gates == self@.cs.gates.len(),
                rows == self@.rows,
                out@ == scan(self@.gate_check(), self@.rows, i as nat, 0),
            decreases gates - i,
        {
            let mut r: usize = 0;
            while r < rows
                invariant
                    self.wf(),
                    i < gates,
                    r <= rows,
                    gates == self@.cs.gates.len(),
                    rows == self@.rows,
                    out@ == scan(self@.gate_check(), self@.rows, i as nat, r as nat),
                decreases rows - r,
            {
                match self.check_gate(i, r) {
                    Some(f) => {
                        out.push(f);
                    },
                    None => {},
                }
                r = r + 1;
            }
            i = i + 1;
        }
        let ghost gate_part = out@;
        let lookups: usize = self.layouter.constraint_system().num_lookups();
        let mut j: usize = 0;
        while j < lookups
            invariant
                self.wf(),
                j <= lookups,
                lookups == self@.cs.lookups.len(),
                rows == self@.rows,
                gate_part == self@.gate_failures(),
                out@ == gate_part + scan(self@.lookup_check(), self@.rows, j as nat, 0),
            decreases lookups - j,
        {
            let mut r: usize = 0;
            while r < rows
                invariant
                    self.wf(),
                    j < lookups,
                    r <= rows,
                    lookups == self@.cs.lookups.len(),
                    rows == self@.rows,
                    gate_part == self@.gate_failures(),
                    out@ == gate_part + scan(self@.lookup_check(), self@.rows, j as nat, r as nat),
                decreases rows - r,
            {
                match self.check_lookup(j, r) {
                    Some(f) => {
                        out.push(f);
                        assert(out@ =~= gate_part + scan(
                            self@.lookup_check(),
                            self@.rows,
                            j as nat,
                            (r + 1) as nat,
                        ));
                    },
                    None => {},
                }
                r = r + 1;
            }
            j = j + 1;
        }
        let ghost lookup_part = out@;
        let copies: usize = self.layouter.copies().len();
        let mut c: usize = 0;
        while c < copies
            invariant
                self.wf(),
                c <= copies,
                copies == self@.copies.len(),
                lookup_part == self@.gate_failures() + self@.lookup_failures(),
                out@ == lookup_part + scan_list(self@.copy_check(), c as nat),
            decreases copies - c,
        {
            match self.check_copy(c) {
                Some(f) => {
                    out.push(f);
                    assert(out@ =~= lookup_part + scan_list(self@.copy_check(), (c + 1) as nat));
                },
                None => {},
            }
            c = c + 1;
        }
        let ghost copy_part = out@;
        let bindings: usize = self.layouter.bindings().len();
        let mut b: usize = 0;
        while b < bindings
            invariant
                self.wf(),
                b <= bindings,
                bindings == self@.bindings.len(),
                copy_part == self@.gate_failures() + self@.lookup_failures()
                    + self@.copy_failures(),
                out@ == copy_part + scan_list(self@.binding_check(), b as nat),
            decreases bindings - b,
        {
            match self.check_binding(b) {
                Some(f) => {
                    out.push(f);
                    assert(out@ =~= copy_part + scan_list(self@.binding_check(), (b + 1) as nat));
                },
                None => {},
            }
            b = b + 1;
        }
        out
    }
}

} // verus!
