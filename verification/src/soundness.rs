//! What it means for a witness to meet its constraints, and how that is
//! kept while a circuit is synthesized and shown when it is verified.

use crate::column::{Cell, Column, Selector};
use crate::expression::Expression;
use crate::field::Fe;
use crate::layouter::{AssignedCell, Layout, Step};
use crate::mock_prover::{
    lemma_scan_contains, lemma_scan_empty, lemma_scan_list_contains, lemma_scan_list_empty,
    VerificationFailure,
};
use vstd::prelude::*;

verus! {

impl Layout {
    /// Every gate reads assigned cells and vanishes on every row at which its
    /// selector is on.
    pub open spec fn gates_hold(self) -> bool {
        forall|i: int, r: int|
            0 <= i < self.cs.gates.len() && #[trigger] self.flags.contains(
                (self.cs.gates[i].selector, r),
            ) ==> self.cs.gates[i].poly.defined(self.cells, r) && self.cs.gates[i].poly.eval(
                self.cells,
                r,
            ) == 0
    }

    /// The input of every lookup argument reads assigned cells and is in the
    /// table on every row at which its selector is on.
    pub open spec fn lookups_hold(self) -> bool {
        forall|i: int, r: int|
            0 <= i < self.cs.lookups.len() && #[trigger] self.flags.contains(
                (self.cs.lookups[i].selector, r),
            ) ==> self.cs.lookups[i].input.defined(self.cells, r) && self.table_has(
                self.cs.lookups[i].table,
                self.cs.lookups[i].input.eval(self.cells, r),
            )
    }

    /// The two cells of every copy constraint hold the same value.
    pub open spec fn copies_hold(self) -> bool {
        forall|i: int|
            0 <= i < self.copies.len() ==> self.cells[(#[trigger] self.copies[i]).0]
                == self.cells[self.copies[i].1]
    }

    /// The witness meets every gate, lookup argument and copy constraint.
    pub open spec fn sound(self) -> bool {
        self.gates_hold() && self.lookups_hold() && self.copies_hold()
    }

    /// Every cell bound to an instance cell holds the value of that cell.
    pub open spec fn bindings_hold(self) -> bool {
        forall|i: int|
            0 <= i < self.bindings.len() ==> self.cells[(#[trigger] self.bindings[i]).0]
                == self.cells[self.bindings[i].1]
    }

    /// A later layout of the same system that keeps every assigned value,
    /// every flag, every copy constraint and every binding.
    pub open spec fn extends(self, later: Layout) -> bool {
        &&& later.cs == self.cs
        &&& later.rows == self.rows
        &&& self.cells.submap_of(later.cells)
        &&& self.flags.subset_of(later.flags)
        &&& self.copies.is_prefix_of(later.copies)
        &&& self.bindings.is_prefix_of(later.bindings)
    }

    /// A later layout holds what an earlier one held.
    pub proof fn lemma_holds_later(self, later: Layout, a: AssignedCell)
        requires
            self.extends(later),
            self.holds(a),
        ensures
            later.holds(a),
            self.copyable(a) ==> later.copyable(a),
            later.cells[a.cell] == self.cells[a.cell],
    {
        assert(self.cells.dom().contains(a.cell));
        assert(later.cells.dom().contains(a.cell));
    }

    /// `extends` is transitive.
    pub proof fn lemma_extends_transitive(self, middle: Layout, later: Layout)
        requires
            self.extends(middle),
            middle.extends(later),
        ensures
            self.extends(later),
    {
        assert forall|k: Cell| #[trigger] self.cells.dom().contains(k) implies later.cells.dom().contains(
            k,
        ) && self.cells[k] == later.cells[k] by {
            assert(middle.cells.dom().contains(k));
            assert(later.cells.dom().contains(k));
        }
    }

    /// A table keeps its values when further cells are assigned.
    pub proof fn lemma_table_grows(self, later: Layout, table: Column, v: nat)
        requires
            self.table_has(table, v),
            self.rows == later.rows,
            self.cells.submap_of(later.cells),
        ensures
            later.table_has(table, v),
    {
        let t = choose|t: int|
            0 <= t < self.rows && #[trigger] self.cells.contains_key(
                Cell { column: table, row: t as usize },
            ) && self.cells[Cell { column: table, row: t as usize }].value() == v;
        assert(self.cells.dom().contains(Cell { column: table, row: t as usize }));
        assert(later.cells.dom().contains(Cell { column: table, row: t as usize }));
    }

    /// A witness that meets its constraints still does so after further
    /// cells were assigned, flags set and copy constraints recorded, if the
    /// constraints that the new flags switch on are met and the new copy
    /// constraints hold.
    pub proof fn lemma_sound_extends(self, later: Layout)
        requires
            self.wf(),
            self.sound(),
            self.extends(later),
            forall|i: int, r: int|
                0 <= i < later.cs.gates.len() && #[trigger] later.flags.contains(
                    (later.cs.gates[i].selector, r),
                ) && !self.flags.contains((later.cs.gates[i].selector, r))
                    ==> later.cs.gates[i].poly.defined(later.cells, r)
                    && later.cs.gates[i].poly.eval(later.cells, r) == 0,
            forall|i: int, r: int|
                0 <= i < later.cs.lookups.len() && #[trigger] later.flags.contains(
                    (later.cs.lookups[i].selector, r),
                ) && !self.flags.contains((later.cs.lookups[i].selector, r))
                    ==> later.cs.lookups[i].input.defined(later.cells, r) && later.table_has(
                    later.cs.lookups[i].table,
                    later.cs.lookups[i].input.eval(later.cells, r),
                ),
            forall|i: int|
                self.copies.len() <= i < later.copies.len() ==> later.cells[(
                #[trigger] later.copies[i]).0] == later.cells[later.copies[i].1],
        ensures
            later.sound(),
    {
        assert forall|i: int, r: int|
            0 <= i < later.cs.gates.len() && #[trigger] later.flags.contains(
                (later.cs.gates[i].selector, r),
            ) implies later.cs.gates[i].poly.defined(later.cells, r)
            && later.cs.gates[i].poly.eval(later.cells, r) == 0 by {
            if self.flags.contains((self.cs.gates[i].selector, r)) {
                self.cs.gates[i].poly.lemma_eval_stable(self.cells, later.cells, r);
            }
        }
        assert forall|i: int, r: int|
            0 <= i < later.cs.lookups.len() && #[trigger] later.flags.contains(
                (later.cs.lookups[i].selector, r),
            ) implies later.cs.lookups[i].input.defined(later.cells, r) && later.table_has(
            later.cs.lookups[i].table,
            later.cs.lookups[i].input.eval(later.cells, r),
        ) by {
            if self.flags.contains((self.cs.lookups[i].selector, r)) {
                let l = self.cs.lookups[i];
                l.input.lemma_eval_stable(self.cells, later.cells, r);
                self.lemma_table_grows(later, l.table, l.input.eval(self.cells, r));
            }
        }
        assert forall|i: int| 0 <= i < later.copies.len() implies later.cells[(
        #[trigger] later.copies[i]).0] == later.cells[later.copies[i].1] by {
            if i < self.copies.len() {
                let pair = self.copies[i];
                assert(later.copies[i] == pair);
                assert(self.cells.contains_key(pair.0) && self.cells.contains_key(pair.1));
                assert(self.cells.dom().contains(pair.0));
                assert(self.cells.dom().contains(pair.1));
                assert(later.cells.dom().contains(pair.0));
                assert(later.cells.dom().contains(pair.1));
            }
        }
    }

    /// An operation led from this layout to a later one: it kept what was
    /// there, used `rows` rows below the frontier, added no binding, and the
    /// later layout holds its result.
    pub open spec fn advanced(self, later: Layout, out: AssignedCell, rows: nat) -> bool {
        &&& self.extends(later)
        &&& later.holds(out)
        &&& later.frontier() == self.frontier() + rows
        &&& later.bindings == self.bindings
    }

    /// A binding led from this layout to a later one, and nothing else
    /// changed.
    pub open spec fn bound(self, later: Layout, cell: Cell, public: Cell) -> bool {
        &&& self.extends(later)
        &&& later.bindings == self.bindings.push((cell, public))
        &&& later.cells == self.cells
        &&& later.flags == self.flags
        &&& later.copies == self.copies
        &&& later.frontier() == self.frontier()
    }

    /// A witness that meets its constraints still does so after an
    /// operation that switched one selector on at one row, if every gate
    /// that the selector guards is `poly`, the selector guards no lookup
    /// argument, `poly` vanishes on that row and the new copy constraints
    /// hold.
    pub proof fn lemma_sound_one_gate(self, later: Layout, s: Selector, row: int, poly: Expression)
        requires
            self.wf(),
            self.sound(),
            self.extends(later),
            later.flags == self.flags.insert((s, row)),
            forall|i: int|
                0 <= i < self.cs.gates.len() && (#[trigger] self.cs.gates[i]).selector == s
                    ==> self.cs.gates[i].poly == poly,
            forall|i: int|
                0 <= i < self.cs.lookups.len() ==> (#[trigger] self.cs.lookups[i]).selector != s,
            poly.defined(later.cells, row),
            poly.eval(later.cells, row) == 0,
            forall|i: int|
                self.copies.len() <= i < later.copies.len() ==> later.cells[(
                #[trigger] later.copies[i]).0] == later.cells[later.copies[i].1],
        ensures
            later.sound(),
    {
        assert forall|i: int, r: int|
            0 <= i < later.cs.gates.len() && #[trigger] later.flags.contains(
                (later.cs.gates[i].selector, r),
            ) && !self.flags.contains(
                (later.cs.gates[i].selector, r),
            ) implies later.cs.gates[i].poly.defined(later.cells, r)
            && later.cs.gates[i].poly.eval(later.cells, r) == 0 by {
            assert(later.cs.gates[i].selector == s && r == row);
            assert(self.cs.gates[i].poly == poly);
        }
        assert forall|i: int, r: int|
            0 <= i < later.cs.lookups.len() && #[trigger] later.flags.contains(
                (later.cs.lookups[i].selector, r),
            ) && !self.flags.contains(
                (later.cs.lookups[i].selector, r),
            ) implies later.cs.lookups[i].input.defined(later.cells, r) && later.table_has(
            later.cs.lookups[i].table,
            later.cs.lookups[i].input.eval(later.cells, r),
        ) by {
            assert(self.cs.lookups[i].selector != s);
        }
        self.lemma_sound_extends(later);
    }

    /// A witness that meets its constraints still does so after any step
    /// but switching a selector on or overwriting a cell: assigning, copying
    /// and binding cannot break what held before.
    pub proof fn lemma_step_keeps_sound(self, s: Step)
        requires
            self.wf(),
            self.sound(),
            !(s is Enable),
            !(s is Overwrite),
        ensures
            self.extends(self.step(s).0),
            self.step(s).0.sound(),
    {
        reveal(Layout::step);
        let later = self.step(s).0;
        assert(self.extends(later));
        self.lemma_sound_extends(later);
    }

    /// A witness that meets its constraints is complete.
    pub proof fn lemma_sound_complete(self)
        requires
            self.sound(),
        ensures
            self.complete(),
    {
    }

    /// Of a witness that meets its gates, lookup arguments and copy
    /// constraints, verification reports the bindings that fail and nothing
    /// else; it succeeds exactly if every binding holds.
    pub proof fn lemma_sound_failures(self)
        requires
            self.sound(),
        ensures
            self.failures() == self.binding_failures(),
            self.verdict() is Ok <==> self.bindings_hold(),
    {
        lemma_scan_empty(self.gate_check(), self.rows, self.cs.gates.len(), 0);
        lemma_scan_empty(self.lookup_check(), self.rows, self.cs.lookups.len(), 0);
        lemma_scan_list_empty(self.copy_check(), self.copies.len());
        lemma_scan_list_empty(self.binding_check(), self.bindings.len());
        assert(self.gate_failures().len() == 0);
        assert(self.lookup_failures().len() == 0);
        assert(self.copy_failures().len() == 0) by {
            assert forall|a: int| 0 <= a < self.copies.len() implies #[trigger] (self.copy_check())(
                a,
            ) is None by {
                assert(self.cells[self.copies[a].0] == self.cells[self.copies[a].1]);
            }
        }
        assert(self.failures() =~= self.binding_failures());
        if self.bindings_hold() {
            assert forall|a: int| 0 <= a < self.bindings.len() implies #[trigger] (
            self.binding_check())(a) is None by {
                assert(self.cells[self.bindings[a].0] == self.cells[self.bindings[a].1]);
            }
        }
        if self.binding_failures().len() == 0 {
            assert forall|i: int| 0 <= i < self.bindings.len() implies self.cells[(
            #[trigger] self.bindings[i]).0] == self.cells[self.bindings[i].1] by {
                assert((self.binding_check())(i) is None);
            }
        }
    }

    /// Verification of a complete witness succeeds exactly if the witness
    /// meets every gate, lookup argument and copy constraint and every
    /// binding holds.
    pub proof fn lemma_verdict(self)
        requires
            self.wf(),
            self.complete(),
        ensures
            self.verdict() is Ok <==> self.sound() && self.bindings_hold(),
            self.failures().len() == 0 <==> self.sound() && self.bindings_hold(),
    {
        lemma_scan_empty(self.gate_check(), self.rows, self.cs.gates.len(), 0);
        lemma_scan_empty(self.lookup_check(), self.rows, self.cs.lookups.len(), 0);
        lemma_scan_list_empty(self.copy_check(), self.copies.len());
        lemma_scan_list_empty(self.binding_check(), self.bindings.len());
        if self.sound() && self.bindings_hold() {
            self.lemma_sound_failures();
        }
        if self.failures().len() == 0 {
            assert(self.gate_failures().len() == 0);
            assert(self.lookup_failures().len() == 0);
            assert(self.copy_failures().len() == 0);
            assert(self.binding_failures().len() == 0);
            assert forall|i: int, r: int|
                0 <= i < self.cs.gates.len() && #[trigger] self.flags.contains(
                    (self.cs.gates[i].selector, r),
                ) implies self.cs.gates[i].poly.defined(self.cells, r)
                && self.cs.gates[i].poly.eval(self.cells, r) == 0 by {
                assert((self.gate_check())(i, r) is None);
            }
            assert forall|i: int, r: int|
                0 <= i < self.cs.lookups.len() && #[trigger] self.flags.contains(
                    (self.cs.lookups[i].selector, r),
                ) implies self.cs.lookups[i].input.defined(self.cells, r) && self.table_has(
                self.cs.lookups[i].table,
                self.cs.lookups[i].input.eval(self.cells, r),
            ) by {
                assert((self.lookup_check())(i, r) is None);
            }
            assert forall|i: int| 0 <= i < self.copies.len() implies self.cells[(
            #[trigger] self.copies[i]).0] == self.cells[self.copies[i].1] by {
                assert((self.copy_check())(i) is None);
            }
            assert forall|i: int| 0 <= i < self.bindings.len() implies self.cells[(
            #[trigger] self.bindings[i]).0] == self.cells[self.bindings[i].1] by {
                assert((self.binding_check())(i) is None);
            }
        }
    }

    /// A gate that does not vanish on a row at which its selector is on is
    /// reported, with its index and the row.
    pub proof fn lemma_gate_violation_reported(self, i: int, r: int)
        requires
            0 <= i < self.cs.gates.len(),
            0 <= r < self.rows,
            self.flags.contains((self.cs.gates[i].selector, r)),
            self.cs.gates[i].poly.eval(self.cells, r) != 0,
        ensures
            self.failures().contains(
                VerificationFailure::GateViolation {
                    gate_index: i as usize,
                    gate_name: self.cs.gates[i].name,
                    row: r as usize,
                    value: Fe::of(self.cs.gates[i].poly.eval(self.cells, r)),
                },
            ),
            self.verdict() is Err,
    {
        lemma_scan_contains(
            self.gate_check(),
            self.rows,
            self.cs.gates.len(),
            i as nat,
            r as nat,
        );
        let f = self.gate_failure(i, r).unwrap();
        let k = choose|k: int| 0 <= k < self.gate_failures().len() && self.gate_failures()[k] == f;
        assert(self.failures()[k] == f);
    }

    /// A lookup argument whose input is not in the table on a row at which
    /// its selector is on is reported, with its index and the row.
    pub proof fn lemma_lookup_miss_reported(self, i: int, r: int)
        requires
            0 <= i < self.cs.lookups.len(),
            0 <= r < self.rows,
            self.flags.contains((self.cs.lookups[i].selector, r)),
            !self.table_has(
                self.cs.lookups[i].table,
                self.cs.lookups[i].input.eval(self.cells, r),
            ),
        ensures
            self.failures().contains(
                VerificationFailure::LookupMiss {
                    lookup_index: i as usize,
                    lookup_name: self.cs.lookups[i].name,
                    row: r as usize,
                    value: Fe::of(self.cs.lookups[i].input.eval(self.cells, r)),
                },
            ),
            self.verdict() is Err,
    {
        lemma_scan_contains(
            self.lookup_check(),
            self.rows,
            self.cs.lookups.len(),
            i as nat,
            r as nat,
        );
        let f = self.lookup_failure(i, r).unwrap();
        let k = choose|k: int|
            0 <= k < self.lookup_failures().len() && self.lookup_failures()[k] == f;
        assert(self.failures()[self.gate_failures().len() + k] == f);
    }

    /// A copy constraint whose two cells hold different values is reported
    /// as a mismatch of those two cells.
    pub proof fn lemma_copy_mismatch_reported(self, i: int)
        requires
            0 <= i < self.copies.len(),
            self.cells[self.copies[i].0] != self.cells[self.copies[i].1],
        ensures
            self.failures().contains(
                VerificationFailure::CopyMismatch {
                    cell_a: self.copies[i].0,
                    cell_b: self.copies[i].1,
                },
            ),
            self.verdict() is Err,
    {
        lemma_scan_list_contains(self.copy_check(), self.copies.len(), i as nat);
        let f = self.copy_failure(i).unwrap();
        let k = choose|k: int| 0 <= k < self.copy_failures().len() && self.copy_failures()[k] == f;
        assert(self.failures()[self.gate_failures().len() + self.lookup_failures().len() + k]
            == f);
    }

    /// A binding whose cell holds another value than the instance cell is
    /// reported as an instance mismatch, with both values.
    pub proof fn lemma_instance_mismatch_reported(self, i: int)
        requires
            0 <= i < self.bindings.len(),
            self.cells[self.bindings[i].0] != self.cells[self.bindings[i].1],
        ensures
            self.failures().contains(
                VerificationFailure::InstanceMismatch {
                    column: self.bindings[i].1.column.index,
                    row: self.bindings[i].1.row,
                    expected: self.cells[self.bindings[i].1],
                    actual: self.cells[self.bindings[i].0],
                },
            ),
            self.verdict() is Err,
    {
        lemma_scan_list_contains(self.binding_check(), self.bindings.len(), i as nat);
        let f = self.binding_failure(i).unwrap();
        let k = choose|k: int|
            0 <= k < self.binding_failures().len() && self.binding_failures()[k] == f;
        assert(self.failures()[self.gate_failures().len() + self.lookup_failures().len()
            + self.copy_failures().len() + k] == f);
    }

    /// Where one cell of a copy constraint is overwritten with another value
    /// than the other cell holds, verification reports a mismatch of the two
    /// cells.
    pub proof fn lemma_overwrite_breaks_copy(self, i: int, first: bool, value: Fe)
        requires
            self.wf(),
            0 <= i < self.copies.len(),
            self.copies[i].0 != self.copies[i].1,
            first ==> value != self.cells[self.copies[i].1],
            !first ==> value != self.cells[self.copies[i].0],
        ensures
            ({
                let target = if first {
                    self.copies[i].0
                } else {
                    self.copies[i].1
                };
                let (later, error) = self.step(Step::Overwrite(target, value));
                &&& error is None
                &&& later.failures().contains(
                    VerificationFailure::CopyMismatch {
                        cell_a: self.copies[i].0,
                        cell_b: self.copies[i].1,
                    },
                )
                &&& later.verdict() is Err
            }),
    {
        reveal(Layout::step);
        let target = if first {
            self.copies[i].0
        } else {
            self.copies[i].1
        };
        assert(self.cells.contains_key(self.copies[i].0));
        let later = self.step(Step::Overwrite(target, value)).0;
        later.lemma_copy_mismatch_reported(i);
    }

    /// Verification depends on the witness alone: whatever two runs on one
    /// witness report, they report the same failures in the same order, and
    /// the same verdict.
    pub proof fn lemma_verification_repeatable(
        self,
        first: Seq<VerificationFailure>,
        second: Seq<VerificationFailure>,
        first_verdict: Result<(), VerificationFailure>,
        second_verdict: Result<(), VerificationFailure>,
    )
        requires
            first == self.failures(),
            second == self.failures(),
            first_verdict == self.verdict(),
            second_verdict == self.verdict(),
        ensures
            first == second,
            first_verdict == second_verdict,
            first_verdict is Ok <==> first.len() == 0,
            first_verdict matches Err(f) ==> f == first[0],
    {
    }
}

} // verus!
