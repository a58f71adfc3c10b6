//! A backend-agnostic interface for SMT (Satisfiability-Modulo-Theories)
//! solving: sorts, terms, uninterpreted functions, and a solver session that
//! exposes the SMT-LIB command set (declare, assert, push/pop, check-sat,
//! get-value).
//!
//! The heart of the crate is the set of capability traits ([`Sort`], [`Term`],
//! [`UninterpretedFunction`], [`SMTSolver`]) whose contracts pin down the
//! protocol every backend must obey: the three-way error classification of
//! [`smt_err::SMTError`], the assertion-stack arithmetic, and the
//! model-availability gating.  The crate also ships a bundled table-based
//! backend ([`solver::SimpleSolver`]) that implements and hence realizes the
//! contracts; [`laws`] states and proves the protocol-wide laws.

use vstd::prelude::*;

pub mod laws;
pub mod numerals;
pub mod smt_err;
pub mod smt_ops;
pub mod solver;

verus! {

/// Every fallible operation returns this result type; the error carries the
/// three-way failure classification of [`smt_err::SMTError`].
pub type SMTResult<T> = Result<T, smt_err::SMTError>;

/// The outcome of a satisfiability check: satisfiable, unsatisfiable, or
/// undecided.  Incompleteness, timeout and resource exhaustion are reported
/// as `Unknown`, never as an error.
#[derive(Debug, PartialEq, Eq, Clone, Copy, Structural)]
pub enum CheckSatResult {
    Sat,
    Unsat,
    Unknown,
}

/// True when no two of the given field names are the same.
pub open spec fn distinct_names(names: Seq<Seq<char>>) -> bool {
    forall|i: int, j: int| 0 <= i < j < names.len() ==> names[i] != names[j]
}

/// The character sequences named by a slice of string slices.
pub open spec fn name_views(names: Seq<&str>) -> Seq<Seq<char>> {
    names.map_values(|n: &str| n@)
}

/// The sizes of `n` freshly pushed, still empty assertion scopes.
pub open spec fn zero_sizes(n: nat) -> Seq<nat> {
    Seq::new(n, |i: int| 0nat)
}

/// True when the (necessarily non-negative) value is representable in a
/// bitvector of the given width.
pub open spec fn bv_fits(value: i64, width: nat) -> bool {
    0 <= value && (value as nat) < vstd::arithmetic::power2::pow2(width)
}

/// An abstract data type for SMT sorts: an opaque handle with backend-assigned
/// identity.  `inv` is the handle's own well-formedness; session membership is
/// the owning session's [`SMTSolver::sort_ok`].
pub trait Sort: Clone + core::fmt::Debug + Eq + core::hash::Hash + Sized {
    /// Well-formedness of the handle itself.
    spec fn inv(&self) -> bool;

    /// The SMT-LIB name of the sort, stable within the owning session.  The
    /// only possible error is `InternalError`.
    fn to_string(&self) -> (r: SMTResult<String>)
        requires
            self.inv(),
        ensures
            r matches Err(e) ==> e is InternalError,
    ;
}

/// An abstract data type for SMT terms: opaque, clonable, with exactly one
/// sort (retrievable through [`SMTSolver::get_sort`]).
pub trait Term: Clone + core::fmt::Debug + Sized {
    /// Well-formedness of the handle itself.
    spec fn inv(&self) -> bool;

    /// The mathematical integer this term denotes when it is a constant of
    /// integer, real (and integral) or bitvector sort; `None` otherwise.
    spec fn int_value(&self) -> Option<int>;

    /// The SMT-LIB representation of the term.  The only possible error is
    /// `InternalError`.
    fn to_string(&self) -> (r: SMTResult<String>)
        requires
            self.inv(),
        ensures
            r matches Err(e) ==> e is InternalError,
    ;

    /// For a term that is a constant value representable as an `i64`, the
    /// corresponding `i64` value.  Fails with `APIError` if the term is not a
    /// constant of integer, real or bitvector sort, is a non-integral real
    /// constant, or its value does not fit in 64 bits.
    fn to_int(&self) -> (r: SMTResult<i64>)
        requires
            self.inv(),
        ensures
            r matches Ok(v) ==> self.int_value() == Some(v as int),
            self.int_value() matches Some(v) ==> ((i64::MIN <= v <= i64::MAX) ==> (r matches Ok(
                w,
            ) && w == v)),
            r matches Err(e) ==> e is APIError,
    ;
}

/// An abstract data type for uninterpreted function symbols: a named symbol
/// with fixed argument sorts and one return sort, created once by
/// [`SMTSolver::declare_fun`] and reusable across any number of applications.
pub trait UninterpretedFunction: Clone + core::fmt::Debug + Sized {
    /// Well-formedness of the handle itself.
    spec fn inv(&self) -> bool;

    /// The name of the uninterpreted function.  The only possible error is
    /// `InternalError`.
    fn to_string(&self) -> (r: SMTResult<String>)
        requires
            self.inv(),
        ensures
            r matches Err(e) ==> e is InternalError,
    ;
}

/// A `Function` is the single argument type accepted by term application: it
/// unifies built-in operators and uninterpreted functions as one "applicable"
/// concept.
pub enum Function<F: UninterpretedFunction> {
    Op(smt_ops::Op),
    UF(F),
}

/// An abstract data type for SMT solver sessions.
///
/// The session is a strictly sequential state machine over
/// `(level, last check-sat outcome)` plus the registry of declarations and
/// the scope stack of assertions.  Declarations are session-global and
/// survive `pop`; only the assertions owned by popped scopes are discarded.
/// All handles are created by and scoped to one session and must not be used
/// with another.
pub trait SMTSolver: Sized {
    type S: Sort;

    type T: Term;

    type F: UninterpretedFunction;

    /// The session invariant, established by `new` and preserved by every
    /// operation.
    spec fn inv(&self) -> bool;

    /// The net number of pushes minus pops since session creation.
    spec fn level_of(&self) -> nat;

    /// The sizes of the scopes of the assertion stack, bottom scope first:
    /// each scope owns the assertions added while it was the top scope.  The
    /// stack's length is `level_of() + 1`.
    spec fn scope_sizes(&self) -> Seq<nat>;

    /// The outcome of the most recent check-sat call, `None` before the
    /// first.
    spec fn last_check(&self) -> Option<CheckSatResult>;

    /// True of sort handles owned by this session.
    spec fn sort_ok(&self, s: Self::S) -> bool;

    /// True of term handles owned by this session.
    spec fn term_ok(&self, t: Self::T) -> bool;

    /// True of uninterpreted-function handles owned by this session.
    spec fn fun_ok(&self, f: Self::F) -> bool;

    /// The sort of a term of this session.
    spec fn sort_of(&self, t: Self::T) -> Self::S;

    /// Sort classification within this session.
    spec fn is_bool_sort(&self, s: Self::S) -> bool;

    /// True of the integer sort.
    spec fn is_int_sort(&self, s: Self::S) -> bool;

    /// True of the real sort.
    spec fn is_real_sort(&self, s: Self::S) -> bool;

    /// `Some(width)` for a bitvector sort, `None` otherwise.
    spec fn bitvec_width(&self, s: Self::S) -> Option<nat>;

    /// True of record sorts.
    spec fn is_record(&self, s: Self::S) -> bool;

    /// The number of fields of a record sort.
    spec fn record_field_count(&self, s: Self::S) -> nat;

    /// The names of the record sorts declared so far.
    spec fn record_names(&self) -> Set<Seq<char>>;

    /// The return sort of an uninterpreted function of this session.
    spec fn uf_ret_sort(&self, f: Self::F) -> Self::S;

    /// The number of arguments an uninterpreted function of this session
    /// takes.
    spec fn uf_arity(&self, f: Self::F) -> nat;

    /// Return a new session: level 0, one empty base scope, no check-sat
    /// outcome, no record sorts.
    fn new() -> (s: Self)
        ensures
            s.inv(),
            s.level_of() == 0,
            s.scope_sizes() =~= zero_sizes(1),
            s.last_check() is None,
            s.record_names() =~= Set::<Seq<char>>::empty(),
    ;

    /// Get the sort of a term.  The only possible error is `InternalError`.
    fn get_sort(&self, t: &Self::T) -> (r: SMTResult<Self::S>)
        requires
            self.inv(),
            self.term_ok(*t),
        ensures
            r matches Ok(s) ==> s == self.sort_of(*t) && self.sort_ok(s) && s.inv(),
            r matches Err(e) ==> e is InternalError,
    ;

    /// Declare a new uninterpreted sort with the given name.  The only
    /// possible error is `InternalError`.  Asking twice for the same name
    /// yields the same sort.
    fn declare_sort(&mut self, name: &str) -> (r: SMTResult<Self::S>)
        requires
            old(self).inv(),
        ensures
            final(self).inv(),
            final(self).level_of() == old(self).level_of(),
            final(self).scope_sizes() == old(self).scope_sizes(),
            final(self).last_check() == old(self).last_check(),
            final(self).record_names() == old(self).record_names(),
            r matches Ok(s) ==> final(self).sort_ok(s) && s.inv() && !final(self).is_bool_sort(s)
                && !final(self).is_int_sort(s) && !final(self).is_real_sort(s)
                && final(self).bitvec_width(s) is None && !final(self).is_record(s),
            r matches Err(e) ==> e is InternalError,
    ;

    /// Look up a built-in nullary sort.  Fails with `APIError` exactly when
    /// the requested entry is a sort constructor rather than a nullary sort.
    fn lookup_sort(&mut self, s: smt_ops::Sorts) -> (r: SMTResult<Self::S>)
        requires
            old(self).inv(),
        ensures
            final(self).inv(),
            final(self).level_of() == old(self).level_of(),
            final(self).scope_sizes() == old(self).scope_sizes(),
            final(self).last_check() == old(self).last_check(),
            final(self).record_names() == old(self).record_names(),
            r matches Ok(h) ==> s.is_nullary_spec() && final(self).sort_ok(h) && h.inv()
                && (final(self).is_bool_sort(h) <==> s is Bool)
                && (final(self).is_int_sort(h) <==> s is Int)
                && (final(self).is_real_sort(h) <==> s is Real)
                && (s matches smt_ops::Sorts::BitVec(w) ==> final(self).bitvec_width(h) == Some(
                w as nat,
            )) && !final(self).is_record(h),
            r matches Err(e) ==> e is APIError && !s.is_nullary_spec(),
            s.is_nullary_spec() ==> r is Ok,
    ;

    /// Apply a built-in sort constructor of arity 2.  Fails with `APIError`
    /// exactly when the entry is not a sort constructor of arity 2.
    fn apply_sort(&mut self, s: smt_ops::Sorts, s1: &Self::S, s2: &Self::S) -> (r: SMTResult<
        Self::S,
    >)
        requires
            old(self).inv(),
            old(self).sort_ok(*s1),
            old(self).sort_ok(*s2),
            s1.inv(),
            s2.inv(),
        ensures
            final(self).inv(),
            final(self).level_of() == old(self).level_of(),
            final(self).scope_sizes() == old(self).scope_sizes(),
            final(self).last_check() == old(self).last_check(),
            final(self).record_names() == old(self).record_names(),
            r matches Ok(h) ==> s is Array && final(self).sort_ok(h) && h.inv() && !final(self).is_record(h),
            r matches Err(e) ==> e is APIError && !(s is Array),
            s is Array ==> r is Ok,
    ;

    /// Declare a record sort with the given field names and field sorts.
    /// Fails with `APIError`, registering nothing, if the number of fields
    /// does not match the number of sorts, if the field names are not all
    /// distinct, or if a record sort of the same name was already declared.
    fn declare_record_sort(&mut self, name: &str, fields: &[&str], sorts: &[&Self::S]) -> (r:
        SMTResult<Self::S>)
        requires
            old(self).inv(),
            forall|i: int| 0 <= i < sorts.len() ==> old(self).sort_ok(*#[trigger] sorts[i]),
            forall|i: int| 0 <= i < sorts.len() ==> (#[trigger] sorts[i]).inv(),
        ensures
            final(self).inv(),
            final(self).level_of() == old(self).level_of(),
            final(self).scope_sizes() == old(self).scope_sizes(),
            final(self).last_check() == old(self).last_check(),
            r matches Ok(h) ==> fields@.len() == sorts@.len() && distinct_names(
                name_views(fields@),
            ) && !old(self).record_names().contains(name@) && final(self).record_names()
                =~= old(self).record_names().insert(name@) && final(self).sort_ok(h) && h.inv()
                && final(self).is_record(h) && final(self).record_field_count(h)
                == fields@.len(),
            r is Err ==> final(self).record_names() == old(self).record_names(),
            fields@.len() != sorts@.len() || !distinct_names(name_views(fields@)) || old(self).record_names().contains(name@) ==> (r matches Err(e) && e is APIError),
            r matches Err(e) ==> e is APIError,
    ;

    /// Return true iff the sort is a record sort.  Never fails.
    fn is_record_sort(&self, sort: &Self::S) -> (r: bool)
        requires
            self.inv(),
            self.sort_ok(*sort),
            sort.inv(),
        ensures
            r == self.is_record(*sort),
    ;

    /// Declare a new uninterpreted function with the given argument sorts and
    /// return sort.  The only possible error is `InternalError`.
    fn declare_fun(&self, name: &str, args: &[&Self::S], sort: &Self::S) -> (r: SMTResult<Self::F>)
        requires
            self.inv(),
            forall|i: int| 0 <= i < args.len() ==> self.sort_ok(*#[trigger] args[i]),
            forall|i: int| 0 <= i < args.len() ==> (#[trigger] args[i]).inv(),
            self.sort_ok(*sort),
            sort.inv(),
        ensures
            r matches Ok(f) ==> self.fun_ok(f) && f.inv() && self.uf_ret_sort(f) == *sort
                && self.uf_arity(f) == args@.len(),
            r matches Err(e) ==> e is InternalError,
    ;

    /// Declare a new constant (a variable, not a literal) with the given name
    /// and sort.  The only possible error is `InternalError`.
    fn declare_const(&self, name: &str, sort: &Self::S) -> (r: SMTResult<Self::T>)
        requires
            self.inv(),
            self.sort_ok(*sort),
            sort.inv(),
        ensures
            r matches Ok(t) ==> self.term_ok(t) && t.inv() && self.sort_of(t) == *sort
                && t.int_value() is None,
            r matches Err(e) ==> e is InternalError,
    ;

    /// Look up a built-in constant.  Fails with `APIError` exactly when the
    /// symbol is not a built-in constant.
    fn lookup_const(&self, f: smt_ops::Op) -> (r: SMTResult<Self::T>)
        requires
            self.inv(),
        ensures
            r matches Ok(t) ==> f.is_constant_spec() && self.term_ok(t) && t.inv()
                && self.is_bool_sort(self.sort_of(t)),
            r matches Err(e) ==> e is APIError && !f.is_constant_spec(),
            f.is_constant_spec() ==> r is Ok,
    ;

    /// Construct a constant from a 64-bit integer of the given sort.
    /// Supported sorts are integer, real and bitvector; for a bitvector sort
    /// the value must be non-negative and representable in the width.  Any
    /// other use is an `APIError`.
    fn const_from_int(&self, value: i64, sort: &Self::S) -> (r: SMTResult<Self::T>)
        requires
            self.inv(),
            self.sort_ok(*sort),
            sort.inv(),
        ensures
            r matches Ok(t) ==> self.term_ok(t) && t.inv() && self.sort_of(t) == *sort
                && t.int_value() == Some(value as int),
            self.is_int_sort(*sort) || self.is_real_sort(*sort) ==> r is Ok,
            self.bitvec_width(*sort) matches Some(w) ==> (r is Ok <==> bv_fits(value, w)),
            !self.is_int_sort(*sort) && !self.is_real_sort(*sort) && self.bitvec_width(*sort)
                is None ==> r is Err,
            r matches Err(e) ==> e is APIError,
    ;

    /// Construct a constant of the given sort from a numeric string: digits
    /// only, except that non-bitvector sorts may have a single leading minus
    /// and a real sort may have at most one decimal point.  Malformed input
    /// and non-numeric sorts are an `APIError`.  Whether the value of a
    /// bitvector constant fits its width is not validated here; that is
    /// backend-defined.
    fn const_from_string(&self, value: &str, sort: &Self::S) -> (r: SMTResult<Self::T>)
        requires
            self.inv(),
            self.sort_ok(*sort),
            sort.inv(),
        ensures
            r matches Ok(t) ==> self.term_ok(t) && t.inv() && self.sort_of(t) == *sort
                && t.int_value() == numerals::numeral_int_value(value@),
            self.is_int_sort(*sort) ==> (r is Ok <==> numerals::numeral_ok(value@, true, false)),
            self.is_real_sort(*sort) ==> (r is Ok <==> numerals::numeral_ok(value@, true, true)),
            self.bitvec_width(*sort) is Some ==> (r is Ok <==> numerals::numeral_ok(
                value@,
                false,
                false,
            )),
            !self.is_int_sort(*sort) && !self.is_real_sort(*sort) && self.bitvec_width(*sort)
                is None ==> r is Err,
            r matches Err(e) ==> e is APIError,
    ;

    /// Construct a record literal of the given record sort from the given
    /// field values, in declaration order.  The sort must be a record sort
    /// and the number of values must match its field count; this backend
    /// contract reports a mismatch as `APIError`.
    fn record_const(&self, record_sort: &Self::S, field_values: &[Self::T]) -> (r: SMTResult<
        Self::T,
    >)
        requires
            self.inv(),
            self.sort_ok(*record_sort),
            record_sort.inv(),
            forall|i: int| 0 <= i < field_values.len() ==> self.term_ok(
                #[trigger] field_values[i],
            ),
            forall|i: int| 0 <= i < field_values.len() ==> (#[trigger] field_values[i]).inv(),
        ensures
            r matches Ok(t) ==> self.term_ok(t) && t.inv() && self.sort_of(t) == *record_sort,
            self.is_record(*record_sort) && field_values@.len() == self.record_field_count(
                *record_sort,
            ) ==> r is Ok,
            !self.is_record(*record_sort) ==> r is Err,
            r matches Err(e) ==> e is APIError,
    ;

    /// Same as [`SMTSolver::record_const`], except that the field values are
    /// given by reference.
    fn record_const_refs(&self, record_sort: &Self::S, field_values: &[&Self::T]) -> (r: SMTResult<
        Self::T,
    >)
        requires
            self.inv(),
            self.sort_ok(*record_sort),
            record_sort.inv(),
            forall|i: int| 0 <= i < field_values.len() ==> self.term_ok(
                *#[trigger] field_values[i],
            ),
            forall|i: int| 0 <= i < field_values.len() ==> (#[trigger] field_values[i]).inv(),
        ensures
            r matches Ok(t) ==> self.term_ok(t) && t.inv() && self.sort_of(t) == *record_sort,
            self.is_record(*record_sort) && field_values@.len() == self.record_field_count(
                *record_sort,
            ) ==> r is Ok,
            !self.is_record(*record_sort) ==> r is Err,
            r matches Err(e) ==> e is APIError,
    ;

    /// Apply a built-in operator or an uninterpreted function to argument
    /// terms.  An uninterpreted-function application with matching arity
    /// always succeeds and has the function's return sort.  A built-in
    /// operator the backend does not implement is an `UnsupportedError`;
    /// argument arity or sort mismatches are backend-defined.
    fn apply_fun(&self, f: &Function<Self::F>, args: &[Self::T]) -> (r: SMTResult<Self::T>)
        requires
            self.inv(),
            *f matches Function::UF(g) ==> self.fun_ok(g) && g.inv(),
            forall|i: int| 0 <= i < args.len() ==> self.term_ok(#[trigger] args[i]),
            forall|i: int| 0 <= i < args.len() ==> (#[trigger] args[i]).inv(),
        ensures
            r matches Ok(t) ==> self.term_ok(t) && t.inv(),
            *f matches Function::UF(g) ==> (r matches Ok(t) ==> self.sort_of(t)
                == self.uf_ret_sort(g)) && (args@.len() == self.uf_arity(g) ==> r is Ok),
            *f matches Function::Op(op) ==> (r matches Ok(t) ==> (op.is_predicate_spec()
                ==> self.is_bool_sort(self.sort_of(t)))),
    ;

    /// Same as [`SMTSolver::apply_fun`], except that the arguments are given
    /// by reference.
    fn apply_fun_refs(&self, f: &Function<Self::F>, args: &[&Self::T]) -> (r: SMTResult<Self::T>)
        requires
            self.inv(),
            *f matches Function::UF(g) ==> self.fun_ok(g) && g.inv(),
            forall|i: int| 0 <= i < args.len() ==> self.term_ok(*#[trigger] args[i]),
            forall|i: int| 0 <= i < args.len() ==> (#[trigger] args[i]).inv(),
        ensures
            r matches Ok(t) ==> self.term_ok(t) && t.inv(),
            *f matches Function::UF(g) ==> (r matches Ok(t) ==> self.sort_of(t)
                == self.uf_ret_sort(g)) && (args@.len() == self.uf_arity(g) ==> r is Ok),
            *f matches Function::Op(op) ==> (r matches Ok(t) ==> (op.is_predicate_spec()
                ==> self.is_bool_sort(self.sort_of(t)))),
    ;

    /// The current level of the solver: initially 0, increased by `push`,
    /// decreased by `pop`.
    fn level(&self) -> (r: u32)
        requires
            self.inv(),
        ensures
            r as nat == self.level_of(),
    ;

    /// Push `n` new nested scopes.  On success the level rises by exactly
    /// `n`; on failure (`InternalError` only) the session is unchanged.
    fn push(&mut self, n: u32) -> (r: SMTResult<bool>)
        requires
            old(self).inv(),
        ensures
            final(self).inv(),
            final(self).last_check() == old(self).last_check(),
            final(self).record_names() == old(self).record_names(),
            r matches Ok(b) ==> b && final(self).level_of() == old(self).level_of() + n as nat
                && final(self).scope_sizes() =~= old(self).scope_sizes() + zero_sizes(n as nat),
            r matches Err(e) ==> e is InternalError && final(self).level_of() == old(self).level_of() && final(self).scope_sizes() == old(self).scope_sizes(),
    ;

    /// Discard the `n` topmost scopes and the assertions they own, leaving
    /// surviving scopes intact.  If `n` exceeds the current level, nothing is
    /// mutated and the result is an `APIError`.  Declarations survive a pop.
    fn pop(&mut self, n: u32) -> (r: SMTResult<bool>)
        requires
            old(self).inv(),
        ensures
            final(self).inv(),
            final(self).last_check() == old(self).last_check(),
            final(self).record_names() == old(self).record_names(),
            n as nat > old(self).level_of() ==> (r matches Err(e) && e is APIError && final(self).level_of() == old(self).level_of() && final(self).scope_sizes() == old(self).scope_sizes()),
            n as nat <= old(self).level_of() ==> (r matches Ok(b) && b && final(self).level_of()
                == old(self).level_of() - n as nat && final(self).scope_sizes() =~= old(self).scope_sizes().take(old(self).scope_sizes().len() - n as nat)) || (r matches Err(e)
                && e is InternalError && final(self).level_of() == old(self).level_of() && final(self).scope_sizes() == old(self).scope_sizes()),
    ;

    /// Add an assertion to the current (topmost) scope.  The term's sort must
    /// be Boolean; this backend contract reports any other sort as
    /// `APIError`.  Satisfiability is not checked here.
    fn assert_term(&mut self, t: &Self::T) -> (r: SMTResult<bool>)
        requires
            old(self).inv(),
            old(self).term_ok(*t),
            t.inv(),
        ensures
            final(self).inv(),
            final(self).level_of() == old(self).level_of(),
            final(self).last_check() == old(self).last_check(),
            final(self).record_names() == old(self).record_names(),
            old(self).is_bool_sort(old(self).sort_of(*t)) ==> (r matches Ok(b) && b && final(self).scope_sizes() =~= old(self).scope_sizes().update(
                old(self).scope_sizes().len() - 1,
                old(self).scope_sizes().last() + 1,
            )) || (r matches Err(e) && e is InternalError && final(self).scope_sizes() == old(self).scope_sizes()),
            !old(self).is_bool_sort(old(self).sort_of(*t)) ==> (r matches Err(e)
                && e is APIError && final(self).scope_sizes() == old(self).scope_sizes()),
    ;

    /// Check the satisfiability of all assertions in all live scopes.  Never
    /// returns an error: an undecided question is `Unknown`.  The outcome is
    /// recorded as the most recent check-sat outcome.
    fn check_sat(&mut self) -> (r: CheckSatResult)
        requires
            old(self).inv(),
        ensures
            final(self).inv(),
            final(self).level_of() == old(self).level_of(),
            final(self).scope_sizes() == old(self).scope_sizes(),
            final(self).record_names() == old(self).record_names(),
            final(self).last_check() == Some(r),
    ;

    /// Query the model for a concrete constant value of the given term.
    /// Valid only when the most recent check-sat call returned `Sat`;
    /// otherwise an `APIError`.  On success the returned term is a constant
    /// of the same sort as the queried term.
    fn get_value(&mut self, t: &Self::T) -> (r: SMTResult<Self::T>)
        requires
            old(self).inv(),
            old(self).term_ok(*t),
            t.inv(),
        ensures
            final(self).inv(),
            final(self).level_of() == old(self).level_of(),
            final(self).scope_sizes() == old(self).scope_sizes(),
            final(self).last_check() == old(self).last_check(),
            final(self).record_names() == old(self).record_names(),
            old(self).last_check() != Some(CheckSatResult::Sat) ==> (r matches Err(e)
                && e is APIError),
            r matches Ok(v) ==> final(self).term_ok(v) && v.inv() && final(self).sort_of(v)
                == final(self).sort_of(*t),
    ;
}

/// Create a fresh session of the bundled backend, ready for declarations and
/// assertions.
pub fn new_z3_solver() -> (s: solver::SimpleSolver)
    ensures
        s.wf(),
        s.depth() == 0,
        s.last_result() is None,
        s.sizes() =~= zero_sizes(1),
        s.scopes@.len() == 1,
        s.scopes@[0]@.len() == 0,
        s.record_names() =~= Set::<Seq<char>>::empty(),
        s.sorts@.len() == 3,
{
    solver::SimpleSolver::new()
}

} // verus!
