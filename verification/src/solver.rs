//! The bundled backend: a table-based solver session that implements the
//! capability traits of the crate root.
//!
//! Sorts live in a session-owned table; a sort handle is the index of its
//! entry together with its SMT-LIB rendering.  Terms are self-contained
//! trees.  The decision procedure is deliberately small: it decides
//! conjunctions of integer bounds on variables and the boolean constants,
//! and reports anything beyond that as `Unknown`.

use vstd::prelude::*;
use vstd::string::StringExecFns;

use crate::numerals;
use crate::smt_err;
use crate::smt_ops::Op;
use crate::smt_ops::Sorts;
use crate::CheckSatResult;
use crate::SMTResult;

verus! {

/// What a sort-table entry is; constructor arguments and record field sorts
/// are indices of earlier entries in the same table.
pub enum SortKind {
    Bool,
    Int,
    Real,
    BitVec(u32),
    Array(usize, usize),
    Uninterp(String),
    Record(String, Vec<String>, Vec<usize>),
}

/// A sort-table entry: its structure and its SMT-LIB rendering.
pub struct SortEntry {
    pub kind: SortKind,
    pub text: String,
}

/// A sort handle of the bundled backend: the index of the sort's table entry
/// in its owning session, plus the sort's SMT-LIB rendering.  Handles are
/// created by the session; two handles denote the same sort exactly when
/// their indices agree.
#[derive(Debug, PartialEq, Eq, Hash)]
pub struct SimpleSort {
    pub id: usize,
    pub text: String,
}

impl Clone for SimpleSort {
    fn clone(&self) -> (r: Self)
        ensures
            r == *self,
    {
        SimpleSort { id: self.id, text: self.text.clone() }
    }
}

/// The structure of a term of the bundled backend.
#[derive(Debug)]
pub enum TermNode {
    /// A declared constant (a variable), by name.
    Var(String),
    /// An integer literal whose value fits in an `i64`.
    IntConst(i64),
    /// A numeric literal kept as written: its value is out of `i64` range or
    /// it carries a decimal point.
    StrConst(String),
    /// An application of a built-in operator.
    App(Op, Vec<SimpleTerm>),
    /// An application of an uninterpreted function, by name.
    UFApp(String, Vec<SimpleTerm>),
    /// A record literal, by record-sort name.
    RecordLit(String, Vec<SimpleTerm>),
}

/// A term handle of the bundled backend: a self-contained tree carrying its
/// sort and its SMT-LIB rendering.
#[derive(Debug)]
pub struct SimpleTerm {
    pub sort: SimpleSort,
    pub node: TermNode,
    pub text: String,
}

/// True of a term that is an application of the built-in false constant.
pub open spec fn is_false_const(t: SimpleTerm) -> bool {
    match t.node {
        TermNode::App(op, _) => op is False,
        _ => false,
    }
}

/// True when some scope of the stack holds an asserted false constant.
pub open spec fn has_false(scopes: Seq<Vec<SimpleTerm>>) -> bool {
    exists|si: int, ai: int|
        0 <= si < scopes.len() && 0 <= ai < scopes[si]@.len() && is_false_const(
            #[trigger] scopes[si]@[ai],
        )
}

/// True when an asserted false constant stands strictly before position
/// `(si, ai)` of the stack, scanning scopes in order.
pub open spec fn has_false_before(scopes: Seq<Vec<SimpleTerm>>, si: int, ai: int) -> bool {
    exists|x: int, y: int|
        0 <= x < scopes.len() && 0 <= y < scopes[x]@.len() && (x < si || (x == si && y < ai))
            && is_false_const(#[trigger] scopes[x]@[y])
}

proof fn lemma_has_false_before_step(scopes: Seq<Vec<SimpleTerm>>, si: int, ai: int)
    requires
        0 <= si < scopes.len(),
        0 < ai <= scopes[si]@.len(),
    ensures
        has_false_before(scopes, si, ai) <==> (has_false_before(scopes, si, ai - 1)
            || is_false_const(scopes[si]@[ai - 1])),
{
    if has_false_before(scopes, si, ai) {
        let (x, y) = choose|x: int, y: int|
            0 <= x < scopes.len() && 0 <= y < scopes[x]@.len() && (x < si || (x == si && y < ai))
                && is_false_const(#[trigger] scopes[x]@[y]);
        if !(x < si || (x == si && y < ai - 1)) {
            assert(x == si && y == ai - 1);
        }
    }
}

proof fn lemma_has_false_before_scope_step(scopes: Seq<Vec<SimpleTerm>>, si: int)
    requires
        0 < si <= scopes.len(),
    ensures
        has_false_before(scopes, si, 0) <==> has_false_before(
            scopes,
            si - 1,
            scopes[si - 1]@.len() as int,
        ),
{
    if has_false_before(scopes, si, 0) {
        let (x, y) = choose|x: int, y: int|
            0 <= x < scopes.len() && 0 <= y < scopes[x]@.len() && (x < si || (x == si && y < 0))
                && is_false_const(#[trigger] scopes[x]@[y]);
        assert(x < si - 1 || (x == si - 1 && y < scopes[si - 1]@.len()));
    }
}

proof fn lemma_has_false_before_all(scopes: Seq<Vec<SimpleTerm>>)
    ensures
        has_false_before(scopes, scopes.len() as int, 0) <==> has_false(scopes),
{
    if has_false_before(scopes, scopes.len() as int, 0) {
        let (x, y) = choose|x: int, y: int|
            0 <= x < scopes.len() && 0 <= y < scopes[x]@.len() && (x < scopes.len() || (x
                == scopes.len() && y < 0)) && is_false_const(#[trigger] scopes[x]@[y]);
        assert(has_false(scopes));
    }
    if has_false(scopes) {
        let (x, y) = choose|x: int, y: int|
            0 <= x < scopes.len() && 0 <= y < scopes[x]@.len() && is_false_const(
                #[trigger] scopes[x]@[y],
            );
        assert(has_false_before(scopes, scopes.len() as int, 0));
    }
}

/// The attributes of a term that its contracts speak of: term copies are not
/// provably identical trees, but they agree on all of these.
pub open spec fn similar_term(a: SimpleTerm, b: SimpleTerm) -> bool {
    a.sort == b.sort && a.value_int() == b.value_int() && a.tinv() == b.tinv() && (is_false_const(
        a,
    ) <==> is_false_const(b))
}

/// Copy a term tree.
fn clone_term(t: &SimpleTerm) -> (r: SimpleTerm)
    ensures
        similar_term(r, *t),
    decreases *t,
{
    let sort = t.sort.clone();
    let text = t.text.clone();
    let node = match &t.node {
        TermNode::Var(n) => TermNode::Var(n.clone()),
        TermNode::IntConst(v) => TermNode::IntConst(*v),
        TermNode::StrConst(s) => TermNode::StrConst(s.clone()),
        TermNode::App(op, args) => TermNode::App(op.clone(), clone_term_vec(args)),
        TermNode::UFApp(n, args) => TermNode::UFApp(n.clone(), clone_term_vec(args)),
        TermNode::RecordLit(n, args) => TermNode::RecordLit(n.clone(), clone_term_vec(args)),
    };
    SimpleTerm { sort, node, text }
}

/// Copy a sequence of term trees.
fn clone_term_vec(v: &Vec<SimpleTerm>) -> Vec<SimpleTerm>
    decreases *v,
{
    broadcast use vstd::std_specs::vec::axiom_vec_index_decreases;

    let mut out: Vec<SimpleTerm> = Vec::new();
    let mut i: usize = 0;
    while i < v.len()
        invariant
            i <= v@.len(),
        decreases v@.len() - i,
    {
        out.push(clone_term(&v[i]));
        i = i + 1;
    }
    out
}

impl Clone for SimpleTerm {
    fn clone(&self) -> (r: Self)
        ensures
            similar_term(r, *self),
    {
        clone_term(self)
    }
}

impl SimpleTerm {
    /// The intrinsic well-formedness of a term: a literal kept as a string
    /// is exactly one whose value cannot be an `i64`.
    pub open spec fn tinv(&self) -> bool {
        match self.node {
            TermNode::StrConst(s) => match numerals::numeral_int_value(s@) {
                Some(v) => !(i64::MIN <= v <= i64::MAX),
                None => true,
            },
            _ => true,
        }
    }

    /// The mathematical integer the term denotes when it is an integral
    /// numeric literal; `None` otherwise.
    pub open spec fn value_int(&self) -> Option<int> {
        match self.node {
            TermNode::IntConst(v) => Some(v as int),
            TermNode::StrConst(s) => numerals::numeral_int_value(s@),
            _ => None,
        }
    }
}

/// An uninterpreted-function handle of the bundled backend: its name, its
/// argument sorts and its return sort.
#[derive(Debug, Clone)]
pub struct SimpleFun {
    pub name: String,
    pub args: Vec<SimpleSort>,
    pub ret: SimpleSort,
}

/// One variable's integer bounds, collected by the decision procedure.
struct VarBounds {
    name: String,
    lo: Option<i64>,
    hi: Option<i64>,
}

/// Well-formedness of one sort-table entry: constructor arguments and field
/// sorts point at entries of the table, a record has as many field sorts as
/// field names, and the three base sorts appear only at their reserved
/// indices.
pub open spec fn entry_ok(sorts: Seq<SortEntry>, i: int) -> bool {
    match sorts[i].kind {
        SortKind::Bool => i == 0,
        SortKind::Int => i == 1,
        SortKind::Real => i == 2,
        SortKind::BitVec(_) => true,
        SortKind::Array(d, r) => d < sorts.len() && r < sorts.len(),
        SortKind::Uninterp(_) => true,
        SortKind::Record(_, fields, fsorts) => fields@.len() == fsorts@.len() && forall|k: int|
            0 <= k < fsorts@.len() ==> (#[trigger] fsorts@[k]) < sorts.len(),
    }
}

/// The solver session of the bundled backend.
///
/// It owns the sort table, the scope stack of assertions, the outcome of the
/// most recent check-sat call, and the model produced by the most recent
/// satisfiable check.  Declarations are session-global and survive `pop`;
/// only assertions are scope-local.
pub struct SimpleSolver {
    pub sorts: Vec<SortEntry>,
    pub scopes: Vec<Vec<SimpleTerm>>,
    pub last: Option<CheckSatResult>,
    pub model: Vec<(String, i64)>,
}

impl SimpleSolver {
    /// The session invariant.
    pub open spec fn wf(&self) -> bool {
        &&& self.scopes@.len() >= 1
    &&& self.scopes@.len() <= u32::MAX + 1
    &&& self.sorts@.len() >= 3
    &&& self.sorts@[0].kind is Bool
    &&& self.sorts@[1].kind is Int
    &&& self.sorts@[2].kind is Real
    &&& self.sorts@[0].text@ == "Bool"@
    &&& self.sorts@[1].text@ == "Int"@
    &&& self.sorts@[2].text@ == "Real"@
    &&& forall|i: int| 0 <= i < self.sorts@.len() ==> entry_ok(self.sorts@, i)
    }

    /// The current level: the net number of pushes minus pops.
    pub open spec fn depth(&self) -> nat {
        (self.scopes@.len() - 1) as nat
    }

    /// The sizes of the scopes of the assertion stack, bottom first.
    pub open spec fn sizes(&self) -> Seq<nat> {
        self.scopes@.map_values(|v: Vec<SimpleTerm>| v@.len())
    }

    /// The outcome of the most recent check-sat call.
    pub open spec fn last_result(&self) -> Option<CheckSatResult> {
        self.last
    }

    /// True of sort handles owned by this session.
    pub open spec fn sort_ok(&self, s: SimpleSort) -> bool {
        s.id < self.sorts@.len() && s.text@ == self.sorts@[s.id as int].text@
    }

    /// True of term handles owned by this session.
    pub open spec fn term_ok(&self, t: SimpleTerm) -> bool {
        self.sort_ok(t.sort)
    }

    /// True of uninterpreted-function handles owned by this session.
    pub open spec fn fun_ok(&self, f: SimpleFun) -> bool {
        self.sort_ok(f.ret) && forall|i: int|
            0 <= i < f.args@.len() ==> self.sort_ok(#[trigger] f.args@[i])
    }

    /// The sort of a term.
    pub open spec fn sort_of(&self, t: SimpleTerm) -> SimpleSort {
        t.sort
    }

    /// True of the boolean sort's handles.
    pub open spec fn is_bool_sort(&self, s: SimpleSort) -> bool {
        self.sort_ok(s) && self.sorts@[s.id as int].kind is Bool
    }

    /// True of the integer sort's handles.
    pub open spec fn is_int_sort(&self, s: SimpleSort) -> bool {
        self.sort_ok(s) && self.sorts@[s.id as int].kind is Int
    }

    /// True of the real sort's handles.
    pub open spec fn is_real_sort(&self, s: SimpleSort) -> bool {
        self.sort_ok(s) && self.sorts@[s.id as int].kind is Real
    }

    /// The width of a bitvector sort, `None` for any other sort.
    pub open spec fn bitvec_width(&self, s: SimpleSort) -> Option<nat> {
        if self.sort_ok(s) {
            match self.sorts@[s.id as int].kind {
                SortKind::BitVec(w) => Some(w as nat),
                _ => None,
            }
        } else {
            None
        }
    }

    /// True of record sorts' handles.
    pub open spec fn is_record(&self, s: SimpleSort) -> bool {
        self.sort_ok(s) && self.sorts@[s.id as int].kind is Record
    }

    /// The number of fields of a record sort.
    pub open spec fn record_field_count(&self, s: SimpleSort) -> nat {
        match self.sorts@[s.id as int].kind {
            SortKind::Record(_, fields, _) => fields@.len(),
            _ => 0,
        }
    }

    /// The names of the record sorts declared so far.
    pub open spec fn record_names(&self) -> Set<Seq<char>> {
        Set::new(
            |n: Seq<char>|
                exists|i: int|
                    0 <= i < self.sorts@.len() && match (#[trigger] self.sorts@[i]).kind {
                        SortKind::Record(rn, _, _) => rn@ == n,
                        _ => false,
                    },
        )
    }

    /// True when the sort is a record sort with a field of the given name.
    pub open spec fn record_has_field(&self, s: SimpleSort, f: Seq<char>) -> bool {
        match self.sorts@[s.id as int].kind {
            SortKind::Record(_, fns, _) => exists|k: int|
                0 <= k < fns@.len() && (#[trigger] fns@[k])@ == f,
            _ => false,
        }
    }

    /// The return sort of an uninterpreted function.
    pub open spec fn uf_ret_sort(&self, f: SimpleFun) -> SimpleSort {
        f.ret
    }

    /// The number of arguments an uninterpreted function takes.
    pub open spec fn uf_arity(&self, f: SimpleFun) -> nat {
        f.args@.len()
    }

    /// A fresh session: level 0, one empty scope, the three base sorts, no
    /// check-sat outcome yet.
    pub fn new() -> (s: Self)
        ensures
            s.wf(),
            s.depth() == 0,
            s.sizes() =~= crate::zero_sizes(1),
            s.last_result() is None,
            s.record_names() =~= Set::<Seq<char>>::empty(),
            s.sorts@.len() == 3,
            s.scopes@.len() == 1,
            s.scopes@[0]@.len() == 0,
    {
        let mut sorts: Vec<SortEntry> = Vec::new();
        sorts.push(SortEntry { kind: SortKind::Bool, text: "Bool".to_owned() });
        sorts.push(SortEntry { kind: SortKind::Int, text: "Int".to_owned() });
        sorts.push(SortEntry { kind: SortKind::Real, text: "Real".to_owned() });
        let mut scopes: Vec<Vec<SimpleTerm>> = Vec::new();
        scopes.push(Vec::new());
        let s = SimpleSolver { sorts, scopes, last: None, model: Vec::new() };
        proof {
            assert(s.sizes() =~= crate::zero_sizes(1));
            assert forall|n: Seq<char>| !s.record_names().contains(n) by {
                assert(forall|i: int|
                    0 <= i < s.sorts@.len() ==> !((#[trigger] s.sorts@[i]).kind is Record));
            }
            assert(s.record_names() =~= Set::<Seq<char>>::empty());
        }
        s
    }

    /// The current level of the solver: initially 0, increased by push,
    /// decreased by pop.
    pub fn level(&self) -> (r: u32)
        requires
            self.wf(),
        ensures
            r as nat == self.depth(),
    {
        (self.scopes.len() - 1) as u32
    }

    /// Push `n` new nested scopes.  Fails (with `InternalError`, mutating
    /// nothing) exactly when the new level would overflow the level counter.
    pub fn push(&mut self, n: u32) -> (r: SMTResult<bool>)
        requires
            old(self).wf(),
        ensures
            final(self).wf(),
            final(self).sorts == old(self).sorts,
            final(self).last_result() == old(self).last_result(),
            r matches Ok(b) ==> b && final(self).depth() == old(self).depth() + n as nat && final(self).sizes() =~= old(self).sizes() + crate::zero_sizes(n as nat) && final(self).scopes@.len() == old(self).scopes@.len() + n as nat && (forall|idx: int|
                0 <= idx < old(self).scopes@.len() ==> final(self).scopes@[idx] == old(self).scopes@[idx]) && (forall|idx: int|
                old(self).scopes@.len() <= idx < final(self).scopes@.len() ==> (#[trigger] final(self).scopes@[idx])@.len() == 0),
            r matches Err(e) ==> e is InternalError && *final(self) == *old(self),
            r is Err <==> old(self).depth() + n as nat > u32::MAX,
    {
        let lvl = self.level();
        if n > u32::MAX - lvl {
            return Err(smt_err::internal_error("push would overflow the level counter"));
        }
        let mut i: u32 = 0;
        while i < n
            invariant
                i <= n,
                self.sorts == old(self).sorts,
                self.last == old(self).last,
                self.model == old(self).model,
                self.wf(),
                old(self).wf(),
                old(self).depth() + n <= u32::MAX,
                self.scopes@.len() == old(self).scopes@.len() + i as nat,
                forall|idx: int|
                    0 <= idx < old(self).scopes@.len() ==> self.scopes@[idx] == old(self).scopes@[idx],
                forall|idx: int|
                    old(self).scopes@.len() <= idx < self.scopes@.len() ==> (
                    #[trigger] self.scopes@[idx])@.len() == 0,
            decreases n - i,
        {
            self.scopes.push(Vec::new());
            i = i + 1;
        }
        proof {
            assert forall|idx: int| 0 <= idx < self.sizes().len() implies #[trigger] self.sizes()[idx]
                == (old(self).sizes() + crate::zero_sizes(n as nat))[idx] by {
                if idx < old(self).scopes@.len() {
                    assert(self.scopes@[idx] == old(self).scopes@[idx]);
                } else {
                    assert(self.scopes@[idx]@.len() == 0);
                }
            }
            assert(self.sizes() =~= old(self).sizes() + crate::zero_sizes(n as nat));
        }
        Ok(true)
    }

    /// Discard the `n` topmost scopes and the assertions they own.  If `n`
    /// exceeds the current level, nothing is mutated and the result is an
    /// `APIError`.  Declarations survive a pop.
    pub fn pop(&mut self, n: u32) -> (r: SMTResult<bool>)
        requires
            old(self).wf(),
        ensures
            final(self).wf(),
            final(self).sorts == old(self).sorts,
            final(self).last_result() == old(self).last_result(),
            n as nat > old(self).depth() ==> (r matches Err(e) && e is APIError && *final(self)
                == *old(self)),
            n as nat <= old(self).depth() ==> (r matches Ok(b) && b && final(self).depth()
                == old(self).depth() - n as nat && final(self).sizes() =~= old(self).sizes().take(
                old(self).sizes().len() - n as nat,
            ) && final(self).scopes@ =~= old(self).scopes@.take(
                old(self).scopes@.len() - n as nat,
            )),
    {
        let lvl = self.level();
        if n > lvl {
            return Err(smt_err::api_error("pop exceeds the current level"));
        }
        let mut i: u32 = 0;
        while i < n
            invariant
                i <= n,
                n as nat <= old(self).depth(),
                self.sorts == old(self).sorts,
                self.last == old(self).last,
                self.model == old(self).model,
                self.wf(),
                old(self).wf(),
                self.scopes@ =~= old(self).scopes@.take(old(self).scopes@.len() - i as nat),
            decreases n - i,
        {
            let _discarded = self.scopes.pop();
            i = i + 1;
            proof {
                assert(self.scopes@ =~= old(self).scopes@.take(
                    old(self).scopes@.len() - i as nat,
                ));
            }
        }
        proof {
            assert forall|idx: int| 0 <= idx < self.sizes().len() implies #[trigger] self.sizes()[idx]
                == old(self).sizes().take(old(self).sizes().len() - n as nat)[idx] by {
                assert(self.scopes@[idx] == old(self).scopes@[idx]);
            }
            assert(self.sizes() =~= old(self).sizes().take(old(self).sizes().len() - n as nat));
        }
        Ok(true)
    }

    /// Add an assertion to the current (topmost) scope.  The term's sort
    /// must be Boolean; any other sort is an `APIError` and mutates nothing.
    pub fn assert_term(&mut self, t: &SimpleTerm) -> (r: SMTResult<bool>)
        requires
            old(self).wf(),
            old(self).term_ok(*t),
            t.tinv(),
        ensures
            final(self).wf(),
            final(self).sorts == old(self).sorts,
            final(self).depth() == old(self).depth(),
            final(self).last_result() == old(self).last_result(),
            old(self).is_bool_sort(old(self).sort_of(*t)) ==> (r matches Ok(b) && b && final(self).sizes() =~= old(self).sizes().update(
                old(self).sizes().len() - 1,
                old(self).sizes().last() + 1,
            )),
            old(self).is_bool_sort(old(self).sort_of(*t)) ==> final(self).scopes@.len() == old(self).scopes@.len(),
            old(self).is_bool_sort(old(self).sort_of(*t)) ==> (forall|idx: int|
                0 <= idx < old(self).scopes@.len() - 1 ==> final(self).scopes@[idx] == old(self).scopes@[idx]),
            old(self).is_bool_sort(old(self).sort_of(*t)) ==> final(self).scopes@.last()@.len()
                == old(self).scopes@.last()@.len() + 1,
            old(self).is_bool_sort(old(self).sort_of(*t)) ==> final(self).scopes@.last()@.drop_last() =~= old(self).scopes@.last()@,
            old(self).is_bool_sort(old(self).sort_of(*t)) ==> similar_term(
                final(self).scopes@.last()@.last(),
                *t,
            ),
            old(self).is_bool_sort(old(self).sort_of(*t)) ==> (has_false(final(self).scopes@)
                <==> has_false(old(self).scopes@) || is_false_const(*t)),
            !old(self).is_bool_sort(old(self).sort_of(*t)) ==> (r matches Err(e)
                && e is APIError && *final(self) == *old(self)),
    {
        if t.sort.id != 0 {
            proof {
                assert(entry_ok(old(self).sorts@, t.sort.id as int));
            }
            return Err(smt_err::api_error("asserted term is not of Boolean sort"));
        }
        let mut top = self.scopes.pop().unwrap();
        top.push(t.clone());
        self.scopes.push(top);
        proof {
            let target = old(self).sizes().update(
                old(self).sizes().len() - 1,
                old(self).sizes().last() + 1,
            );
            assert forall|idx: int| 0 <= idx < self.sizes().len() implies #[trigger] self.sizes()[idx]
                == target[idx] by {
                if idx < self.scopes@.len() - 1 {
                    assert(self.scopes@[idx] == old(self).scopes@[idx]);
                }
            }
            assert(self.sizes() =~= target);
            let pre = old(self).scopes@;
            let post = self.scopes@;
            let c = post.last()@.last();
            assert(post.last()@.drop_last() =~= pre.last()@);
            assert(post.len() == pre.len());
            assert(post.last()@.len() == pre.last()@.len() + 1);
            assert(similar_term(c, *t));
            assert forall|y: int| 0 <= y < pre.last()@.len() implies post.last()@[y]
                == pre.last()@[y] by {
                assert(post.last()@.drop_last()[y] == post.last()@[y]);
            }
            if has_false(post) {
                let (si, ai) = choose|si: int, ai: int|
                    0 <= si < post.len() && 0 <= ai < post[si]@.len() && is_false_const(
                        #[trigger] post[si]@[ai],
                    );
                if si < post.len() - 1 {
                    assert(post[si] == pre[si]);
                    assert(has_false(pre));
                } else if ai < pre.last()@.len() {
                    assert(post[si]@[ai] == pre[pre.len() - 1]@[ai]);
                    assert(has_false(pre));
                } else {
                    assert(post[si]@[ai] == c);
                    assert(is_false_const(*t));
                }
            }
            if has_false(pre) {
                let (si, ai) = choose|si: int, ai: int|
                    0 <= si < pre.len() && 0 <= ai < pre[si]@.len() && is_false_const(
                        #[trigger] pre[si]@[ai],
                    );
                if si < pre.len() - 1 {
                    assert(post[si]@[ai] == pre[si]@[ai]);
                } else {
                    assert(post[post.len() - 1]@[ai] == pre[si]@[ai]);
                }
                assert(has_false(post));
            }
            if is_false_const(*t) {
                assert(is_false_const(post[post.len() - 1]@[post.last()@.len() - 1]));
                assert(has_false(post));
            }
        }
        Ok(true)
    }

    /// Build the handle of the sort-table entry at `id`.
    fn sort_handle(&self, id: usize) -> (r: SimpleSort)
        requires
            self.wf(),
            id < self.sorts@.len(),
        ensures
            r.id == id,
            self.sort_ok(r),
    {
        SimpleSort { id, text: self.sorts[id].text.clone() }
    }

    /// Get the sort of a term.  Never fails in this backend.
    pub fn get_sort(&self, t: &SimpleTerm) -> (r: SMTResult<SimpleSort>)
        requires
            self.wf(),
            self.term_ok(*t),
        ensures
            r matches Ok(s) ==> s == self.sort_of(*t) && self.sort_ok(s),
            r is Ok,
    {
        Ok(t.sort.clone())
    }

    /// Declare a new uninterpreted sort with the given name; asking twice
    /// for the same name yields the same sort.  Never fails in this backend.
    pub fn declare_sort(&mut self, name: &str) -> (r: SMTResult<SimpleSort>)
        requires
            old(self).wf(),
        ensures
            final(self).wf(),
            final(self).depth() == old(self).depth(),
            final(self).sizes() == old(self).sizes(),
            final(self).last_result() == old(self).last_result(),
            final(self).record_names() == old(self).record_names(),
            final(self).sorts@.len() >= old(self).sorts@.len(),
            forall|idx: int|
                0 <= idx < old(self).sorts@.len() ==> final(self).sorts@[idx] == old(self).sorts@[idx],
            forall|hs: SimpleSort| old(self).sort_ok(hs) ==> final(self).sort_ok(hs),
            r matches Ok(h) ==> final(self).sort_ok(h) && !final(self).is_bool_sort(h) && !final(self).is_int_sort(h) && !final(self).is_real_sort(h) && final(self).bitvec_width(h)
                is None && !final(self).is_record(h),
            r matches Ok(h) ==> h.id as int == (match find_uninterp(old(self).sorts@, name@, 0) {
                Some(i) => i,
                None => old(self).sorts@.len() as int,
            }),
            find_uninterp(old(self).sorts@, name@, 0) is Some ==> final(self).sorts@ == old(self).sorts@,
            find_uninterp(old(self).sorts@, name@, 0) is None ==> final(self).sorts@.len() == old(self).sorts@.len() + 1 && (final(self).sorts@.last().kind matches SortKind::Uninterp(nm)
                && nm@ == name@) && (forall|idx: int|
                0 <= idx < old(self).sorts@.len() ==> final(self).sorts@[idx] == old(self).sorts@[idx]),
            r is Ok,
    {
        let ghost sorts0 = self.sorts@;
        let name_s = name.to_owned();
        let mut k: usize = 0;
        while k < self.sorts.len()
            invariant
                *self == *old(self),
                self.wf(),
                sorts0 == self.sorts@,
                k <= self.sorts@.len(),
                name_s@ == name@,
                find_uninterp(sorts0, name@, 0) == find_uninterp(sorts0, name@, k as int),
            decreases self.sorts@.len() - k,
        {
            let hit = match &self.sorts[k].kind {
                SortKind::Uninterp(n) => *n == name_s,
                _ => false,
            };
            if hit {
                return Ok(self.sort_handle(k));
            }
            k = k + 1;
        }
        let entry = SortEntry { kind: SortKind::Uninterp(name_s), text: name.to_owned() };
        self.sorts.push(entry);
        proof {
            lemma_entries_still_ok(old(self).sorts@, self.sorts@);
            lemma_records_preserved(*old(self), *self);
        }
        let id = self.sorts.len() - 1;
        Ok(self.sort_handle(id))
    }

    /// Look up a built-in nullary sort.  Fails with `APIError` exactly when
    /// the entry is the `Array` constructor.
    pub fn lookup_sort(&mut self, s: Sorts) -> (r: SMTResult<SimpleSort>)
        requires
            old(self).wf(),
        ensures
            final(self).wf(),
            final(self).depth() == old(self).depth(),
            final(self).sizes() == old(self).sizes(),
            final(self).last_result() == old(self).last_result(),
            final(self).record_names() == old(self).record_names(),
            r matches Ok(h) ==> s.is_nullary_spec() && final(self).sort_ok(h) && (final(self).is_bool_sort(h) <==> s is Bool) && (final(self).is_int_sort(h) <==> s is Int) && (
            final(self).is_real_sort(h) <==> s is Real) && (s matches Sorts::BitVec(w) ==> final(self).bitvec_width(h) == Some(w as nat)) && !final(self).is_record(h),
            r matches Err(e) ==> e is APIError && !s.is_nullary_spec(),
            s.is_nullary_spec() ==> r is Ok,
            s is Bool ==> (r matches Ok(h) && h.id == 0 && h.text@ == "Bool"@),
            s is Int ==> (r matches Ok(h) && h.id == 1 && h.text@ == "Int"@),
            s is Real ==> (r matches Ok(h) && h.id == 2 && h.text@ == "Real"@),
            final(self).sorts@.len() >= old(self).sorts@.len(),
            forall|idx: int|
                0 <= idx < old(self).sorts@.len() ==> final(self).sorts@[idx] == old(self).sorts@[idx],
            forall|hs: SimpleSort| old(self).sort_ok(hs) ==> final(self).sort_ok(hs),
    {
        match s {
            Sorts::Bool => Ok(self.sort_handle(0)),
            Sorts::Int => Ok(self.sort_handle(1)),
            Sorts::Real => Ok(self.sort_handle(2)),
            Sorts::BitVec(w) => {
                let mut k: usize = 0;
                while k < self.sorts.len()
                    invariant
                        *self == *old(self),
                        self.wf(),
                        k <= self.sorts@.len(),
                        s == Sorts::BitVec(w),
                    decreases self.sorts@.len() - k,
                {
                    let hit = match &self.sorts[k].kind {
                        SortKind::BitVec(w2) => *w2 == w,
                        _ => false,
                    };
                    if hit {
                        proof {
                            assert(entry_ok(self.sorts@, k as int));
                        }
                        return Ok(self.sort_handle(k));
                    }
                    k = k + 1;
                }
                let mut text = "(_ BitVec ".to_owned();
                text.append(nat_to_text(w as u64).as_str());
                text.append(")");
                self.sorts.push(SortEntry { kind: SortKind::BitVec(w), text });
                proof {
                    lemma_entries_still_ok(old(self).sorts@, self.sorts@);
                    lemma_records_preserved(*old(self), *self);
                }
                let id = self.sorts.len() - 1;
                Ok(self.sort_handle(id))
            },
            Sorts::Array => Err(
                smt_err::api_error("Array is a sort constructor, not a nullary sort"),
            ),
        }
    }

    /// Apply a built-in sort constructor of arity 2.  Fails with `APIError`
    /// exactly when the entry is not the `Array` constructor.
    pub fn apply_sort(&mut self, s: Sorts, s1: &SimpleSort, s2: &SimpleSort) -> (r: SMTResult<
        SimpleSort,
    >)
        requires
            old(self).wf(),
            old(self).sort_ok(*s1),
            old(self).sort_ok(*s2),
        ensures
            final(self).wf(),
            final(self).depth() == old(self).depth(),
            final(self).sizes() == old(self).sizes(),
            final(self).last_result() == old(self).last_result(),
            final(self).record_names() == old(self).record_names(),
            r matches Ok(h) ==> s is Array && final(self).sort_ok(h) && !final(self).is_record(h),
            r matches Ok(h) ==> (final(self).sorts@[h.id as int].kind matches SortKind::Array(
                d,
                rg,
            ) && d == s1.id && rg == s2.id),
            r matches Err(e) ==> e is APIError && !(s is Array),
            s is Array ==> r is Ok,
            final(self).sorts@.len() >= old(self).sorts@.len(),
            forall|idx: int|
                0 <= idx < old(self).sorts@.len() ==> final(self).sorts@[idx] == old(self).sorts@[idx],
            forall|hs: SimpleSort| old(self).sort_ok(hs) ==> final(self).sort_ok(hs),
    {
        match s {
            Sorts::Array => {
                let mut k: usize = 0;
                while k < self.sorts.len()
                    invariant
                        *self == *old(self),
                        self.wf(),
                        k <= self.sorts@.len(),
                        s is Array,
                        old(self).sort_ok(*s1),
                        old(self).sort_ok(*s2),
                    decreases self.sorts@.len() - k,
                {
                    let hit = match &self.sorts[k].kind {
                        SortKind::Array(d, rng) => *d == s1.id && *rng == s2.id,
                        _ => false,
                    };
                    if hit {
                        proof {
                            assert(entry_ok(self.sorts@, k as int));
                        }
                        return Ok(self.sort_handle(k));
                    }
                    k = k + 1;
                }
                let mut text = "(Array ".to_owned();
                text.append(s1.text.as_str());
                text.append(" ");
                text.append(s2.text.as_str());
                text.append(")");
                self.sorts.push(SortEntry { kind: SortKind::Array(s1.id, s2.id), text });
                proof {
                    lemma_entries_still_ok(old(self).sorts@, self.sorts@);
                    lemma_records_preserved(*old(self), *self);
                }
                let id = self.sorts.len() - 1;
                Ok(self.sort_handle(id))
            },
            _ => Err(smt_err::api_error("not a sort constructor of arity 2")),
        }
    }

    /// Return true iff the sort is a record sort.  Never fails.
    pub fn is_record_sort(&self, sort: &SimpleSort) -> (r: bool)
        requires
            self.wf(),
            self.sort_ok(*sort),
        ensures
            r == self.is_record(*sort),
    {
        matches!(self.sorts[sort.id].kind, SortKind::Record(..))
    }

    /// Declare a record sort with the given field names and field sorts.
    /// Fails with `APIError`, registering nothing, on a field/sort count
    /// mismatch, duplicate field names, or a name collision with an earlier
    /// record sort.
    pub fn declare_record_sort(
        &mut self,
        name: &str,
        fields: &[&str],
        field_sorts: &[&SimpleSort],
    ) -> (r: SMTResult<SimpleSort>)
        requires
            old(self).wf(),
            forall|i: int| 0 <= i < field_sorts.len() ==> old(self).sort_ok(*#[trigger] field_sorts[i]),
        ensures
            final(self).wf(),
            final(self).depth() == old(self).depth(),
            final(self).sizes() == old(self).sizes(),
            final(self).last_result() == old(self).last_result(),
            r matches Ok(h) ==> fields@.len() == field_sorts@.len() && crate::distinct_names(
                crate::name_views(fields@),
            ) && !old(self).record_names().contains(name@) && final(self).record_names() =~= old(self).record_names().insert(name@) && final(self).sort_ok(h) && final(self).is_record(h)
                && final(self).record_field_count(h) == fields@.len(),
            r is Err ==> final(self).record_names() == old(self).record_names() && final(self).sorts@ == old(self).sorts@,
            r is Ok ==> final(self).sorts@.len() == old(self).sorts@.len() + 1 && (forall|idx: int|
                0 <= idx < old(self).sorts@.len() ==> final(self).sorts@[idx] == old(self).sorts@[idx]),
            forall|hs: SimpleSort| old(self).sort_ok(hs) ==> final(self).sort_ok(hs),
            r matches Ok(h) ==> (final(self).sorts@[h.id as int].kind matches SortKind::Record(
                rn,
                fns,
                fss,
            ) && rn@ == name@ && fns@.len() == fields@.len() && (forall|k: int|
                0 <= k < fields@.len() ==> (#[trigger] fns@[k])@ == fields@[k]@) && fss@.len()
                == field_sorts@.len() && (forall|k: int|
                0 <= k < field_sorts@.len() ==> (#[trigger] fss@[k]) == field_sorts@[k].id)),
            fields@.len() != field_sorts@.len() || !crate::distinct_names(
                crate::name_views(fields@),
            ) || old(self).record_names().contains(name@) ==> (r matches Err(e) && e is APIError),
            r matches Err(e) ==> e is APIError,
            fields@.len() == field_sorts@.len() && crate::distinct_names(
                crate::name_views(fields@),
            ) && !old(self).record_names().contains(name@) ==> r is Ok,
    {
        if fields.len() != field_sorts.len() {
            return Err(smt_err::api_error("field and sort counts differ"));
        }
        let mut names_v: Vec<String> = Vec::new();
        let mut i: usize = 0;
        while i < fields.len()
            invariant
                *self == *old(self),
                old(self).wf(),
                i <= fields@.len(),
                names_v@.len() == i,
                forall|k: int| 0 <= k < i ==> (#[trigger] names_v@[k])@ == fields@[k]@,
            decreases fields@.len() - i,
        {
            names_v.push(fields[i].to_owned());
            i = i + 1;
        }
        let mut a: usize = 0;
        while a < names_v.len()
            invariant
                *self == *old(self),
                old(self).wf(),
                a <= names_v@.len(),
                names_v@.len() == fields@.len(),
                forall|k: int| 0 <= k < names_v@.len() ==> (#[trigger] names_v@[k])@ == fields@[k]@,
                forall|x: int, y: int|
                    0 <= x < y < fields@.len() && x < a ==> fields@[x]@ != fields@[y]@,
            decreases names_v@.len() - a,
        {
            let mut bj = a + 1;
            while bj < names_v.len()
                invariant
                    *self == *old(self),
                    old(self).wf(),
                    a < bj <= names_v@.len() || (a + 1 == bj && bj >= names_v@.len()),
                    a < names_v@.len(),
                    names_v@.len() == fields@.len(),
                    forall|k: int|
                        0 <= k < names_v@.len() ==> (#[trigger] names_v@[k])@ == fields@[k]@,
                    forall|y: int| a < y < bj ==> fields@[a as int]@ != fields@[y]@,
                decreases names_v@.len() - bj,
            {
                if names_v[a] == names_v[bj] {
                    proof {
                        assert(crate::name_views(fields@)[a as int] == fields@[a as int]@);
                        assert(crate::name_views(fields@)[bj as int] == fields@[bj as int]@);
                        assert(!crate::distinct_names(crate::name_views(fields@)));
                    }
                    return Err(smt_err::api_error("duplicate record field names"));
                }
                bj = bj + 1;
            }
            a = a + 1;
        }
        proof {
            assert forall|x: int, y: int|
                0 <= x < y < crate::name_views(fields@).len() implies crate::name_views(
                fields@,
            )[x] != crate::name_views(fields@)[y] by {
                assert(fields@[x]@ != fields@[y]@);
            }
        }
        let name_s = name.to_owned();
        let mut k: usize = 0;
        while k < self.sorts.len()
            invariant
                *self == *old(self),
                self.wf(),
                k <= self.sorts@.len(),
                name_s@ == name@,
                forall|j: int|
                    0 <= j < k ==> match (#[trigger] self.sorts@[j]).kind {
                        SortKind::Record(rn, _, _) => rn@ != name@,
                        _ => true,
                    },
            decreases self.sorts@.len() - k,
        {
            let hit = match &self.sorts[k].kind {
                SortKind::Record(rn, _, _) => *rn == name_s,
                _ => false,
            };
            if hit {
                proof {
                    assert(old(self).record_names().contains(name@));
                }
                return Err(smt_err::api_error("a record sort of this name already exists"));
            }
            k = k + 1;
        }
        proof {
            assert(!old(self).record_names().contains(name@));
        }
        let mut fsorts: Vec<usize> = Vec::new();
        let mut i2: usize = 0;
        while i2 < field_sorts.len()
            invariant
                *self == *old(self),
                self.wf(),
                i2 <= field_sorts@.len(),
                fsorts@.len() == i2,
                forall|j: int| 0 <= j < field_sorts.len() ==> old(self).sort_ok(
                    *#[trigger] field_sorts[j],
                ),
                forall|j: int| 0 <= j < i2 ==> (#[trigger] fsorts@[j]) < self.sorts@.len(),
                forall|j: int| 0 <= j < i2 ==> (#[trigger] fsorts@[j]) == field_sorts@[j].id,
            decreases field_sorts@.len() - i2,
        {
            fsorts.push(field_sorts[i2].id);
            i2 = i2 + 1;
        }
        let entry = SortEntry {
            kind: SortKind::Record(name_s, names_v, fsorts),
            text: name.to_owned(),
        };
        self.sorts.push(entry);
        proof {
            lemma_entries_still_ok(old(self).sorts@, self.sorts@);
            let pre = *old(self);
            let post = *self;
            assert(match post.sorts@[pre.sorts@.len() as int].kind {
                SortKind::Record(rn, _, _) => rn@ == name@,
                _ => false,
            });
            assert forall|n: Seq<char>|
                post.record_names().contains(n) <==> pre.record_names().insert(name@).contains(
                    n,
                ) by {
                if post.record_names().contains(n) {
                    let j = choose|j: int|
                        0 <= j < post.sorts@.len() && match (#[trigger] post.sorts@[j]).kind {
                            SortKind::Record(rn, _, _) => rn@ == n,
                            _ => false,
                        };
                    if j < pre.sorts@.len() {
                        assert(pre.record_names().contains(n));
                    } else {
                        assert(n == name@);
                    }
                }
                if pre.record_names().contains(n) {
                    let j = choose|j: int|
                        0 <= j < pre.sorts@.len() && match (#[trigger] pre.sorts@[j]).kind {
                            SortKind::Record(rn, _, _) => rn@ == n,
                            _ => false,
                        };
                    assert(post.sorts@[j] == pre.sorts@[j]);
                    assert(post.record_names().contains(n));
                }
                if n == name@ {
                    assert(post.sorts@.len() == pre.sorts@.len() + 1);
                    assert(match post.sorts@[pre.sorts@.len() as int].kind {
                        SortKind::Record(rn, _, _) => rn@ == n,
                        _ => false,
                    });
                    assert(post.record_names().contains(n));
                }
            }
            assert(post.record_names() =~= pre.record_names().insert(name@));
        }
        let id = self.sorts.len() - 1;
        Ok(self.sort_handle(id))
    }

    /// Declare a new uninterpreted function with the given argument sorts
    /// and return sort.  Never fails in this backend.
    pub fn declare_fun(&self, name: &str, args: &[&SimpleSort], sort: &SimpleSort) -> (r:
        SMTResult<SimpleFun>)
        requires
            self.wf(),
            forall|i: int| 0 <= i < args.len() ==> self.sort_ok(*#[trigger] args[i]),
            self.sort_ok(*sort),
        ensures
            r matches Ok(f) ==> self.fun_ok(f) && self.uf_ret_sort(f) == *sort && self.uf_arity(f)
                == args@.len(),
            r is Ok,
    {
        let mut argv: Vec<SimpleSort> = Vec::new();
        let mut i: usize = 0;
        while i < args.len()
            invariant
                self.wf(),
                i <= args@.len(),
                argv@.len() == i,
                forall|j: int| 0 <= j < args.len() ==> self.sort_ok(*#[trigger] args[j]),
                forall|j: int| 0 <= j < i ==> self.sort_ok(#[trigger] argv@[j]),
            decreases args@.len() - i,
        {
            argv.push(args[i].clone());
            i = i + 1;
        }
        Ok(SimpleFun { name: name.to_owned(), args: argv, ret: sort.clone() })
    }

    /// Declare a new constant (a variable, not a literal) with the given
    /// name and sort.  Never fails in this backend.
    pub fn declare_const(&self, name: &str, sort: &SimpleSort) -> (r: SMTResult<SimpleTerm>)
        requires
            self.wf(),
            self.sort_ok(*sort),
        ensures
            r matches Ok(t) ==> self.term_ok(t) && t.tinv() && self.sort_of(t) == *sort
                && t.value_int() is None,
            r is Ok,
    {
        Ok(
            SimpleTerm {
                sort: sort.clone(),
                node: TermNode::Var(name.to_owned()),
                text: name.to_owned(),
            },
        )
    }

    /// Look up a built-in constant.  Fails with `APIError` exactly when the
    /// symbol is not a built-in constant.
    pub fn lookup_const(&self, f: Op) -> (r: SMTResult<SimpleTerm>)
        requires
            self.wf(),
        ensures
            r matches Ok(t) ==> f.is_constant_spec() && self.term_ok(t) && t.tinv()
                && self.is_bool_sort(self.sort_of(t)) && t.value_int() is None,
            r matches Ok(t) ==> (t.node matches TermNode::App(op, a) && op == f && a@.len() == 0),
            r matches Err(e) ==> e is APIError && !f.is_constant_spec(),
            f.is_constant_spec() ==> r is Ok,
    {
        match f {
            Op::True => Ok(
                SimpleTerm {
                    sort: self.sort_handle(0),
                    node: TermNode::App(Op::True, Vec::new()),
                    text: "true".to_owned(),
                },
            ),
            Op::False => Ok(
                SimpleTerm {
                    sort: self.sort_handle(0),
                    node: TermNode::App(Op::False, Vec::new()),
                    text: "false".to_owned(),
                },
            ),
            _ => Err(smt_err::api_error("not a built-in constant")),
        }
    }

    /// Construct a constant from a 64-bit integer of the given sort.
    /// Supported sorts are integer, real and bitvector; for a bitvector sort
    /// the value must be non-negative and representable in the width.
    pub fn const_from_int(&self, value: i64, sort: &SimpleSort) -> (r: SMTResult<SimpleTerm>)
        requires
            self.wf(),
            self.sort_ok(*sort),
        ensures
            r matches Ok(t) ==> self.term_ok(t) && t.tinv() && self.sort_of(t) == *sort
                && t.value_int() == Some(value as int),
            self.is_int_sort(*sort) || self.is_real_sort(*sort) ==> r is Ok,
            self.bitvec_width(*sort) matches Some(w) ==> (r is Ok <==> crate::bv_fits(value, w)),
            !self.is_int_sort(*sort) && !self.is_real_sort(*sort) && self.bitvec_width(*sort)
                is None ==> r is Err,
            r matches Err(e) ==> e is APIError,
    {
        let kind_tag: u8 = match &self.sorts[sort.id].kind {
            SortKind::Int => 1,
            SortKind::Real => 2,
            SortKind::BitVec(_) => 3,
            _ => 0,
        };
        if kind_tag == 1 {
            Ok(
                SimpleTerm {
                    sort: sort.clone(),
                    node: TermNode::IntConst(value),
                    text: int_to_text(value),
                },
            )
        } else if kind_tag == 2 {
            let mut text = int_to_text(value);
            text.append(".0");
            Ok(SimpleTerm { sort: sort.clone(), node: TermNode::IntConst(value), text })
        } else if kind_tag == 3 {
            let w: u32 = match &self.sorts[sort.id].kind {
                SortKind::BitVec(w2) => *w2,
                _ => 0,
            };
            if value < 0 {
                return Err(smt_err::api_error("bitvector constants must be non-negative"));
            }
            let fits: bool = if w >= 63 {
                proof {
                    vstd::arithmetic::power2::lemma2_to64();
                    vstd::arithmetic::power2::lemma2_to64_rest();
                    if w > 63 {
                        vstd::arithmetic::power2::lemma_pow2_strictly_increases(63, w as nat);
                    }
                }
                true
            } else {
                let bound: u64 = 1u64 << w;
                proof {
                    vstd::bits::lemma_u64_pow2_no_overflow(w as nat);
                    vstd::bits::lemma_u64_shl_is_mul(1u64, w as u64);
                }
                (value as u64) < bound
            };
            if fits {
                let mut text = "(_ bv".to_owned();
                text.append(nat_to_text(value as u64).as_str());
                text.append(" ");
                text.append(nat_to_text(w as u64).as_str());
                text.append(")");
                Ok(SimpleTerm { sort: sort.clone(), node: TermNode::IntConst(value), text })
            } else {
                Err(smt_err::api_error("value does not fit in the bitvector width"))
            }
        } else {
            Err(smt_err::api_error("sort does not take integer constants"))
        }
    }

    /// Construct a record literal of the given record sort from the given
    /// field values, in declaration order.  The sort must be a record sort
    /// and the value count must match its field count; either violation is
    /// an `APIError`.
    pub fn record_const(&self, record_sort: &SimpleSort, field_values: &[SimpleTerm]) -> (r:
        SMTResult<SimpleTerm>)
        requires
            self.wf(),
            self.sort_ok(*record_sort),
        ensures
            r matches Ok(t) ==> self.term_ok(t) && t.tinv() && self.sort_of(t) == *record_sort,
            self.is_record(*record_sort) && field_values@.len() == self.record_field_count(
                *record_sort,
            ) ==> r is Ok,
            !self.is_record(*record_sort) ==> r is Err,
            r matches Err(e) ==> e is APIError,
    {
        let rname: String = match &self.sorts[record_sort.id].kind {
            SortKind::Record(rn, _, _) => rn.clone(),
            _ => {
                return Err(smt_err::api_error("not a record sort"));
            },
        };
        let count = match &self.sorts[record_sort.id].kind {
            SortKind::Record(_, fnames, _) => fnames.len(),
            _ => 0,
        };
        if field_values.len() != count {
            return Err(smt_err::api_error("field value count does not match the record sort"));
        }
        let mut vals: Vec<SimpleTerm> = Vec::new();
        let mut text = "(".to_owned();
        text.append(rname.as_str());
        let mut i: usize = 0;
        while i < field_values.len()
            invariant
                i <= field_values@.len(),
            decreases field_values@.len() - i,
        {
            text.append(" ");
            text.append(field_values[i].text.as_str());
            vals.push(clone_term(&field_values[i]));
            i = i + 1;
        }
        text.append(")");
        Ok(SimpleTerm { sort: record_sort.clone(), node: TermNode::RecordLit(rname, vals), text })
    }

    /// Same as [`SimpleSolver::record_const`], except that the field values
    /// are given by reference.
    pub fn record_const_refs(&self, record_sort: &SimpleSort, field_values: &[&SimpleTerm]) -> (r:
        SMTResult<SimpleTerm>)
        requires
            self.wf(),
            self.sort_ok(*record_sort),
        ensures
            r matches Ok(t) ==> self.term_ok(t) && t.tinv() && self.sort_of(t) == *record_sort,
            self.is_record(*record_sort) && field_values@.len() == self.record_field_count(
                *record_sort,
            ) ==> r is Ok,
            !self.is_record(*record_sort) ==> r is Err,
            r matches Err(e) ==> e is APIError,
    {
        let mut owned: Vec<SimpleTerm> = Vec::new();
        let mut i: usize = 0;
        while i < field_values.len()
            invariant
                i <= field_values@.len(),
                owned@.len() == i,
            decreases field_values@.len() - i,
        {
            owned.push(clone_term(field_values[i]));
            i = i + 1;
        }
        self.record_const(record_sort, owned.as_slice())
    }

    /// Apply a built-in operator or an uninterpreted function to argument
    /// terms.  An uninterpreted-function application with matching arity
    /// always succeeds and has the function's return sort; arity mismatches
    /// are an `APIError`.
    pub fn apply_fun(&self, f: &crate::Function<SimpleFun>, args: &[SimpleTerm]) -> (r: SMTResult<
        SimpleTerm,
    >)
        requires
            self.wf(),
            *f matches crate::Function::UF(g) ==> self.fun_ok(g),
            forall|i: int| 0 <= i < args.len() ==> self.term_ok(#[trigger] args[i]),
        ensures
            r matches Ok(t) ==> self.term_ok(t) && t.tinv(),
            *f matches crate::Function::UF(g) ==> (r matches Ok(t) ==> self.sort_of(t)
                == self.uf_ret_sort(g)) && (args@.len() == self.uf_arity(g) ==> r is Ok),
            *f matches crate::Function::Op(op) ==> (r matches Ok(t) ==> (op.is_predicate_spec()
                ==> self.is_bool_sort(self.sort_of(t)))),
    {
        match f {
            crate::Function::UF(g) => {
                if args.len() != g.args.len() {
                    return Err(
                        smt_err::api_error("argument count does not match the function arity"),
                    );
                }
                let vals = copy_terms(args);
                let text = if args.len() == 0 {
                    g.name.clone()
                } else {
                    let mut tx = "(".to_owned();
                    tx.append(g.name.as_str());
                    let mut i: usize = 0;
                    while i < args.len()
                        invariant
                            i <= args@.len(),
                        decreases args@.len() - i,
                    {
                        tx.append(" ");
                        tx.append(args[i].text.as_str());
                        i = i + 1;
                    }
                    tx.append(")");
                    tx
                };
                Ok(
                    SimpleTerm {
                        sort: g.ret.clone(),
                        node: TermNode::UFApp(g.name.clone(), vals),
                        text,
                    },
                )
            },
            crate::Function::Op(op) => {
                let ar = op.arity();
                if args.len() != ar as usize {
                    return Err(
                        smt_err::api_error("argument count does not match the operator arity"),
                    );
                }
                let result_sort: SimpleSort = match op {
                    Op::True | Op::False | Op::Not | Op::And | Op::Or | Op::Implies | Op::Eq
                        | Op::Gt | Op::Ge | Op::Lt | Op::Le | Op::BvUlt | Op::BvUle | Op::BvUgt
                        | Op::BvUge => self.sort_handle(0),
                    Op::Ite => args[1].sort.clone(),
                    Op::Plus | Op::Minus | Op::Times | Op::Div | Op::Mod | Op::Neg | Op::BvAdd
                        | Op::BvSub | Op::BvMul | Op::BvAnd | Op::BvOr | Op::BvXor | Op::BvNot
                        | Op::BvNeg | Op::BvShl | Op::BvLshr | Op::Store => args[0].sort.clone(),
                    Op::Select => {
                        match &self.sorts[args[0].sort.id].kind {
                            SortKind::Array(_, rng) => {
                                proof {
                                    assert(entry_ok(self.sorts@, args[0].sort.id as int));
                                }
                                self.sort_handle(*rng)
                            },
                            _ => {
                                return Err(smt_err::api_error("select applied to a non-array"));
                            },
                        }
                    },
                    Op::RecordSelect(fname) => {
                        match &self.sorts[args[0].sort.id].kind {
                            SortKind::Record(_, fnames, fsorts) => {
                                proof {
                                    assert(entry_ok(self.sorts@, args[0].sort.id as int));
                                }
                                let mut j: usize = 0;
                                let mut found: Option<usize> = None;
                                while j < fnames.len()
                                    invariant
                                        j <= fnames@.len(),
                                        self.wf(),
                                        found matches Some(x) ==> x < fsorts@.len()
                                            && fsorts@[x as int] < self.sorts@.len(),
                                        fnames@.len() == fsorts@.len(),
                                        forall|k: int|
                                            0 <= k < fsorts@.len() ==> (#[trigger] fsorts@[k])
                                                < self.sorts@.len(),
                                        found is None ==> forall|j2: int|
                                            0 <= j2 < j ==> (#[trigger] fnames@[j2])@ != fname@,
                                    decreases fnames@.len() - j,
                                {
                                    let hit = found.is_none() && fnames[j] == *fname;
                                    if hit {
                                        found = Some(j);
                                    }
                                    j = j + 1;
                                }
                                match found {
                                    Some(x) => self.sort_handle(fsorts[x]),
                                    None => {
                                        return Err(
                                            smt_err::api_error("no such field in the record sort"),
                                        );
                                    },
                                }
                            },
                            _ => {
                                return Err(
                                    smt_err::api_error("field select applied to a non-record"),
                                );
                            },
                        }
                    },
                    Op::RecordUpdate(fname) => {
                        match &self.sorts[args[0].sort.id].kind {
                            SortKind::Record(_, fnames, _) => {
                                let mut j: usize = 0;
                                let mut present = false;
                                while j < fnames.len()
                                    invariant
                                        j <= fnames@.len(),
                                        present <==> exists|j2: int|
                                            0 <= j2 < j && (#[trigger] fnames@[j2])@ == fname@,
                                    decreases fnames@.len() - j,
                                {
                                    let hit = fnames[j] == *fname;
                                    if hit {
                                        present = true;
                                    }
                                    j = j + 1;
                                }
                                if present {
                                    args[0].sort.clone()
                                } else {
                                    return Err(
                                        smt_err::api_error("no such field in the record sort"),
                                    );
                                }
                            },
                            _ => {
                                return Err(
                                    smt_err::api_error("field update applied to a non-record"),
                                );
                            },
                        }
                    },
                };
                let vals = copy_terms(args);
                let text = if args.len() == 0 {
                    op.smtlib_name()
                } else {
                    let mut tx = "(".to_owned();
                    tx.append(op.smtlib_name().as_str());
                    let mut i: usize = 0;
                    while i < args.len()
                        invariant
                            i <= args@.len(),
                        decreases args@.len() - i,
                    {
                        tx.append(" ");
                        tx.append(args[i].text.as_str());
                        i = i + 1;
                    }
                    tx.append(")");
                    tx
                };
                Ok(SimpleTerm { sort: result_sort, node: TermNode::App(op.clone(), vals), text })
            },
        }
    }

    /// Same as [`SimpleSolver::apply_fun`], except that the arguments are
    /// given by reference.
    pub fn apply_fun_refs(&self, f: &crate::Function<SimpleFun>, args: &[&SimpleTerm]) -> (r:
        SMTResult<SimpleTerm>)
        requires
            self.wf(),
            *f matches crate::Function::UF(g) ==> self.fun_ok(g),
            forall|i: int| 0 <= i < args.len() ==> self.term_ok(*#[trigger] args[i]),
        ensures
            r matches Ok(t) ==> self.term_ok(t) && t.tinv(),
            *f matches crate::Function::UF(g) ==> (r matches Ok(t) ==> self.sort_of(t)
                == self.uf_ret_sort(g)) && (args@.len() == self.uf_arity(g) ==> r is Ok),
            *f matches crate::Function::Op(op) ==> (r matches Ok(t) ==> (op.is_predicate_spec()
                ==> self.is_bool_sort(self.sort_of(t)))),
    {
        let mut owned: Vec<SimpleTerm> = Vec::new();
        let mut i: usize = 0;
        while i < args.len()
            invariant
                self.wf(),
                i <= args@.len(),
                owned@.len() == i,
                forall|j: int| 0 <= j < args.len() ==> self.term_ok(*#[trigger] args[j]),
                forall|j: int| 0 <= j < i ==> self.term_ok(#[trigger] owned@[j]),
                forall|j: int| 0 <= j < i ==> (#[trigger] owned@[j]).sort == args@[j].sort,
            decreases args@.len() - i,
        {
            owned.push(clone_term(args[i]));
            i = i + 1;
        }
        self.apply_fun(f, owned.as_slice())
    }

    /// Check the satisfiability of all assertions in all live scopes.  Never
    /// returns an error: an undecided question is `Unknown`.  The outcome is
    /// recorded as the most recent check-sat outcome, and a model is stored
    /// when the outcome is `Sat`.
    ///
    /// The bundled decision procedure is deliberately partial: it decides
    /// the boolean constants and conjunctions of comparisons between an
    /// integer variable and an integer literal, and answers `Unknown`
    /// whenever anything else has been asserted (unless the assertions are
    /// unsatisfiable for a reason it can see).
    pub fn check_sat(&mut self) -> (r: CheckSatResult)
        requires
            old(self).wf(),
        ensures
            final(self).wf(),
            final(self).sorts == old(self).sorts,
            final(self).depth() == old(self).depth(),
            final(self).sizes() == old(self).sizes(),
            final(self).record_names() == old(self).record_names(),
            final(self).last_result() == Some(r),
            (forall|j: int| 0 <= j < old(self).sizes().len() ==> old(self).sizes()[j] == 0)
                ==> r == CheckSatResult::Sat,
            has_false(old(self).scopes@) ==> r == CheckSatResult::Unsat,
            r == CheckSatResult::Sat ==> !has_false(old(self).scopes@),
    {
        let mut unknown = false;
        let mut falsum = false;
        let mut bounds: Vec<VarBounds> = Vec::new();
        let mut si: usize = 0;
        while si < self.scopes.len()
            invariant
                *self == *old(self),
                si <= self.scopes@.len(),
                (forall|j: int| 0 <= j < self.sizes().len() ==> self.sizes()[j] == 0) ==> (
                !unknown && !falsum && bounds@.len() == 0),
                falsum <==> has_false_before(self.scopes@, si as int, 0),
            decreases self.scopes@.len() - si,
        {
            let mut ai: usize = 0;
            while ai < self.scopes[si].len()
                invariant
                    *self == *old(self),
                    si < self.scopes@.len(),
                    ai <= self.scopes@[si as int]@.len(),
                    (forall|j: int| 0 <= j < self.sizes().len() ==> self.sizes()[j] == 0) ==> (
                    !unknown && !falsum && bounds@.len() == 0 && ai == 0),
                    falsum <==> has_false_before(self.scopes@, si as int, ai as int),
                decreases self.scopes@[si as int]@.len() - ai,
            {
                proof {
                    assert(self.sizes()[si as int] == self.scopes@[si as int]@.len());
                }
                match classify(&self.scopes[si][ai]) {
                    Atom::Tru => {},
                    Atom::Fals => {
                        falsum = true;
                    },
                    Atom::Other => {
                        unknown = true;
                    },
                    Atom::Bound(nm, lo, hi) => {
                        merge_bound(&mut bounds, nm, lo, hi);
                    },
                }
                ai = ai + 1;
                proof {
                    lemma_has_false_before_step(self.scopes@, si as int, ai as int);
                }
            }
            si = si + 1;
            proof {
                lemma_has_false_before_scope_step(self.scopes@, si as int);
            }
        }
        proof {
            lemma_has_false_before_all(self.scopes@);
        }
        let mut conflict = false;
        let mut bi: usize = 0;
        while bi < bounds.len()
            invariant
                bi <= bounds@.len(),
                bounds@.len() == 0 ==> !conflict,
            decreases bounds@.len() - bi,
        {
            match (bounds[bi].lo, bounds[bi].hi) {
                (Some(l), Some(h)) => {
                    if l > h {
                        conflict = true;
                    }
                },
                _ => {},
            }
            bi = bi + 1;
        }
        let outcome = if falsum || conflict {
            CheckSatResult::Unsat
        } else if unknown {
            CheckSatResult::Unknown
        } else {
            let mut model: Vec<(String, i64)> = Vec::new();
            let mut mi: usize = 0;
            while mi < bounds.len()
                invariant
                    mi <= bounds@.len(),
                decreases bounds@.len() - mi,
            {
                let v: i64 = match (bounds[mi].lo, bounds[mi].hi) {
                    (Some(l), _) => l,
                    (None, Some(h)) => h,
                    (None, None) => 0,
                };
                model.push((bounds[mi].name.clone(), v));
                mi = mi + 1;
            }
            self.model = model;
            CheckSatResult::Sat
        };
        self.last = Some(outcome);
        outcome
    }

    /// Query the model for a concrete constant value of the given term.
    /// Valid only when the most recent check-sat call returned `Sat`;
    /// otherwise an `APIError`.  On success the returned term is a constant
    /// of the same sort as the queried term.  Terms beyond literals and
    /// integer variables are an `UnsupportedError`.
    pub fn get_value(&mut self, t: &SimpleTerm) -> (r: SMTResult<SimpleTerm>)
        requires
            old(self).wf(),
            old(self).term_ok(*t),
            t.tinv(),
        ensures
            *final(self) == *old(self),
            final(self).wf(),
            old(self).last_result() != Some(CheckSatResult::Sat) ==> (r matches Err(e)
                && e is APIError),
            r matches Ok(v) ==> final(self).term_ok(v) && v.tinv() && final(self).sort_of(v)
                == final(self).sort_of(*t),
            r matches Ok(v) ==> (v.node matches TermNode::IntConst(_) || v.node matches
                TermNode::StrConst(_)),
            old(self).last_result() == Some(CheckSatResult::Sat) ==> (r matches Err(e)
                ==> e is UnsupportedError),
            old(self).last_result() == Some(CheckSatResult::Sat) && (t.node matches
                TermNode::IntConst(_) || t.node matches TermNode::StrConst(_)) ==> (r matches Ok(
                v,
            ) && v.value_int() == t.value_int()),
            old(self).last_result() == Some(CheckSatResult::Sat) ==> (t.node matches
                TermNode::Var(nm) ==> (match model_value(old(self).model@, nm@, 0) {
                Some(mv) => r matches Ok(v) && v.value_int() == Some(mv as int),
                None => r matches Err(e) && e is UnsupportedError,
            })),
    {
        match self.last {
            Some(CheckSatResult::Sat) => {},
            _ => {
                return Err(
                    smt_err::api_error("no model: the most recent check-sat did not return sat"),
                );
            },
        }
        match &t.node {
            TermNode::IntConst(v) => Ok(
                SimpleTerm {
                    sort: t.sort.clone(),
                    node: TermNode::IntConst(*v),
                    text: t.text.clone(),
                },
            ),
            TermNode::StrConst(sv) => Ok(
                SimpleTerm {
                    sort: t.sort.clone(),
                    node: TermNode::StrConst(sv.clone()),
                    text: t.text.clone(),
                },
            ),
            TermNode::Var(nm) => {
                let mut i: usize = 0;
                while i < self.model.len()
                    invariant
                        *self == *old(self),
                        old(self).term_ok(*t),
                        old(self).wf(),
                        old(self).last_result() == Some(CheckSatResult::Sat),
                        t.node matches TermNode::Var(vn) && vn == *nm,
                        i <= self.model@.len(),
                        model_value(self.model@, nm@, 0) == model_value(
                            self.model@,
                            nm@,
                            i as int,
                        ),
                    decreases self.model@.len() - i,
                {
                    let hit = self.model[i].0 == *nm;
                    if hit {
                        let v = self.model[i].1;
                        return Ok(
                            SimpleTerm {
                                sort: t.sort.clone(),
                                node: TermNode::IntConst(v),
                                text: int_to_text(v),
                            },
                        );
                    }
                    i = i + 1;
                }
                Err(smt_err::unsupported_error("no model value recorded for this constant"))
            },
            _ => Err(
                smt_err::unsupported_error("model evaluation of compound terms is not supported"),
            ),
        }
    }

    /// Construct a constant of the given sort from a numeric string: digits
    /// only, except that non-bitvector sorts may have a single leading minus
    /// and a real sort may have at most one decimal point.  Whether the
    /// value of a bitvector constant fits its width is not validated here.
    pub fn const_from_string(&self, value: &str, sort: &SimpleSort) -> (r: SMTResult<SimpleTerm>)
        requires
            self.wf(),
            self.sort_ok(*sort),
        ensures
            r matches Ok(t) ==> self.term_ok(t) && t.tinv() && self.sort_of(t) == *sort
                && t.value_int() == numerals::numeral_int_value(value@),
            self.is_int_sort(*sort) ==> (r is Ok <==> numerals::numeral_ok(value@, true, false)),
            self.is_real_sort(*sort) ==> (r is Ok <==> numerals::numeral_ok(value@, true, true)),
            self.bitvec_width(*sort) is Some ==> (r is Ok <==> numerals::numeral_ok(
                value@,
                false,
                false,
            )),
            !self.is_int_sort(*sort) && !self.is_real_sort(*sort) && self.bitvec_width(*sort)
                is None ==> r is Err,
            r matches Err(e) ==> e is APIError,
    {
        let kind_tag: u8 = match &self.sorts[sort.id].kind {
            SortKind::Int => 1,
            SortKind::Real => 2,
            SortKind::BitVec(_) => 3,
            _ => 0,
        };
        if kind_tag == 0 {
            return Err(smt_err::api_error("sort does not take numeric constants"));
        }
        let scanned = if kind_tag == 1 {
            numerals::scan_numeral(value, true, false)
        } else if kind_tag == 2 {
            numerals::scan_numeral(value, true, true)
        } else {
            numerals::scan_numeral(value, false, false)
        };
        match scanned {
            numerals::Scanned::Invalid => Err(
                smt_err::api_error("malformed numeric constant string"),
            ),
            numerals::Scanned::IntVal(v) => Ok(
                SimpleTerm {
                    sort: sort.clone(),
                    node: TermNode::IntConst(v),
                    text: value.to_owned(),
                },
            ),
            numerals::Scanned::Big => Ok(
                SimpleTerm {
                    sort: sort.clone(),
                    node: TermNode::StrConst(value.to_owned()),
                    text: value.to_owned(),
                },
            ),
            numerals::Scanned::NonIntegral => Ok(
                SimpleTerm {
                    sort: sort.clone(),
                    node: TermNode::StrConst(value.to_owned()),
                    text: value.to_owned(),
                },
            ),
        }
    }
}


/// One assertion, as the decision procedure sees it.
enum Atom {
    /// The built-in true constant.
    Tru,
    /// The built-in false constant.
    Fals,
    /// Anything the procedure does not understand.
    Other,
    /// A bound on an integer variable, already normalized to an inclusive
    /// interval.
    Bound(String, Option<i64>, Option<i64>),
}

/// Recognize an assertion: the boolean constants, or a comparison between an
/// integer variable and an integer literal.
fn classify(t: &SimpleTerm) -> (r: Atom)
    ensures
        r is Fals <==> is_false_const(*t),
{
    match &t.node {
        TermNode::App(op, cargs) => match op {
            Op::True => Atom::Tru,
            Op::False => Atom::Fals,
            Op::Gt | Op::Ge | Op::Lt | Op::Le | Op::Eq => {
                if cargs.len() != 2 {
                    return Atom::Other;
                }
                let left_var: bool = match (&cargs[0].node, &cargs[1].node) {
                    (TermNode::Var(_), TermNode::IntConst(_)) => true,
                    (TermNode::IntConst(_), TermNode::Var(_)) => false,
                    _ => {
                        return Atom::Other;
                    },
                };
                let vidx: usize = if left_var {
                    0
                } else {
                    1
                };
                if cargs[vidx].sort.id != 1 {
                    return Atom::Other;
                }
                let nm: String = match &cargs[vidx].node {
                    TermNode::Var(nm) => nm.clone(),
                    _ => {
                        return Atom::Other;
                    },
                };
                let c: i64 = match (&cargs[0].node, &cargs[1].node) {
                    (_, TermNode::IntConst(c)) if left_var => *c,
                    (TermNode::IntConst(c), _) => *c,
                    _ => {
                        return Atom::Other;
                    },
                };
                // Normalize `x OP c` (or `c OP x`) to an inclusive interval.
                match op {
                    Op::Eq => Atom::Bound(nm, Some(c), Some(c)),
                    Op::Gt => {
                        if left_var {
                            // x > c
                            if c == i64::MAX {
                                Atom::Other
                            } else {
                                Atom::Bound(nm, Some(c + 1), None)
                            }
                        } else {
                            // c > x
                            if c == i64::MIN {
                                Atom::Other
                            } else {
                                Atom::Bound(nm, None, Some(c - 1))
                            }
                        }
                    },
                    Op::Ge => {
                        if left_var {
                            Atom::Bound(nm, Some(c), None)
                        } else {
                            Atom::Bound(nm, None, Some(c))
                        }
                    },
                    Op::Lt => {
                        if left_var {
                            // x < c
                            if c == i64::MIN {
                                Atom::Other
                            } else {
                                Atom::Bound(nm, None, Some(c - 1))
                            }
                        } else {
                            // c < x
                            if c == i64::MAX {
                                Atom::Other
                            } else {
                                Atom::Bound(nm, Some(c + 1), None)
                            }
                        }
                    },
                    Op::Le => {
                        if left_var {
                            Atom::Bound(nm, None, Some(c))
                        } else {
                            Atom::Bound(nm, Some(c), None)
                        }
                    },
                    _ => Atom::Other,
                }
            },
            _ => Atom::Other,
        },
        _ => Atom::Other,
    }
}

/// Fold a new bound for a variable into the collected bounds, keeping the
/// tightest interval.
fn merge_bound(bounds: &mut Vec<VarBounds>, name: String, lo: Option<i64>, hi: Option<i64>) {
    let mut i: usize = 0;
    while i < bounds.len()
        invariant
            i <= bounds@.len(),
        decreases bounds@.len() - i,
    {
        let hit = bounds[i].name == name;
        if hit {
            let mut vb = bounds.remove(i);
            vb.lo = match (vb.lo, lo) {
                (Some(a), Some(b)) => if a >= b {
                    Some(a)
                } else {
                    Some(b)
                },
                (Some(a), None) => Some(a),
                (None, b) => b,
            };
            vb.hi = match (vb.hi, hi) {
                (Some(a), Some(b)) => if a <= b {
                    Some(a)
                } else {
                    Some(b)
                },
                (Some(a), None) => Some(a),
                (None, b) => b,
            };
            bounds.push(vb);
            return ;
        }
        i = i + 1;
    }
    bounds.push(VarBounds { name, lo, hi });
}

/// Copy a slice of terms into a vector.
fn copy_terms(args: &[SimpleTerm]) -> (r: Vec<SimpleTerm>)
    ensures
        r@.len() == args@.len(),
{
    let mut out: Vec<SimpleTerm> = Vec::new();
    let mut i: usize = 0;
    while i < args.len()
        invariant
            i <= args@.len(),
            out@.len() == i,
        decreases args@.len() - i,
    {
        out.push(clone_term(&args[i]));
        i = i + 1;
    }
    out
}

/// The index of the first uninterpreted sort named `name` at or after
/// position `i` of the table.
pub open spec fn find_uninterp(sorts: Seq<SortEntry>, name: Seq<char>, i: int) -> Option<int>
    decreases sorts.len() - i,
    when 0 <= i <= sorts.len()
{
    if i >= sorts.len() {
        None
    } else {
        match sorts[i].kind {
            SortKind::Uninterp(n) => if n@ == name {
                Some(i)
            } else {
                find_uninterp(sorts, name, i + 1)
            },
            _ => find_uninterp(sorts, name, i + 1),
        }
    }
}

/// The first value recorded for a variable name at or after position `i` of
/// a model.
pub open spec fn model_value(model: Seq<(String, i64)>, nm: Seq<char>, i: int) -> Option<i64>
    decreases model.len() - i,
    when 0 <= i <= model.len()
{
    if i >= model.len() {
        None
    } else if model[i].0@ == nm {
        Some(model[i].1)
    } else {
        model_value(model, nm, i + 1)
    }
}

/// Growing the sort table keeps every existing entry well-formed.
proof fn lemma_entries_still_ok(pre: Seq<SortEntry>, post: Seq<SortEntry>)
    requires
        post.len() >= pre.len(),
        forall|i: int| 0 <= i < pre.len() ==> post[i] == pre[i],
        forall|i: int| 0 <= i < pre.len() ==> entry_ok(pre, i),
        forall|i: int| pre.len() <= i < post.len() ==> entry_ok(post, i),
    ensures
        forall|i: int| 0 <= i < post.len() ==> entry_ok(post, i),
{
    assert forall|i: int| 0 <= i < post.len() implies entry_ok(post, i) by {
        if i < pre.len() {
            assert(entry_ok(pre, i));
            assert(post[i] == pre[i]);
        }
    }
}

/// Adding non-record entries to the sort table keeps the set of record-sort
/// names unchanged.
proof fn lemma_records_preserved(pre: SimpleSolver, post: SimpleSolver)
    requires
        post.sorts@.len() >= pre.sorts@.len(),
        forall|i: int| 0 <= i < pre.sorts@.len() ==> post.sorts@[i] == pre.sorts@[i],
        forall|i: int|
            pre.sorts@.len() <= i < post.sorts@.len() ==> !((#[trigger] post.sorts@[i]).kind
                is Record),
    ensures
        post.record_names() == pre.record_names(),
{
    assert forall|n: Seq<char>|
        pre.record_names().contains(n) <==> post.record_names().contains(n) by {
        if pre.record_names().contains(n) {
            let i = choose|i: int|
                0 <= i < pre.sorts@.len() && match (#[trigger] pre.sorts@[i]).kind {
                    SortKind::Record(rn, _, _) => rn@ == n,
                    _ => false,
                };
            assert(post.sorts@[i] == pre.sorts@[i]);
            assert(post.record_names().contains(n));
        }
        if post.record_names().contains(n) {
            let i = choose|i: int|
                0 <= i < post.sorts@.len() && match (#[trigger] post.sorts@[i]).kind {
                    SortKind::Record(rn, _, _) => rn@ == n,
                    _ => false,
                };
            assert(0 <= i < pre.sorts@.len());
            assert(pre.record_names().contains(n));
        }
    }
    assert(pre.record_names() =~= post.record_names());
}

/// Render a non-negative number in decimal.
fn nat_to_text(m: u64) -> String {
    if m == 0 {
        return "0".to_owned();
    }
    let mut digits: Vec<u64> = Vec::new();
    let mut x = m;
    while x > 0
        invariant
            forall|k: int| 0 <= k < digits@.len() ==> #[trigger] digits@[k] < 10,
        decreases x,
    {
        digits.push(x % 10);
        x = x / 10;
    }
    let mut out = String::new();
    let mut i = digits.len();
    while i > 0
        invariant
            i <= digits@.len(),
            forall|k: int| 0 <= k < digits@.len() ==> #[trigger] digits@[k] < 10,
        decreases i,
    {
        i = i - 1;
        out.append(digit_str(digits[i]));
    }
    out
}

/// The decimal digit character for a value below ten.
fn digit_str(d: u64) -> &'static str
    requires
        d < 10,
{
    match d {
        0 => "0",
        1 => "1",
        2 => "2",
        3 => "3",
        4 => "4",
        5 => "5",
        6 => "6",
        7 => "7",
        8 => "8",
        _ => "9",
    }
}

/// Render a signed number in decimal.
fn int_to_text(v: i64) -> String {
    if v >= 0 {
        nat_to_text(v as u64)
    } else {
        let m: u64 = ((-(v + 1)) as u64) + 1;
        let mut out = "-".to_owned();
        out.append(nat_to_text(m).as_str());
        out
    }
}

impl crate::Sort for SimpleSort {
    open spec fn inv(&self) -> bool {
        true
    }

    fn to_string(&self) -> (r: SMTResult<String>)
        ensures
            r matches Ok(v) && v == self.text,
    {
        Ok(self.text.clone())
    }
}

impl crate::Term for SimpleTerm {
    open spec fn inv(&self) -> bool {
        self.tinv()
    }

    open spec fn int_value(&self) -> Option<int> {
        self.value_int()
    }

    fn to_string(&self) -> (r: SMTResult<String>)
        ensures
            r matches Ok(v) && v == self.text,
    {
        Ok(self.text.clone())
    }

    fn to_int(&self) -> (r: SMTResult<i64>) {
        match &self.node {
            TermNode::IntConst(v) => Ok(*v),
            TermNode::StrConst(_) => Err(
                smt_err::api_error("constant is not integral or does not fit in 64 bits"),
            ),
            _ => Err(smt_err::api_error("term is not a numeric constant")),
        }
    }
}

impl crate::UninterpretedFunction for SimpleFun {
    open spec fn inv(&self) -> bool {
        true
    }

    fn to_string(&self) -> (r: SMTResult<String>)
        ensures
            r matches Ok(v) && v == self.name,
    {
        Ok(self.name.clone())
    }
}

impl crate::SMTSolver for SimpleSolver {
    type S = SimpleSort;

    type T = SimpleTerm;

    type F = SimpleFun;

    open spec fn inv(&self) -> bool {
        self.wf()
    }

    open spec fn level_of(&self) -> nat {
        self.depth()
    }

    open spec fn scope_sizes(&self) -> Seq<nat> {
        self.sizes()
    }

    open spec fn last_check(&self) -> Option<CheckSatResult> {
        self.last_result()
    }

    open spec fn sort_ok(&self, s: SimpleSort) -> bool {
        SimpleSolver::sort_ok(self, s)
    }

    open spec fn term_ok(&self, t: SimpleTerm) -> bool {
        SimpleSolver::term_ok(self, t)
    }

    open spec fn fun_ok(&self, f: SimpleFun) -> bool {
        SimpleSolver::fun_ok(self, f)
    }

    open spec fn sort_of(&self, t: SimpleTerm) -> SimpleSort {
        SimpleSolver::sort_of(self, t)
    }

    open spec fn is_bool_sort(&self, s: SimpleSort) -> bool {
        SimpleSolver::is_bool_sort(self, s)
    }

    open spec fn is_int_sort(&self, s: SimpleSort) -> bool {
        SimpleSolver::is_int_sort(self, s)
    }

    open spec fn is_real_sort(&self, s: SimpleSort) -> bool {
        SimpleSolver::is_real_sort(self, s)
    }

    open spec fn bitvec_width(&self, s: SimpleSort) -> Option<nat> {
        SimpleSolver::bitvec_width(self, s)
    }

    open spec fn is_record(&self, s: SimpleSort) -> bool {
        SimpleSolver::is_record(self, s)
    }

    open spec fn record_field_count(&self, s: SimpleSort) -> nat {
        SimpleSolver::record_field_count(self, s)
    }

    open spec fn record_names(&self) -> Set<Seq<char>> {
        SimpleSolver::record_names(self)
    }

    open spec fn uf_ret_sort(&self, f: SimpleFun) -> SimpleSort {
        SimpleSolver::uf_ret_sort(self, f)
    }

    open spec fn uf_arity(&self, f: SimpleFun) -> nat {
        SimpleSolver::uf_arity(self, f)
    }

    fn new() -> (s: Self) {
        SimpleSolver::new()
    }

    fn get_sort(&self, t: &SimpleTerm) -> (r: SMTResult<SimpleSort>) {
        SimpleSolver::get_sort(self, t)
    }

    fn declare_sort(&mut self, name: &str) -> (r: SMTResult<SimpleSort>) {
        SimpleSolver::declare_sort(self, name)
    }

    fn lookup_sort(&mut self, s: Sorts) -> (r: SMTResult<SimpleSort>) {
        SimpleSolver::lookup_sort(self, s)
    }

    fn apply_sort(&mut self, s: Sorts, s1: &SimpleSort, s2: &SimpleSort) -> (r: SMTResult<
        SimpleSort,
    >) {
        SimpleSolver::apply_sort(self, s, s1, s2)
    }

    fn declare_record_sort(
        &mut self,
        name: &str,
        fields: &[&str],
        sorts: &[&SimpleSort],
    ) -> (r: SMTResult<SimpleSort>) {
        SimpleSolver::declare_record_sort(self, name, fields, sorts)
    }

    fn is_record_sort(&self, sort: &SimpleSort) -> (r: bool) {
        SimpleSolver::is_record_sort(self, sort)
    }

    fn declare_fun(&self, name: &str, args: &[&SimpleSort], sort: &SimpleSort) -> (r: SMTResult<
        SimpleFun,
    >) {
        SimpleSolver::declare_fun(self, name, args, sort)
    }

    fn declare_const(&self, name: &str, sort: &SimpleSort) -> (r: SMTResult<SimpleTerm>) {
        SimpleSolver::declare_const(self, name, sort)
    }

    fn lookup_const(&self, f: Op) -> (r: SMTResult<SimpleTerm>) {
        SimpleSolver::lookup_const(self, f)
    }

    fn const_from_int(&self, value: i64, sort: &SimpleSort) -> (r: SMTResult<SimpleTerm>) {
        SimpleSolver::const_from_int(self, value, sort)
    }

    fn const_from_string(&self, value: &str, sort: &SimpleSort) -> (r: SMTResult<SimpleTerm>) {
        SimpleSolver::const_from_string(self, value, sort)
    }

    fn record_const(&self, record_sort: &SimpleSort, field_values: &[SimpleTerm]) -> (r: SMTResult<
        SimpleTerm,
    >) {
        SimpleSolver::record_const(self, record_sort, field_values)
    }

    fn record_const_refs(&self, record_sort: &SimpleSort, field_values: &[&SimpleTerm]) -> (r:
        SMTResult<SimpleTerm>) {
        SimpleSolver::record_const_refs(self, record_sort, field_values)
    }

    fn apply_fun(&self, f: &crate::Function<SimpleFun>, args: &[SimpleTerm]) -> (r: SMTResult<
        SimpleTerm,
    >) {
        SimpleSolver::apply_fun(self, f, args)
    }

    fn apply_fun_refs(&self, f: &crate::Function<SimpleFun>, args: &[&SimpleTerm]) -> (r:
        SMTResult<SimpleTerm>) {
        SimpleSolver::apply_fun_refs(self, f, args)
    }

    fn level(&self) -> (r: u32) {
        SimpleSolver::level(self)
    }

    fn push(&mut self, n: u32) -> (r: SMTResult<bool>) {
        SimpleSolver::push(self, n)
    }

    fn pop(&mut self, n: u32) -> (r: SMTResult<bool>) {
        SimpleSolver::pop(self, n)
    }

    fn assert_term(&mut self, t: &SimpleTerm) -> (r: SMTResult<bool>) {
        SimpleSolver::assert_term(self, t)
    }

    fn check_sat(&mut self) -> (r: CheckSatResult) {
        SimpleSolver::check_sat(self)
    }

    fn get_value(&mut self, t: &SimpleTerm) -> (r: SMTResult<SimpleTerm>) {
        SimpleSolver::get_value(self, t)
    }
}

} // verus!
