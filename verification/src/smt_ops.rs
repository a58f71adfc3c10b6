//! The closed taxonomy of built-in sort constructors and function symbols,
//! drawn from the standard SMT theories (Booleans, integers, reals,
//! bitvectors, arrays, records).  Each entry has a fixed arity; the taxonomy
//! is shared read-only data consulted by `lookup_sort`, `apply_sort`,
//! `lookup_const` and `apply_fun`.

use vstd::prelude::*;

verus! {

/// Built-in sorts and sort constructors.  `Bool`, `Int`, `Real` and
/// `BitVec(width)` are nullary sorts; `Array` is a sort constructor of
/// arity 2 (index sort, element sort) and can only be used through
/// `apply_sort`.
#[derive(Debug, Clone, Copy, PartialEq, Eq, Structural)]
pub enum Sorts {
    Bool,
    Int,
    Real,
    BitVec(u32),
    Array,
}

impl Sorts {
    /// True of the nullary entries, which `lookup_sort` accepts; false of the
    /// constructors, which only `apply_sort` accepts.
    pub open spec fn is_nullary_spec(self) -> bool {
        !(self is Array)
    }

    /// Executable twin of [`Sorts::is_nullary_spec`].
    pub fn is_nullary(&self) -> (r: bool)
        ensures
            r == self.is_nullary_spec(),
    {
        !matches!(self, Sorts::Array)
    }
}

/// Built-in function symbols: boolean connectives, arithmetic, comparisons,
/// bitvector operators, array select/store, and record field select/update.
/// `True` and `False` are the built-in constants (arity 0).
#[derive(Debug, PartialEq, Eq)]
pub enum Op {
    // Built-in constants.
    True,
    False,
    // Boolean connectives.
    Not,
    And,
    Or,
    Implies,
    Ite,
    // Equality and arithmetic comparisons.
    Eq,
    Gt,
    Ge,
    Lt,
    Le,
    // Integer / real arithmetic.
    Plus,
    Minus,
    Times,
    Div,
    Mod,
    Neg,
    // Bitvector operators.
    BvAdd,
    BvSub,
    BvMul,
    BvAnd,
    BvOr,
    BvXor,
    BvNot,
    BvNeg,
    BvShl,
    BvLshr,
    BvUlt,
    BvUle,
    BvUgt,
    BvUge,
    // Array operators.
    Select,
    Store,
    // Record operators, carrying the field name they act on.
    RecordSelect(String),
    RecordUpdate(String),
}

impl Clone for Op {
    fn clone(&self) -> (r: Self)
        ensures
            r == *self,
    {
        match self {
            Op::True => Op::True,
            Op::False => Op::False,
            Op::Not => Op::Not,
            Op::And => Op::And,
            Op::Or => Op::Or,
            Op::Implies => Op::Implies,
            Op::Ite => Op::Ite,
            Op::Eq => Op::Eq,
            Op::Gt => Op::Gt,
            Op::Ge => Op::Ge,
            Op::Lt => Op::Lt,
            Op::Le => Op::Le,
            Op::Plus => Op::Plus,
            Op::Minus => Op::Minus,
            Op::Times => Op::Times,
            Op::Div => Op::Div,
            Op::Mod => Op::Mod,
            Op::Neg => Op::Neg,
            Op::BvAdd => Op::BvAdd,
            Op::BvSub => Op::BvSub,
            Op::BvMul => Op::BvMul,
            Op::BvAnd => Op::BvAnd,
            Op::BvOr => Op::BvOr,
            Op::BvXor => Op::BvXor,
            Op::BvNot => Op::BvNot,
            Op::BvNeg => Op::BvNeg,
            Op::BvShl => Op::BvShl,
            Op::BvLshr => Op::BvLshr,
            Op::BvUlt => Op::BvUlt,
            Op::BvUle => Op::BvUle,
            Op::BvUgt => Op::BvUgt,
            Op::BvUge => Op::BvUge,
            Op::Select => Op::Select,
            Op::Store => Op::Store,
            Op::RecordSelect(f) => Op::RecordSelect(f.clone()),
            Op::RecordUpdate(f) => Op::RecordUpdate(f.clone()),
        }
    }
}

impl Op {
    /// The fixed arity of the symbol: how many argument terms an application
    /// of it takes.
    pub open spec fn arity_spec(self) -> nat {
        match self {
            Op::True => 0,
            Op::False => 0,
            Op::Not => 1,
            Op::And => 2,
            Op::Or => 2,
            Op::Implies => 2,
            Op::Ite => 3,
            Op::Eq => 2,
            Op::Gt => 2,
            Op::Ge => 2,
            Op::Lt => 2,
            Op::Le => 2,
            Op::Plus => 2,
            Op::Minus => 2,
            Op::Times => 2,
            Op::Div => 2,
            Op::Mod => 2,
            Op::Neg => 1,
            Op::BvAdd => 2,
            Op::BvSub => 2,
            Op::BvMul => 2,
            Op::BvAnd => 2,
            Op::BvOr => 2,
            Op::BvXor => 2,
            Op::BvNot => 1,
            Op::BvNeg => 1,
            Op::BvShl => 2,
            Op::BvLshr => 2,
            Op::BvUlt => 2,
            Op::BvUle => 2,
            Op::BvUgt => 2,
            Op::BvUge => 2,
            Op::Select => 2,
            Op::Store => 3,
            Op::RecordSelect(_) => 1,
            Op::RecordUpdate(_) => 2,
        }
    }

    /// Executable twin of [`Op::arity_spec`].
    pub fn arity(&self) -> (r: u32)
        ensures
            r as nat == self.arity_spec(),
    {
        match self {
            Op::True => 0,
            Op::False => 0,
            Op::Not => 1,
            Op::And => 2,
            Op::Or => 2,
            Op::Implies => 2,
            Op::Ite => 3,
            Op::Eq => 2,
            Op::Gt => 2,
            Op::Ge => 2,
            Op::Lt => 2,
            Op::Le => 2,
            Op::Plus => 2,
            Op::Minus => 2,
            Op::Times => 2,
            Op::Div => 2,
            Op::Mod => 2,
            Op::Neg => 1,
            Op::BvAdd => 2,
            Op::BvSub => 2,
            Op::BvMul => 2,
            Op::BvAnd => 2,
            Op::BvOr => 2,
            Op::BvXor => 2,
            Op::BvNot => 1,
            Op::BvNeg => 1,
            Op::BvShl => 2,
            Op::BvLshr => 2,
            Op::BvUlt => 2,
            Op::BvUle => 2,
            Op::BvUgt => 2,
            Op::BvUge => 2,
            Op::Select => 2,
            Op::Store => 3,
            Op::RecordSelect(_) => 1,
            Op::RecordUpdate(_) => 2,
        }
    }

    /// True of the symbols whose application is Boolean-sorted: the
    /// connectives, the comparisons, and the boolean constants.
    pub open spec fn is_predicate_spec(self) -> bool {
        self is True || self is False || self is Not || self is And || self is Or
            || self is Implies || self is Eq || self is Gt || self is Ge || self is Lt
            || self is Le || self is BvUlt || self is BvUle || self is BvUgt || self is BvUge
    }

    /// True of the symbols whose application needs a particular sort shape
    /// from its first argument (an array, or a record with the named field);
    /// every other symbol applies to arguments of any sorts.
    pub open spec fn needs_sort_shape_spec(self) -> bool {
        self is Select || self is RecordSelect || self is RecordUpdate
    }

    /// True of the symbols whose application has the sort of their first
    /// argument.
    pub open spec fn first_arg_sorted_spec(self) -> bool {
        self is Plus || self is Minus || self is Times || self is Div || self is Mod
            || self is Neg || self is BvAdd || self is BvSub || self is BvMul || self is BvAnd
            || self is BvOr || self is BvXor || self is BvNot || self is BvNeg || self is BvShl
            || self is BvLshr || self is Store || self is RecordUpdate
    }

    /// True of the built-in constants, which `lookup_const` accepts.
    pub open spec fn is_constant_spec(self) -> bool {
        self is True || self is False
    }

    /// Executable twin of [`Op::is_constant_spec`].
    pub fn is_constant(&self) -> (r: bool)
        ensures
            r == self.is_constant_spec(),
    {
        matches!(self, Op::True | Op::False)
    }

    /// The SMT-LIB name of the symbol, as a character sequence.
    pub open spec fn smtlib_name_spec(self) -> Seq<char> {
        match self {
            Op::True => "true"@,
            Op::False => "false"@,
            Op::Not => "not"@,
            Op::And => "and"@,
            Op::Or => "or"@,
            Op::Implies => "=>"@,
            Op::Ite => "ite"@,
            Op::Eq => "="@,
            Op::Gt => ">"@,
            Op::Ge => ">="@,
            Op::Lt => "<"@,
            Op::Le => "<="@,
            Op::Plus => "+"@,
            Op::Minus => "-"@,
            Op::Times => "*"@,
            Op::Div => "/"@,
            Op::Mod => "mod"@,
            Op::Neg => "-"@,
            Op::BvAdd => "bvadd"@,
            Op::BvSub => "bvsub"@,
            Op::BvMul => "bvmul"@,
            Op::BvAnd => "bvand"@,
            Op::BvOr => "bvor"@,
            Op::BvXor => "bvxor"@,
            Op::BvNot => "bvnot"@,
            Op::BvNeg => "bvneg"@,
            Op::BvShl => "bvshl"@,
            Op::BvLshr => "bvlshr"@,
            Op::BvUlt => "bvult"@,
            Op::BvUle => "bvule"@,
            Op::BvUgt => "bvugt"@,
            Op::BvUge => "bvuge"@,
            Op::Select => "select"@,
            Op::Store => "store"@,
            Op::RecordSelect(f) => f@,
            Op::RecordUpdate(f) => f@,
        }
    }

    /// The SMT-LIB rendering of the symbol.
    pub fn smtlib_name(&self) -> (r: String)
        ensures
            r@ == self.smtlib_name_spec(),
    {
        match self {
            Op::True => "true".to_owned(),
            Op::False => "false".to_owned(),
            Op::Not => "not".to_owned(),
            Op::And => "and".to_owned(),
            Op::Or => "or".to_owned(),
            Op::Implies => "=>".to_owned(),
            Op::Ite => "ite".to_owned(),
            Op::Eq => "=".to_owned(),
            Op::Gt => ">".to_owned(),
            Op::Ge => ">=".to_owned(),
            Op::Lt => "<".to_owned(),
            Op::Le => "<=".to_owned(),
            Op::Plus => "+".to_owned(),
            Op::Minus => "-".to_owned(),
            Op::Times => "*".to_owned(),
            Op::Div => "/".to_owned(),
            Op::Mod => "mod".to_owned(),
            Op::Neg => "-".to_owned(),
            Op::BvAdd => "bvadd".to_owned(),
            Op::BvSub => "bvsub".to_owned(),
            Op::BvMul => "bvmul".to_owned(),
            Op::BvAnd => "bvand".to_owned(),
            Op::BvOr => "bvor".to_owned(),
            Op::BvXor => "bvxor".to_owned(),
            Op::BvNot => "bvnot".to_owned(),
            Op::BvNeg => "bvneg".to_owned(),
            Op::BvShl => "bvshl".to_owned(),
            Op::BvLshr => "bvlshr".to_owned(),
            Op::BvUlt => "bvult".to_owned(),
            Op::BvUle => "bvule".to_owned(),
            Op::BvUgt => "bvugt".to_owned(),
            Op::BvUge => "bvuge".to_owned(),
            Op::Select => "select".to_owned(),
            Op::Store => "store".to_owned(),
            Op::RecordSelect(f) => f.clone(),
            Op::RecordUpdate(f) => f.clone(),
        }
    }
}

} // verus!
