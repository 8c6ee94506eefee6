use vstd::prelude::*;

use crate::error::ScriptingError;
use crate::event::{Event, EventStream};
use crate::node::{IfData, Node};

verus! {

/// Every element is smaller than the ones after it.
pub open spec fn strictly_sorted(s: Seq<usize>) -> bool {
    forall|i: int, j: int| 0 <= i < j < s.len() ==> s[i] < s[j]
}

/// The slot a statement writes to: its target when that is an indexed variable.
pub open spec fn target_slot(n: Node) -> Set<usize> {
    match n {
        Node::Variable(d) => match d.id {
            Some(i) => set![i],
            None => Set::empty(),
        },
        _ => Set::empty(),
    }
}

/// The variable slots modified inside `n`: the target of an assignment, of a payment and
/// of an append, and everything modified in nested blocks. A variable that is only read
/// is not modified.
pub open spec fn written_vars(n: Node) -> Set<usize>
    decreases n,
{
    match n {
        Node::If(d) => if d.children@.len() > 0 {
            written_vars_seq(d.children@.skip(1))
        } else {
            Set::empty()
        },
        Node::Assign(d) => if d.children@.len() > 0 { target_slot(d.children@[0]) } else { Set::empty() },
        Node::Pays(d) => if d.children@.len() > 0 { target_slot(d.children@[0]) } else { Set::empty() },
        Node::Append(d) => if d.children@.len() > 0 { target_slot(d.children@[0]) } else { Set::empty() },
        Node::Base(d) => written_vars_seq(d.children@),
        Node::Add(d) => written_vars_seq(d.children@),
        Node::Subtract(d) => written_vars_seq(d.children@),
        Node::Multiply(d) => written_vars_seq(d.children@),
        Node::Divide(d) => written_vars_seq(d.children@),
        Node::Min(d) => written_vars_seq(d.children@),
        Node::Max(d) => written_vars_seq(d.children@),
        Node::Exp(d) => written_vars_seq(d.children@),
        Node::Pow(d) => written_vars_seq(d.children@),
        Node::Ln(d) => written_vars_seq(d.children@),
        Node::Fif(d) => written_vars_seq(d.children@),
        Node::Cvg(d) => written_vars_seq(d.children@),
        Node::Mean(d) => written_vars_seq(d.children@),
        Node::Std(d) => written_vars_seq(d.children@),
        Node::Index(d) => written_vars_seq(d.children@),
        Node::UnaryPlus(d) => written_vars_seq(d.children@),
        Node::UnaryMinus(d) => written_vars_seq(d.children@),
        Node::Equal(d) => written_vars_seq(d.children@),
        Node::NotEqual(d) => written_vars_seq(d.children@),
        Node::And(d) => written_vars_seq(d.children@),
        Node::Or(d) => written_vars_seq(d.children@),
        Node::Not(d) => written_vars_seq(d.children@),
        Node::Superior(d) => written_vars_seq(d.children@),
        Node::Inferior(d) => written_vars_seq(d.children@),
        Node::SuperiorOrEqual(d) => written_vars_seq(d.children@),
        Node::InferiorOrEqual(d) => written_vars_seq(d.children@),
        Node::Range(d) => written_vars_seq(d.children@),
        Node::List(d) => written_vars_seq(d.children@),
        _ => Set::empty(),
    }
}

pub open spec fn written_vars_seq(s: Seq<Node>) -> Set<usize>
    decreases s,
{
    if s.len() == 0 {
        Set::empty()
    } else {
        written_vars_seq(s.drop_last()).union(written_vars(s.last()))
    }
}

/// How many `if` blocks nest at most in `n`, as the processor walks it (`inside`: `n`
/// stands inside an `if` block).
pub open spec fn if_depth(n: Node, inside: bool) -> nat
    decreases n,
{
    match n {
        Node::If(d) => 1 + if d.children@.len() > 0 { if_depth_seq(d.children@.skip(1), true) } else { 0 },
        Node::Variable(_) => 0,
        Node::Base(d) => if_depth_seq(d.children@, inside),
        Node::Add(d) => if_depth_seq(d.children@, inside),
        Node::Subtract(d) => if_depth_seq(d.children@, inside),
        Node::Multiply(d) => if_depth_seq(d.children@, inside),
        Node::Divide(d) => if_depth_seq(d.children@, inside),
        Node::Min(d) => if_depth_seq(d.children@, inside),
        Node::Max(d) => if_depth_seq(d.children@, inside),
        Node::Exp(d) => if_depth_seq(d.children@, inside),
        Node::Pow(d) => if_depth_seq(d.children@, inside),
        Node::Ln(d) => if_depth_seq(d.children@, inside),
        Node::Fif(d) => if_depth_seq(d.children@, inside),
        Node::Cvg(d) => if_depth_seq(d.children@, inside),
        Node::Mean(d) => if_depth_seq(d.children@, inside),
        Node::Std(d) => if_depth_seq(d.children@, inside),
        Node::Index(d) => if_depth_seq(d.children@, inside),
        Node::UnaryPlus(d) => if_depth_seq(d.children@, inside),
        Node::UnaryMinus(d) => if_depth_seq(d.children@, inside),
        Node::Equal(d) => if_depth_seq(d.children@, inside),
        Node::NotEqual(d) => if_depth_seq(d.children@, inside),
        Node::And(d) => if_depth_seq(d.children@, inside),
        Node::Or(d) => if_depth_seq(d.children@, inside),
        Node::Not(d) => if_depth_seq(d.children@, inside),
        Node::Superior(d) => if_depth_seq(d.children@, inside),
        Node::Inferior(d) => if_depth_seq(d.children@, inside),
        Node::SuperiorOrEqual(d) => if_depth_seq(d.children@, inside),
        Node::InferiorOrEqual(d) => if_depth_seq(d.children@, inside),
        Node::Range(d) => if_depth_seq(d.children@, inside),
        Node::List(d) => if_depth_seq(d.children@, inside),
        _ => 0,
    }
}

pub open spec fn if_depth_seq(s: Seq<Node>, inside: bool) -> nat
    decreases s,
{
    if s.len() == 0 {
        0
    } else {
        let a = if_depth_seq(s.drop_last(), inside);
        let b = if_depth(s.last(), inside);
        if a >= b { a } else { b }
    }
}

/// The deepest nesting seen after meeting `depth` nested blocks at level `lvl`, when
/// `m` was the deepest before.
pub open spec fn raised(m: int, lvl: int, depth: int) -> int {
    if depth == 0 || m >= lvl + depth {
        m
    } else {
        lvl + depth
    }
}

/// The processor can walk `n`: it never meets a node without a list of children (a loop,
/// a market observation, a literal) where it would ask for one.
pub open spec fn if_walkable(n: Node, inside: bool) -> bool
    decreases n,
{
    match n {
        Node::If(d) => d.children@.len() > 0 ==> if_walkable_seq(d.children@.skip(1), true),
        Node::Assign(_) => true,
        Node::Pays(_) => true,
        Node::Append(_) => true,
        Node::Variable(_) => true,
        Node::Base(d) => if_walkable_seq(d.children@, inside),
        Node::Add(d) => if_walkable_seq(d.children@, inside),
        Node::Subtract(d) => if_walkable_seq(d.children@, inside),
        Node::Multiply(d) => if_walkable_seq(d.children@, inside),
        Node::Divide(d) => if_walkable_seq(d.children@, inside),
        Node::Min(d) => if_walkable_seq(d.children@, inside),
        Node::Max(d) => if_walkable_seq(d.children@, inside),
        Node::Exp(d) => if_walkable_seq(d.children@, inside),
        Node::Pow(d) => if_walkable_seq(d.children@, inside),
        Node::Ln(d) => if_walkable_seq(d.children@, inside),
        Node::Fif(d) => if_walkable_seq(d.children@, inside),
        Node::Cvg(d) => if_walkable_seq(d.children@, inside),
        Node::Mean(d) => if_walkable_seq(d.children@, inside),
        Node::Std(d) => if_walkable_seq(d.children@, inside),
        Node::Index(d) => if_walkable_seq(d.children@, inside),
        Node::UnaryPlus(d) => if_walkable_seq(d.children@, inside),
        Node::UnaryMinus(d) => if_walkable_seq(d.children@, inside),
        Node::Equal(d) => if_walkable_seq(d.children@, inside),
        Node::NotEqual(d) => if_walkable_seq(d.children@, inside),
        Node::And(d) => if_walkable_seq(d.children@, inside),
        Node::Or(d) => if_walkable_seq(d.children@, inside),
        Node::Not(d) => if_walkable_seq(d.children@, inside),
        Node::Superior(d) => if_walkable_seq(d.children@, inside),
        Node::Inferior(d) => if_walkable_seq(d.children@, inside),
        Node::SuperiorOrEqual(d) => if_walkable_seq(d.children@, inside),
        Node::InferiorOrEqual(d) => if_walkable_seq(d.children@, inside),
        Node::Range(d) => if_walkable_seq(d.children@, inside),
        Node::List(d) => if_walkable_seq(d.children@, inside),
        _ => false,
    }
}

pub open spec fn if_walkable_seq(s: Seq<Node>, inside: bool) -> bool
    decreases s,
{
    s.len() > 0 ==> if_walkable_seq(s.drop_last(), inside) && if_walkable(s.last(), inside)
}

/// `new` is `old` after processing: each `if` the processor reaches lists, sorted, the
/// slots written in its blocks; everything else is unchanged.
pub open spec fn processed(old: Node, new: Node, inside: bool) -> bool
    decreases old,
{
    match old {
        Node::If(x) => new matches Node::If(y) && y.first_else == x.first_else
            && y.children@.len() == x.children@.len() && (x.children@.len() > 0 ==> {
                &&& y.children@[0] == x.children@[0]
                &&& processed_seq(x.children@.skip(1), y.children@.skip(1), true)
            }) && (if x.affected_vars@.len() == 0 {
                strictly_sorted(y.affected_vars@) && y.affected_vars@.to_set() == written_vars(old)
            } else {
                y.affected_vars == x.affected_vars
            }),
        Node::Base(x) => new matches Node::Base(y) && processed_seq(x.children@, y.children@, inside),
        Node::Add(x) => new matches Node::Add(y) && processed_seq(x.children@, y.children@, inside),
        Node::Subtract(x) => new matches Node::Subtract(y) && processed_seq(x.children@, y.children@, inside),
        Node::Multiply(x) => new matches Node::Multiply(y) && processed_seq(x.children@, y.children@, inside),
        Node::Divide(x) => new matches Node::Divide(y) && processed_seq(x.children@, y.children@, inside),
        Node::Min(x) => new matches Node::Min(y) && processed_seq(x.children@, y.children@, inside),
        Node::Max(x) => new matches Node::Max(y) && processed_seq(x.children@, y.children@, inside),
        Node::Exp(x) => new matches Node::Exp(y) && processed_seq(x.children@, y.children@, inside),
        Node::Pow(x) => new matches Node::Pow(y) && processed_seq(x.children@, y.children@, inside),
        Node::Ln(x) => new matches Node::Ln(y) && processed_seq(x.children@, y.children@, inside),
        Node::Fif(x) => new matches Node::Fif(y) && processed_seq(x.children@, y.children@, inside),
        Node::Cvg(x) => new matches Node::Cvg(y) && processed_seq(x.children@, y.children@, inside),
        Node::Mean(x) => new matches Node::Mean(y) && processed_seq(x.children@, y.children@, inside),
        Node::Std(x) => new matches Node::Std(y) && processed_seq(x.children@, y.children@, inside),
        Node::Index(x) => new matches Node::Index(y) && processed_seq(x.children@, y.children@, inside),
        Node::UnaryPlus(x) => new matches Node::UnaryPlus(y) && processed_seq(x.children@, y.children@, inside),
        Node::UnaryMinus(x) => new matches Node::UnaryMinus(y) && processed_seq(x.children@, y.children@, inside),
        Node::Equal(x) => new matches Node::Equal(y) && processed_seq(x.children@, y.children@, inside),
        Node::NotEqual(x) => new matches Node::NotEqual(y) && processed_seq(x.children@, y.children@, inside),
        Node::And(x) => new matches Node::And(y) && processed_seq(x.children@, y.children@, inside),
        Node::Or(x) => new matches Node::Or(y) && processed_seq(x.children@, y.children@, inside),
        Node::Not(x) => new matches Node::Not(y) && processed_seq(x.children@, y.children@, inside),
        Node::Superior(x) => new matches Node::Superior(y) && processed_seq(x.children@, y.children@, inside),
        Node::Inferior(x) => new matches Node::Inferior(y) && processed_seq(x.children@, y.children@, inside),
        Node::SuperiorOrEqual(x) => new matches Node::SuperiorOrEqual(y) && processed_seq(x.children@, y.children@, inside),
        Node::InferiorOrEqual(x) => new matches Node::InferiorOrEqual(y) && processed_seq(x.children@, y.children@, inside),
        Node::Range(x) => new matches Node::Range(y) && processed_seq(x.children@, y.children@, inside),
        Node::List(x) => new matches Node::List(y) && processed_seq(x.children@, y.children@, inside),
        _ => new == old,
    }
}

pub open spec fn processed_seq(old: Seq<Node>, new: Seq<Node>, inside: bool) -> bool
    decreases old,
{
    &&& old.len() == new.len()
    &&& old.len() > 0 ==> processed_seq(old.drop_last(), new.drop_last(), inside)
        && processed(old.last(), new.last(), inside)
}


/// Processing a processed tree again finds what the first pass recorded: the tree is its own
/// processing, it writes the same slots, its `if` blocks nest as deep, and the processor
/// can walk it again wherever it could walk the first.
pub proof fn lemma_reprocessing(old: Node, new: Node, inside: bool)
    requires
        processed(old, new, inside),
    ensures
        processed(new, new, inside),
        written_vars(new) == written_vars(old),
        if_depth(new, inside) == if_depth(old, inside),
        if_walkable(old, inside) ==> if_walkable(new, inside),
    decreases old,
{
    match old {
        Node::If(x) => {
            let y = new->If_0;
            if x.children@.len() > 0 {
                lemma_reprocessing_seq(x.children@.skip(1), y.children@.skip(1), true);
            }
        },
        Node::Base(x) => {
            let y = new->Base_0;
            lemma_reprocessing_seq(x.children@, y.children@, inside);
        },
        Node::Add(x) => {
            let y = new->Add_0;
            lemma_reprocessing_seq(x.children@, y.children@, inside);
        },
        Node::Subtract(x) => {
            let y = new->Subtract_0;
            lemma_reprocessing_seq(x.children@, y.children@, inside);
        },
        Node::Multiply(x) => {
            let y = new->Multiply_0;
            lemma_reprocessing_seq(x.children@, y.children@, inside);
        },
        Node::Divide(x) => {
            let y = new->Divide_0;
            lemma_reprocessing_seq(x.children@, y.children@, inside);
        },
        Node::Min(x) => {
            let y = new->Min_0;
            lemma_reprocessing_seq(x.children@, y.children@, inside);
        },
        Node::Max(x) => {
            let y = new->Max_0;
            lemma_reprocessing_seq(x.children@, y.children@, inside);
        },
        Node::Exp(x) => {
            let y = new->Exp_0;
            lemma_reprocessing_seq(x.children@, y.children@, inside);
        },
        Node::Pow(x) => {
            let y = new->Pow_0;
            lemma_reprocessing_seq(x.children@, y.children@, inside);
        },
        Node::Ln(x) => {
            let y = new->Ln_0;
            lemma_reprocessing_seq(x.children@, y.children@, inside);
        },
        Node::Fif(x) => {
            let y = new->Fif_0;
            lemma_reprocessing_seq(x.children@, y.children@, inside);
        },
        Node::Cvg(x) => {
            let y = new->Cvg_0;
            lemma_reprocessing_seq(x.children@, y.children@, inside);
        },
        Node::Mean(x) => {
            let y = new->Mean_0;
            lemma_reprocessing_seq(x.children@, y.children@, inside);
        },
        Node::Std(x) => {
            let y = new->Std_0;
            lemma_reprocessing_seq(x.children@, y.children@, inside);
        },
        Node::Index(x) => {
            let y = new->Index_0;
            lemma_reprocessing_seq(x.children@, y.children@, inside);
        },
        Node::UnaryPlus(x) => {
            let y = new->UnaryPlus_0;
            lemma_reprocessing_seq(x.children@, y.children@, inside);
        },
        Node::UnaryMinus(x) => {
            let y = new->UnaryMinus_0;
            lemma_reprocessing_seq(x.children@, y.children@, inside);
        },
        Node::Equal(x) => {
            let y = new->Equal_0;
            lemma_reprocessing_seq(x.children@, y.children@, inside);
        },
        Node::NotEqual(x) => {
            let y = new->NotEqual_0;
            lemma_reprocessing_seq(x.children@, y.children@, inside);
        },
        Node::And(x) => {
            let y = new->And_0;
            lemma_reprocessing_seq(x.children@, y.children@, inside);
        },
        Node::Or(x) => {
            let y = new->Or_0;
            lemma_reprocessing_seq(x.children@, y.children@, inside);
        },
        Node::Not(x) => {
            let y = new->Not_0;
            lemma_reprocessing_seq(x.children@, y.children@, inside);
        },
        Node::Superior(x) => {
            let y = new->Superior_0;
            lemma_reprocessing_seq(x.children@, y.children@, inside);
        },
        Node::Inferior(x) => {
            let y = new->Inferior_0;
            lemma_reprocessing_seq(x.children@, y.children@, inside);
        },
        Node::SuperiorOrEqual(x) => {
            let y = new->SuperiorOrEqual_0;
            lemma_reprocessing_seq(x.children@, y.children@, inside);
        },
        Node::InferiorOrEqual(x) => {
            let y = new->InferiorOrEqual_0;
            lemma_reprocessing_seq(x.children@, y.children@, inside);
        },
        Node::Range(x) => {
            let y = new->Range_0;
            lemma_reprocessing_seq(x.children@, y.children@, inside);
        },
        Node::List(x) => {
            let y = new->List_0;
            lemma_reprocessing_seq(x.children@, y.children@, inside);
        },
        _ => {},
    }
}

/// `lemma_reprocessing` over a list of nodes.
pub proof fn lemma_reprocessing_seq(old: Seq<Node>, new: Seq<Node>, inside: bool)
    requires
        processed_seq(old, new, inside),
    ensures
        processed_seq(new, new, inside),
        written_vars_seq(new) == written_vars_seq(old),
        if_depth_seq(new, inside) == if_depth_seq(old, inside),
        if_walkable_seq(old, inside) ==> if_walkable_seq(new, inside),
    decreases old,
{
    if old.len() > 0 {
        lemma_reprocessing_seq(old.drop_last(), new.drop_last(), inside);
        lemma_reprocessing(old.last(), new.last(), inside);
    }
}

/// `x` is `n` itself or an `if` inside the blocks and expressions of `n` that the
/// processor walks.
pub open spec fn if_within(n: Node, x: IfData) -> bool
    decreases n,
{
    match n {
        Node::If(d) => d == x || (d.children@.len() > 0 && if_within_seq(d.children@.skip(1), x)),
        Node::Base(d) => if_within_seq(d.children@, x),
        Node::Add(d) => if_within_seq(d.children@, x),
        Node::Subtract(d) => if_within_seq(d.children@, x),
        Node::Multiply(d) => if_within_seq(d.children@, x),
        Node::Divide(d) => if_within_seq(d.children@, x),
        Node::Min(d) => if_within_seq(d.children@, x),
        Node::Max(d) => if_within_seq(d.children@, x),
        Node::Exp(d) => if_within_seq(d.children@, x),
        Node::Pow(d) => if_within_seq(d.children@, x),
        Node::Ln(d) => if_within_seq(d.children@, x),
        Node::Fif(d) => if_within_seq(d.children@, x),
        Node::Cvg(d) => if_within_seq(d.children@, x),
        Node::Mean(d) => if_within_seq(d.children@, x),
        Node::Std(d) => if_within_seq(d.children@, x),
        Node::Index(d) => if_within_seq(d.children@, x),
        Node::UnaryPlus(d) => if_within_seq(d.children@, x),
        Node::UnaryMinus(d) => if_within_seq(d.children@, x),
        Node::Equal(d) => if_within_seq(d.children@, x),
        Node::NotEqual(d) => if_within_seq(d.children@, x),
        Node::And(d) => if_within_seq(d.children@, x),
        Node::Or(d) => if_within_seq(d.children@, x),
        Node::Not(d) => if_within_seq(d.children@, x),
        Node::Superior(d) => if_within_seq(d.children@, x),
        Node::Inferior(d) => if_within_seq(d.children@, x),
        Node::SuperiorOrEqual(d) => if_within_seq(d.children@, x),
        Node::InferiorOrEqual(d) => if_within_seq(d.children@, x),
        Node::Range(d) => if_within_seq(d.children@, x),
        Node::List(d) => if_within_seq(d.children@, x),
        _ => false,
    }
}

pub open spec fn if_within_seq(s: Seq<Node>, x: IfData) -> bool
    decreases s,
{
    s.len() > 0 && (if_within_seq(s.drop_last(), x) || if_within(s.last(), x))
}

/// What an `if` inside `n` modifies is modified in `n`.
pub proof fn lemma_within_written(n: Node, x: IfData)
    requires
        if_within(n, x),
    ensures
        written_vars(Node::If(x)).subset_of(written_vars(n)),
    decreases n,
{
    match n {
        Node::If(d) => {
            if d != x {
                lemma_within_written_seq(d.children@.skip(1), x);
            }
        },
        Node::Base(d) => lemma_within_written_seq(d.children@, x),
        Node::Add(d) => lemma_within_written_seq(d.children@, x),
        Node::Subtract(d) => lemma_within_written_seq(d.children@, x),
        Node::Multiply(d) => lemma_within_written_seq(d.children@, x),
        Node::Divide(d) => lemma_within_written_seq(d.children@, x),
        Node::Min(d) => lemma_within_written_seq(d.children@, x),
        Node::Max(d) => lemma_within_written_seq(d.children@, x),
        Node::Exp(d) => lemma_within_written_seq(d.children@, x),
        Node::Pow(d) => lemma_within_written_seq(d.children@, x),
        Node::Ln(d) => lemma_within_written_seq(d.children@, x),
        Node::Fif(d) => lemma_within_written_seq(d.children@, x),
        Node::Cvg(d) => lemma_within_written_seq(d.children@, x),
        Node::Mean(d) => lemma_within_written_seq(d.children@, x),
        Node::Std(d) => lemma_within_written_seq(d.children@, x),
        Node::Index(d) => lemma_within_written_seq(d.children@, x),
        Node::UnaryPlus(d) => lemma_within_written_seq(d.children@, x),
        Node::UnaryMinus(d) => lemma_within_written_seq(d.children@, x),
        Node::Equal(d) => lemma_within_written_seq(d.children@, x),
        Node::NotEqual(d) => lemma_within_written_seq(d.children@, x),
        Node::And(d) => lemma_within_written_seq(d.children@, x),
        Node::Or(d) => lemma_within_written_seq(d.children@, x),
        Node::Not(d) => lemma_within_written_seq(d.children@, x),
        Node::Superior(d) => lemma_within_written_seq(d.children@, x),
        Node::Inferior(d) => lemma_within_written_seq(d.children@, x),
        Node::SuperiorOrEqual(d) => lemma_within_written_seq(d.children@, x),
        Node::InferiorOrEqual(d) => lemma_within_written_seq(d.children@, x),
        Node::Range(d) => lemma_within_written_seq(d.children@, x),
        Node::List(d) => lemma_within_written_seq(d.children@, x),
        _ => {},
    }
}

pub proof fn lemma_within_written_seq(s: Seq<Node>, x: IfData)
    requires
        if_within_seq(s, x),
    ensures
        written_vars(Node::If(x)).subset_of(written_vars_seq(s)),
    decreases s,
{
    if if_within_seq(s.drop_last(), x) {
        lemma_within_written_seq(s.drop_last(), x);
    } else {
        lemma_within_written(s.last(), x);
    }
}

/// No `if` the processor reaches has a list recorded yet, as in a freshly built tree.
pub open spec fn lists_unset(n: Node) -> bool
    decreases n,
{
    match n {
        Node::If(d) => d.affected_vars@.len() == 0
            && (d.children@.len() > 0 ==> lists_unset_seq(d.children@.skip(1))),
        Node::Base(d) => lists_unset_seq(d.children@),
        Node::Add(d) => lists_unset_seq(d.children@),
        Node::Subtract(d) => lists_unset_seq(d.children@),
        Node::Multiply(d) => lists_unset_seq(d.children@),
        Node::Divide(d) => lists_unset_seq(d.children@),
        Node::Min(d) => lists_unset_seq(d.children@),
        Node::Max(d) => lists_unset_seq(d.children@),
        Node::Exp(d) => lists_unset_seq(d.children@),
        Node::Pow(d) => lists_unset_seq(d.children@),
        Node::Ln(d) => lists_unset_seq(d.children@),
        Node::Fif(d) => lists_unset_seq(d.children@),
        Node::Cvg(d) => lists_unset_seq(d.children@),
        Node::Mean(d) => lists_unset_seq(d.children@),
        Node::Std(d) => lists_unset_seq(d.children@),
        Node::Index(d) => lists_unset_seq(d.children@),
        Node::UnaryPlus(d) => lists_unset_seq(d.children@),
        Node::UnaryMinus(d) => lists_unset_seq(d.children@),
        Node::Equal(d) => lists_unset_seq(d.children@),
        Node::NotEqual(d) => lists_unset_seq(d.children@),
        Node::And(d) => lists_unset_seq(d.children@),
        Node::Or(d) => lists_unset_seq(d.children@),
        Node::Not(d) => lists_unset_seq(d.children@),
        Node::Superior(d) => lists_unset_seq(d.children@),
        Node::Inferior(d) => lists_unset_seq(d.children@),
        Node::SuperiorOrEqual(d) => lists_unset_seq(d.children@),
        Node::InferiorOrEqual(d) => lists_unset_seq(d.children@),
        Node::Range(d) => lists_unset_seq(d.children@),
        Node::List(d) => lists_unset_seq(d.children@),
        _ => true,
    }
}

pub open spec fn lists_unset_seq(s: Seq<Node>) -> bool
    decreases s,
{
    s.len() > 0 ==> lists_unset_seq(s.drop_last()) && lists_unset(s.last())
}

/// The deepest nesting of a list is that of its deepest element: at least each element's,
/// and that of some element (0 for an empty list).
proof fn lemma_if_depth_seq_max(s: Seq<Node>, inside: bool)
    ensures
        forall|k: int| 0 <= k < s.len() ==> if_depth(#[trigger] s[k], inside) <= if_depth_seq(s, inside),
        s.len() == 0 ==> if_depth_seq(s, inside) == 0,
        s.len() > 0 ==> exists|k: int| 0 <= k < s.len() && if_depth_seq(s, inside) == if_depth(#[trigger] s[k], inside),
    decreases s.len(),
{
    if s.len() > 0 {
        let dl = s.drop_last();
        lemma_if_depth_seq_max(dl, inside);
        assert forall|k: int| 0 <= k < s.len() implies if_depth(#[trigger] s[k], inside) <= if_depth_seq(s, inside) by {
            if k < dl.len() {
                assert(dl[k] == s[k]);
            }
        }
        if dl.len() > 0 && if_depth_seq(dl, inside) >= if_depth(s.last(), inside) {
            let k = choose|k: int| 0 <= k < dl.len() && if_depth_seq(dl, inside) == if_depth(#[trigger] dl[k], inside);
            assert(dl[k] == s[k]);
        } else {
            assert(if_depth_seq(s, inside) == if_depth(s[s.len() - 1], inside));
        }
    }
}

/// An `if` nests one level deeper than the deepest statement of its blocks: its depth is
/// one more than that of each statement of its blocks, reached by one of them, and 1 when
/// its blocks hold no `if`.
pub proof fn lemma_if_depth_of_if(x: IfData, inside: bool)
    ensures
        forall|k: int| 1 <= k < x.children@.len() ==> if_depth(Node::If(x), inside) >= 1 + if_depth(#[trigger] x.children@[k], true),
        if_depth(Node::If(x), inside) == 1 || exists|k: int| 1 <= k < x.children@.len()
            && if_depth(Node::If(x), inside) == 1 + if_depth(#[trigger] x.children@[k], true),
        if_depth(Node::If(x), inside) >= 1,
{
    if x.children@.len() > 0 {
        let b = x.children@.skip(1);
        lemma_if_depth_seq_max(b, true);
        assert forall|k: int| 1 <= k < x.children@.len() implies if_depth(Node::If(x), inside) >= 1 + if_depth(#[trigger] x.children@[k], true) by {
            assert(b[k - 1] == x.children@[k]);
        }
        if b.len() > 0 {
            let k = choose|k: int| 0 <= k < b.len() && if_depth_seq(b, true) == if_depth(#[trigger] b[k], true);
            assert(b[k] == x.children@[k + 1]);
        }
    }
}

/// Statement `st` writes slot `i`: it is an assignment, a payment or an append whose first
/// child is the variable held at slot `i`.
pub open spec fn writes_slot(st: Node, i: usize) -> bool {
    let target = match st {
        Node::Assign(d) => d.children@,
        Node::Pays(d) => d.children@,
        Node::Append(d) => d.children@,
        _ => Seq::empty(),
    };
    target.len() > 0 && (target[0] matches Node::Variable(v) && v.id == Some(i))
}

/// Every statement of an `if`'s blocks that writes a variable is recorded: after processing
/// an `if` with no list yet, its list holds the slot written by each assignment, payment and
/// append that stands in its blocks.
pub proof fn lemma_statement_targets_recorded(old: Node, new: Node, inside: bool, k: int, i: usize)
    requires
        processed(old, new, inside),
        old is If,
        old->If_0.affected_vars@.len() == 0,
        1 <= k < old->If_0.children@.len(),
        writes_slot(old->If_0.children@[k], i),
    ensures
        new is If,
        new->If_0.affected_vars@.contains(i),
{
    let x = old->If_0;
    lemma_nested_if_vars(x, k);
    assert(written_vars(x.children@[k]).contains(i));
    assert(new->If_0.affected_vars@.to_set().contains(i));
}

/// Processing a tree with no list recorded yet leaves every `if` it reaches listing exactly
/// the slots its blocks modify, sorted.
pub proof fn lemma_recorded(old: Node, new: Node, inside: bool, x: IfData)
    requires
        processed(old, new, inside),
        lists_unset(old),
        if_within(new, x),
    ensures
        x.affected_vars@.to_set() == written_vars(Node::If(x)),
        strictly_sorted(x.affected_vars@),
    decreases old,
{
    lemma_reprocessing(old, new, inside);
    match old {
        Node::If(xo) => {
            let y = new->If_0;
            if y != x {
                lemma_recorded_seq(xo.children@.skip(1), y.children@.skip(1), true, x);
            }
        },
        Node::Base(xo) => {
            let y = new->Base_0;
            lemma_recorded_seq(xo.children@, y.children@, inside, x);
        },
        Node::Add(xo) => {
            let y = new->Add_0;
            lemma_recorded_seq(xo.children@, y.children@, inside, x);
        },
        Node::Subtract(xo) => {
            let y = new->Subtract_0;
            lemma_recorded_seq(xo.children@, y.children@, inside, x);
        },
        Node::Multiply(xo) => {
            let y = new->Multiply_0;
            lemma_recorded_seq(xo.children@, y.children@, inside, x);
        },
        Node::Divide(xo) => {
            let y = new->Divide_0;
            lemma_recorded_seq(xo.children@, y.children@, inside, x);
        },
        Node::Min(xo) => {
            let y = new->Min_0;
            lemma_recorded_seq(xo.children@, y.children@, inside, x);
        },
        Node::Max(xo) => {
            let y = new->Max_0;
            lemma_recorded_seq(xo.children@, y.children@, inside, x);
        },
        Node::Exp(xo) => {
            let y = new->Exp_0;
            lemma_recorded_seq(xo.children@, y.children@, inside, x);
        },
        Node::Pow(xo) => {
            let y = new->Pow_0;
            lemma_recorded_seq(xo.children@, y.children@, inside, x);
        },
        Node::Ln(xo) => {
            let y = new->Ln_0;
            lemma_recorded_seq(xo.children@, y.children@, inside, x);
        },
        Node::Fif(xo) => {
            let y = new->Fif_0;
            lemma_recorded_seq(xo.children@, y.children@, inside, x);
        },
        Node::Cvg(xo) => {
            let y = new->Cvg_0;
            lemma_recorded_seq(xo.children@, y.children@, inside, x);
        },
        Node::Mean(xo) => {
            let y = new->Mean_0;
            lemma_recorded_seq(xo.children@, y.children@, inside, x);
        },
        Node::Std(xo) => {
            let y = new->Std_0;
            lemma_recorded_seq(xo.children@, y.children@, inside, x);
        },
        Node::Index(xo) => {
            let y = new->Index_0;
            lemma_recorded_seq(xo.children@, y.children@, inside, x);
        },
        Node::UnaryPlus(xo) => {
            let y = new->UnaryPlus_0;
            lemma_recorded_seq(xo.children@, y.children@, inside, x);
        },
        Node::UnaryMinus(xo) => {
            let y = new->UnaryMinus_0;
            lemma_recorded_seq(xo.children@, y.children@, inside, x);
        },
        Node::Equal(xo) => {
            let y = new->Equal_0;
            lemma_recorded_seq(xo.children@, y.children@, inside, x);
        },
        Node::NotEqual(xo) => {
            let y = new->NotEqual_0;
            lemma_recorded_seq(xo.children@, y.children@, inside, x);
        },
        Node::And(xo) => {
            let y = new->And_0;
            lemma_recorded_seq(xo.children@, y.children@, inside, x);
        },
        Node::Or(xo) => {
            let y = new->Or_0;
            lemma_recorded_seq(xo.children@, y.children@, inside, x);
        },
        Node::Not(xo) => {
            let y = new->Not_0;
            lemma_recorded_seq(xo.children@, y.children@, inside, x);
        },
        Node::Superior(xo) => {
            let y = new->Superior_0;
            lemma_recorded_seq(xo.children@, y.children@, inside, x);
        },
        Node::Inferior(xo) => {
            let y = new->Inferior_0;
            lemma_recorded_seq(xo.children@, y.children@, inside, x);
        },
        Node::SuperiorOrEqual(xo) => {
            let y = new->SuperiorOrEqual_0;
            lemma_recorded_seq(xo.children@, y.children@, inside, x);
        },
        Node::InferiorOrEqual(xo) => {
            let y = new->InferiorOrEqual_0;
            lemma_recorded_seq(xo.children@, y.children@, inside, x);
        },
        Node::Range(xo) => {
            let y = new->Range_0;
            lemma_recorded_seq(xo.children@, y.children@, inside, x);
        },
        Node::List(xo) => {
            let y = new->List_0;
            lemma_recorded_seq(xo.children@, y.children@, inside, x);
        },
        _ => {},
    }
}

pub proof fn lemma_recorded_seq(old: Seq<Node>, new: Seq<Node>, inside: bool, x: IfData)
    requires
        processed_seq(old, new, inside),
        lists_unset_seq(old),
        if_within_seq(new, x),
    ensures
        x.affected_vars@.to_set() == written_vars(Node::If(x)),
        strictly_sorted(x.affected_vars@),
    decreases old,
{
    if if_within_seq(new.drop_last(), x) {
        lemma_recorded_seq(old.drop_last(), new.drop_last(), inside, x);
    } else {
        lemma_recorded(old.last(), new.last(), inside, x);
    }
}

/// After processing a tree with no list recorded yet, the list of an `if` nested (at any
/// depth) in the blocks of another `if` is contained in the list of the outer one.
pub proof fn lemma_nested_lists(old: Node, new: Node, inside: bool, outer: IfData, inner: IfData)
    requires
        processed(old, new, inside),
        lists_unset(old),
        if_within(new, outer),
        if_within(new, inner),
        outer.children@.len() > 0,
        if_within_seq(outer.children@.skip(1), inner),
    ensures
        inner.affected_vars@.to_set().subset_of(outer.affected_vars@.to_set()),
{
    lemma_recorded(old, new, inside, outer);
    lemma_recorded(old, new, inside, inner);
    lemma_within_written_seq(outer.children@.skip(1), inner);
}

/// Two strictly sorted lists of the same slots are the same list.
pub proof fn lemma_sorted_unique(a: Seq<usize>, b: Seq<usize>)
    requires
        strictly_sorted(a),
        strictly_sorted(b),
        a.to_set() == b.to_set(),
    ensures
        a == b,
    decreases a.len(),
{
    if a.len() == 0 {
        if b.len() > 0 {
            assert(b.to_set().contains(b[0]));
        }
    } else if b.len() == 0 {
        assert(a.to_set().contains(a[0]));
    } else {
        let la = a.last();
        let lb = b.last();
        assert(b.to_set().contains(la));
        let j = choose|j: int| 0 <= j < b.len() && b[j] == la;
        assert(a.to_set().contains(lb));
        let k = choose|k: int| 0 <= k < a.len() && a[k] == lb;
        assert(la == lb);
        let da = a.drop_last();
        let db = b.drop_last();
        assert(da.to_set() =~= db.to_set()) by {
            assert forall|y: usize| da.to_set().contains(y) implies db.to_set().contains(y) by {
                let i = choose|i: int| 0 <= i < da.len() && da[i] == y;
                assert(b.to_set().contains(y));
                let i2 = choose|i2: int| 0 <= i2 < b.len() && b[i2] == y;
                assert(i2 < b.len() - 1);
                assert(db[i2] == y);
            }
            assert forall|y: usize| db.to_set().contains(y) implies da.to_set().contains(y) by {
                let i = choose|i: int| 0 <= i < db.len() && db[i] == y;
                assert(a.to_set().contains(y));
                let i2 = choose|i2: int| 0 <= i2 < a.len() && a[i2] == y;
                assert(i2 < a.len() - 1);
                assert(da[i2] == y);
            }
        }
        lemma_sorted_unique(da, db);
        assert(a =~= da.push(la));
        assert(b =~= db.push(lb));
    }
}

/// `b` carries the same `if` lists as `a` wherever the processor reaches, and is equal to
/// it elsewhere.
pub open spec fn same_lists(a: Node, b: Node) -> bool
    decreases a,
{
    match a {
        Node::If(x) => b matches Node::If(y) && y.first_else == x.first_else
            && y.affected_vars@ == x.affected_vars@ && y.children@.len() == x.children@.len()
            && (x.children@.len() > 0 ==> {
                &&& y.children@[0] == x.children@[0]
                &&& same_lists_seq(x.children@.skip(1), y.children@.skip(1))
            }),
        Node::Base(x) => b matches Node::Base(y) && same_lists_seq(x.children@, y.children@),
        Node::Add(x) => b matches Node::Add(y) && same_lists_seq(x.children@, y.children@),
        Node::Subtract(x) => b matches Node::Subtract(y) && same_lists_seq(x.children@, y.children@),
        Node::Multiply(x) => b matches Node::Multiply(y) && same_lists_seq(x.children@, y.children@),
        Node::Divide(x) => b matches Node::Divide(y) && same_lists_seq(x.children@, y.children@),
        Node::Min(x) => b matches Node::Min(y) && same_lists_seq(x.children@, y.children@),
        Node::Max(x) => b matches Node::Max(y) && same_lists_seq(x.children@, y.children@),
        Node::Exp(x) => b matches Node::Exp(y) && same_lists_seq(x.children@, y.children@),
        Node::Pow(x) => b matches Node::Pow(y) && same_lists_seq(x.children@, y.children@),
        Node::Ln(x) => b matches Node::Ln(y) && same_lists_seq(x.children@, y.children@),
        Node::Fif(x) => b matches Node::Fif(y) && same_lists_seq(x.children@, y.children@),
        Node::Cvg(x) => b matches Node::Cvg(y) && same_lists_seq(x.children@, y.children@),
        Node::Mean(x) => b matches Node::Mean(y) && same_lists_seq(x.children@, y.children@),
        Node::Std(x) => b matches Node::Std(y) && same_lists_seq(x.children@, y.children@),
        Node::Index(x) => b matches Node::Index(y) && same_lists_seq(x.children@, y.children@),
        Node::UnaryPlus(x) => b matches Node::UnaryPlus(y) && same_lists_seq(x.children@, y.children@),
        Node::UnaryMinus(x) => b matches Node::UnaryMinus(y) && same_lists_seq(x.children@, y.children@),
        Node::Equal(x) => b matches Node::Equal(y) && same_lists_seq(x.children@, y.children@),
        Node::NotEqual(x) => b matches Node::NotEqual(y) && same_lists_seq(x.children@, y.children@),
        Node::And(x) => b matches Node::And(y) && same_lists_seq(x.children@, y.children@),
        Node::Or(x) => b matches Node::Or(y) && same_lists_seq(x.children@, y.children@),
        Node::Not(x) => b matches Node::Not(y) && same_lists_seq(x.children@, y.children@),
        Node::Superior(x) => b matches Node::Superior(y) && same_lists_seq(x.children@, y.children@),
        Node::Inferior(x) => b matches Node::Inferior(y) && same_lists_seq(x.children@, y.children@),
        Node::SuperiorOrEqual(x) => b matches Node::SuperiorOrEqual(y) && same_lists_seq(x.children@, y.children@),
        Node::InferiorOrEqual(x) => b matches Node::InferiorOrEqual(y) && same_lists_seq(x.children@, y.children@),
        Node::Range(x) => b matches Node::Range(y) && same_lists_seq(x.children@, y.children@),
        Node::List(x) => b matches Node::List(y) && same_lists_seq(x.children@, y.children@),
        _ => b == a,
    }
}

pub open spec fn same_lists_seq(a: Seq<Node>, b: Seq<Node>) -> bool
    decreases a,
{
    &&& a.len() == b.len()
    &&& a.len() > 0 ==> same_lists_seq(a.drop_last(), b.drop_last()) && same_lists(a.last(), b.last())
}

/// Processing a processed tree again leaves every list the first pass stored as it was.
pub proof fn lemma_second_pass(old: Node, new: Node, new2: Node, inside: bool)
    requires
        processed(old, new, inside),
        processed(new, new2, inside),
    ensures
        same_lists(new, new2),
    decreases old,
{
    lemma_reprocessing(old, new, inside);
    match old {
        Node::If(x) => {
            let y = new->If_0;
            let z = new2->If_0;
            if x.children@.len() > 0 {
                lemma_second_pass_seq(x.children@.skip(1), y.children@.skip(1), z.children@.skip(1), true);
            }
            if y.affected_vars@.len() == 0 {
                lemma_sorted_unique(y.affected_vars@, z.affected_vars@);
            }
        },
        Node::Base(x) => {
            let y = new->Base_0;
            let z = new2->Base_0;
            lemma_second_pass_seq(x.children@, y.children@, z.children@, inside);
        },
        Node::Add(x) => {
            let y = new->Add_0;
            let z = new2->Add_0;
            lemma_second_pass_seq(x.children@, y.children@, z.children@, inside);
        },
        Node::Subtract(x) => {
            let y = new->Subtract_0;
            let z = new2->Subtract_0;
            lemma_second_pass_seq(x.children@, y.children@, z.children@, inside);
        },
        Node::Multiply(x) => {
            let y = new->Multiply_0;
            let z = new2->Multiply_0;
            lemma_second_pass_seq(x.children@, y.children@, z.children@, inside);
        },
        Node::Divide(x) => {
            let y = new->Divide_0;
            let z = new2->Divide_0;
            lemma_second_pass_seq(x.children@, y.children@, z.children@, inside);
        },
        Node::Min(x) => {
            let y = new->Min_0;
            let z = new2->Min_0;
            lemma_second_pass_seq(x.children@, y.children@, z.children@, inside);
        },
        Node::Max(x) => {
            let y = new->Max_0;
            let z = new2->Max_0;
            lemma_second_pass_seq(x.children@, y.children@, z.children@, inside);
        },
        Node::Exp(x) => {
            let y = new->Exp_0;
            let z = new2->Exp_0;
            lemma_second_pass_seq(x.children@, y.children@, z.children@, inside);
        },
        Node::Pow(x) => {
            let y = new->Pow_0;
            let z = new2->Pow_0;
            lemma_second_pass_seq(x.children@, y.children@, z.children@, inside);
        },
        Node::Ln(x) => {
            let y = new->Ln_0;
            let z = new2->Ln_0;
            lemma_second_pass_seq(x.children@, y.children@, z.children@, inside);
        },
        Node::Fif(x) => {
            let y = new->Fif_0;
            let z = new2->Fif_0;
            lemma_second_pass_seq(x.children@, y.children@, z.children@, inside);
        },
        Node::Cvg(x) => {
            let y = new->Cvg_0;
            let z = new2->Cvg_0;
            lemma_second_pass_seq(x.children@, y.children@, z.children@, inside);
        },
        Node::Mean(x) => {
            let y = new->Mean_0;
            let z = new2->Mean_0;
            lemma_second_pass_seq(x.children@, y.children@, z.children@, inside);
        },
        Node::Std(x) => {
            let y = new->Std_0;
            let z = new2->Std_0;
            lemma_second_pass_seq(x.children@, y.children@, z.children@, inside);
        },
        Node::Index(x) => {
            let y = new->Index_0;
            let z = new2->Index_0;
            lemma_second_pass_seq(x.children@, y.children@, z.children@, inside);
        },
        Node::UnaryPlus(x) => {
            let y = new->UnaryPlus_0;
            let z = new2->UnaryPlus_0;
            lemma_second_pass_seq(x.children@, y.children@, z.children@, inside);
        },
        Node::UnaryMinus(x) => {
            let y = new->UnaryMinus_0;
            let z = new2->UnaryMinus_0;
            lemma_second_pass_seq(x.children@, y.children@, z.children@, inside);
        },
        Node::Equal(x) => {
            let y = new->Equal_0;
            let z = new2->Equal_0;
            lemma_second_pass_seq(x.children@, y.children@, z.children@, inside);
        },
        Node::NotEqual(x) => {
            let y = new->NotEqual_0;
            let z = new2->NotEqual_0;
            lemma_second_pass_seq(x.children@, y.children@, z.children@, inside);
        },
        Node::And(x) => {
            let y = new->And_0;
            let z = new2->And_0;
            lemma_second_pass_seq(x.children@, y.children@, z.children@, inside);
        },
        Node::Or(x) => {
            let y = new->Or_0;
            let z = new2->Or_0;
            lemma_second_pass_seq(x.children@, y.children@, z.children@, inside);
        },
        Node::Not(x) => {
            let y = new->Not_0;
            let z = new2->Not_0;
            lemma_second_pass_seq(x.children@, y.children@, z.children@, inside);
        },
        Node::Superior(x) => {
            let y = new->Superior_0;
            let z = new2->Superior_0;
            lemma_second_pass_seq(x.children@, y.children@, z.children@, inside);
        },
        Node::Inferior(x) => {
            let y = new->Inferior_0;
            let z = new2->Inferior_0;
            lemma_second_pass_seq(x.children@, y.children@, z.children@, inside);
        },
        Node::SuperiorOrEqual(x) => {
            let y = new->SuperiorOrEqual_0;
            let z = new2->SuperiorOrEqual_0;
            lemma_second_pass_seq(x.children@, y.children@, z.children@, inside);
        },
        Node::InferiorOrEqual(x) => {
            let y = new->InferiorOrEqual_0;
            let z = new2->InferiorOrEqual_0;
            lemma_second_pass_seq(x.children@, y.children@, z.children@, inside);
        },
        Node::Range(x) => {
            let y = new->Range_0;
            let z = new2->Range_0;
            lemma_second_pass_seq(x.children@, y.children@, z.children@, inside);
        },
        Node::List(x) => {
            let y = new->List_0;
            let z = new2->List_0;
            lemma_second_pass_seq(x.children@, y.children@, z.children@, inside);
        },
        _ => {},
    }
}

pub proof fn lemma_second_pass_seq(old: Seq<Node>, new: Seq<Node>, new2: Seq<Node>, inside: bool)
    requires
        processed_seq(old, new, inside),
        processed_seq(new, new2, inside),
    ensures
        same_lists_seq(new, new2),
    decreases old,
{
    if old.len() > 0 {
        lemma_second_pass_seq(old.drop_last(), new.drop_last(), new2.drop_last(), inside);
        lemma_second_pass(old.last(), new.last(), new2.last(), inside);
    }
}

/// The deepest nesting after processing the expressions of `evs` one at a time, each from
/// the nesting left by the ones before, starting from `m`.
pub open spec fn raised_each(m: int, evs: Seq<Event>) -> int
    decreases evs.len(),
{
    if evs.len() == 0 {
        m
    } else {
        raised(raised_each(m, evs.drop_last()), 0, if_depth(evs.last().expr, false) as int)
    }
}

/// Processing a stream raises the deepest nesting exactly as processing its expressions
/// one after another does.
pub proof fn lemma_stream_is_each(m: int, evs: Seq<Event>)
    ensures
        raised(m, 0, events_if_depth(evs) as int) == raised_each(m, evs),
    decreases evs.len(),
{
    if evs.len() > 0 {
        lemma_stream_is_each(m, evs.drop_last());
    }
}

/// Processing gives one result: two processings of a tree carry the same lists and agree
/// elsewhere.
pub proof fn lemma_processing_unique(old: Node, a: Node, b: Node, inside: bool)
    requires
        processed(old, a, inside),
        processed(old, b, inside),
    ensures
        same_lists(a, b),
    decreases old,
{
    match old {
        Node::If(x) => {
            let y = a->If_0;
            let z = b->If_0;
            if x.children@.len() > 0 {
                lemma_processing_unique_seq(x.children@.skip(1), y.children@.skip(1), z.children@.skip(1), true);
            }
            if x.affected_vars@.len() == 0 {
                lemma_sorted_unique(y.affected_vars@, z.affected_vars@);
            }
        },
        Node::Base(x) => {
            let y = a->Base_0;
            let z = b->Base_0;
            lemma_processing_unique_seq(x.children@, y.children@, z.children@, inside);
        },
        Node::Add(x) => {
            let y = a->Add_0;
            let z = b->Add_0;
            lemma_processing_unique_seq(x.children@, y.children@, z.children@, inside);
        },
        Node::Subtract(x) => {
            let y = a->Subtract_0;
            let z = b->Subtract_0;
            lemma_processing_unique_seq(x.children@, y.children@, z.children@, inside);
        },
        Node::Multiply(x) => {
            let y = a->Multiply_0;
            let z = b->Multiply_0;
            lemma_processing_unique_seq(x.children@, y.children@, z.children@, inside);
        },
        Node::Divide(x) => {
            let y = a->Divide_0;
            let z = b->Divide_0;
            lemma_processing_unique_seq(x.children@, y.children@, z.children@, inside);
        },
        Node::Min(x) => {
            let y = a->Min_0;
            let z = b->Min_0;
            lemma_processing_unique_seq(x.children@, y.children@, z.children@, inside);
        },
        Node::Max(x) => {
            let y = a->Max_0;
            let z = b->Max_0;
            lemma_processing_unique_seq(x.children@, y.children@, z.children@, inside);
        },
        Node::Exp(x) => {
            let y = a->Exp_0;
            let z = b->Exp_0;
            lemma_processing_unique_seq(x.children@, y.children@, z.children@, inside);
        },
        Node::Pow(x) => {
            let y = a->Pow_0;
            let z = b->Pow_0;
            lemma_processing_unique_seq(x.children@, y.children@, z.children@, inside);
        },
        Node::Ln(x) => {
            let y = a->Ln_0;
            let z = b->Ln_0;
            lemma_processing_unique_seq(x.children@, y.children@, z.children@, inside);
        },
        Node::Fif(x) => {
            let y = a->Fif_0;
            let z = b->Fif_0;
            lemma_processing_unique_seq(x.children@, y.children@, z.children@, inside);
        },
        Node::Cvg(x) => {
            let y = a->Cvg_0;
            let z = b->Cvg_0;
            lemma_processing_unique_seq(x.children@, y.children@, z.children@, inside);
        },
        Node::Mean(x) => {
            let y = a->Mean_0;
            let z = b->Mean_0;
            lemma_processing_unique_seq(x.children@, y.children@, z.children@, inside);
        },
        Node::Std(x) => {
            let y = a->Std_0;
            let z = b->Std_0;
            lemma_processing_unique_seq(x.children@, y.children@, z.children@, inside);
        },
        Node::Index(x) => {
            let y = a->Index_0;
            let z = b->Index_0;
            lemma_processing_unique_seq(x.children@, y.children@, z.children@, inside);
        },
        Node::UnaryPlus(x) => {
            let y = a->UnaryPlus_0;
            let z = b->UnaryPlus_0;
            lemma_processing_unique_seq(x.children@, y.children@, z.children@, inside);
        },
        Node::UnaryMinus(x) => {
            let y = a->UnaryMinus_0;
            let z = b->UnaryMinus_0;
            lemma_processing_unique_seq(x.children@, y.children@, z.children@, inside);
        },
        Node::Equal(x) => {
            let y = a->Equal_0;
            let z = b->Equal_0;
            lemma_processing_unique_seq(x.children@, y.children@, z.children@, inside);
        },
        Node::NotEqual(x) => {
            let y = a->NotEqual_0;
            let z = b->NotEqual_0;
            lemma_processing_unique_seq(x.children@, y.children@, z.children@, inside);
        },
        Node::And(x) => {
            let y = a->And_0;
            let z = b->And_0;
            lemma_processing_unique_seq(x.children@, y.children@, z.children@, inside);
        },
        Node::Or(x) => {
            let y = a->Or_0;
            let z = b->Or_0;
            lemma_processing_unique_seq(x.children@, y.children@, z.children@, inside);
        },
        Node::Not(x) => {
            let y = a->Not_0;
            let z = b->Not_0;
            lemma_processing_unique_seq(x.children@, y.children@, z.children@, inside);
        },
        Node::Superior(x) => {
            let y = a->Superior_0;
            let z = b->Superior_0;
            lemma_processing_unique_seq(x.children@, y.children@, z.children@, inside);
        },
        Node::Inferior(x) => {
            let y = a->Inferior_0;
            let z = b->Inferior_0;
            lemma_processing_unique_seq(x.children@, y.children@, z.children@, inside);
        },
        Node::SuperiorOrEqual(x) => {
            let y = a->SuperiorOrEqual_0;
            let z = b->SuperiorOrEqual_0;
            lemma_processing_unique_seq(x.children@, y.children@, z.children@, inside);
        },
        Node::InferiorOrEqual(x) => {
            let y = a->InferiorOrEqual_0;
            let z = b->InferiorOrEqual_0;
            lemma_processing_unique_seq(x.children@, y.children@, z.children@, inside);
        },
        Node::Range(x) => {
            let y = a->Range_0;
            let z = b->Range_0;
            lemma_processing_unique_seq(x.children@, y.children@, z.children@, inside);
        },
        Node::List(x) => {
            let y = a->List_0;
            let z = b->List_0;
            lemma_processing_unique_seq(x.children@, y.children@, z.children@, inside);
        },
        _ => {},
    }
}

pub proof fn lemma_processing_unique_seq(old: Seq<Node>, a: Seq<Node>, b: Seq<Node>, inside: bool)
    requires
        processed_seq(old, a, inside),
        processed_seq(old, b, inside),
    ensures
        same_lists_seq(a, b),
    decreases old,
{
    if old.len() > 0 {
        lemma_processing_unique_seq(old.drop_last(), a.drop_last(), b.drop_last(), inside);
        lemma_processing_unique(old.last(), a.last(), b.last(), inside);
    }
}

/// Processing a stream is processing its expressions one at a time: whatever single-tree
/// processings `singles` of the events' expressions give, they carry the same lists as the
/// stream's results `streamed`, and the deepest nesting is raised as by those passes in
/// turn.
pub proof fn lemma_stream_equals_each(m: int, old: Seq<Event>, streamed: Seq<Event>, singles: Seq<Node>)
    requires
        streamed.len() == old.len(),
        singles.len() == old.len(),
        forall|i: int| 0 <= i < old.len() ==> #[trigger] event_processed(old[i], streamed[i]),
        forall|i: int| 0 <= i < old.len() ==> processed(old[i].expr, #[trigger] singles[i], false),
    ensures
        forall|i: int| 0 <= i < old.len() ==> #[trigger] same_lists(streamed[i].expr, singles[i])
            && streamed[i].event_date == old[i].event_date,
        raised(m, 0, events_if_depth(old) as int) == raised_each(m, old),
{
    assert forall|i: int| 0 <= i < old.len() implies #[trigger] same_lists(streamed[i].expr, singles[i])
        && streamed[i].event_date == old[i].event_date by {
        assert(event_processed(old[i], streamed[i]));
        lemma_processing_unique(old[i].expr, streamed[i].expr, singles[i], false);
    }
    lemma_stream_is_each(m, old);
}

/// `n` is the event `o` after processing: same date, processed expression.
pub open spec fn event_processed(o: Event, n: Event) -> bool {
    n.event_date == o.event_date && processed(o.expr, n.expr, false)
}

/// Deepest `if` nesting over the expressions of a stream of events.
pub open spec fn events_if_depth(evs: Seq<Event>) -> nat
    decreases evs.len(),
{
    if evs.len() == 0 {
        0
    } else {
        let a = events_if_depth(evs.drop_last());
        let b = if_depth(evs.last().expr, false);
        if a >= b { a } else { b }
    }
}

proof fn lemma_events_depth_prefix(s: Seq<Event>, k: int)
    requires
        0 <= k <= s.len(),
    ensures
        events_if_depth(s.take(k)) <= events_if_depth(s),
        k > 0 ==> if_depth(s[k - 1].expr, false) <= events_if_depth(s),
    decreases s.len(),
{
    if k == s.len() {
        assert(s.take(k) =~= s);
    } else {
        assert(s.drop_last().take(k) =~= s.take(k));
        lemma_events_depth_prefix(s.drop_last(), k);
    }
}

/// What a block writes includes what each of its statements writes.
pub proof fn lemma_written_vars_seq_member(s: Seq<Node>, k: int)
    requires
        0 <= k < s.len(),
    ensures
        written_vars(s[k]).subset_of(written_vars_seq(s)),
    decreases s.len(),
{
    if k < s.len() - 1 {
        assert(s.drop_last()[k] == s[k]);
        lemma_written_vars_seq_member(s.drop_last(), k);
    }
}

/// The slots an `if` records include those written by every statement of its blocks, and
/// so those recorded by every `if` nested in them.
pub proof fn lemma_nested_if_vars(x: IfData, k: int)
    requires
        1 <= k < x.children@.len(),
    ensures
        written_vars(x.children@[k]).subset_of(written_vars(Node::If(x))),
{
    assert(x.children@.skip(1)[k - 1] == x.children@[k]);
    lemma_written_vars_seq_member(x.children@.skip(1), k - 1);
}

/// Adds `x` to a strictly sorted list of slots.
fn insert_sorted(v: &mut Vec<usize>, x: usize)
    requires
        strictly_sorted(old(v)@),
    ensures
        strictly_sorted(final(v)@),
        final(v)@.to_set() == old(v)@.to_set().insert(x),
{
    let ghost o = v@;
    let mut i: usize = 0;
    while i < v.len() && v[i] < x
        invariant
            v@ == o,
            strictly_sorted(o),
            i <= o.len(),
            forall|j: int| 0 <= j < i ==> o[j] < x,
        decreases o.len() - i,
    {
        i = i + 1;
    }
    if i < v.len() && v[i] == x {
        assert(o.contains(x));
        assert(o.to_set().insert(x) =~= o.to_set());
        return;
    }
    v.insert(i, x);
    assert(v@ == o.insert(i as int, x));
    assert forall|a: int, b: int| 0 <= a < b < v@.len() implies v@[a] < v@[b] by {
        if b < i {
        } else if b == i {
        } else if a < i {
            assert(v@[b] == o[b - 1]);
            assert(o[i as int] > x);
        } else if a == i {
            assert(v@[b] == o[b - 1]);
            assert(o[i as int] > x);
            if b - 1 > i {
                assert(o[i as int] < o[b - 1]);
            }
        } else {
            assert(v@[a] == o[a - 1]);
            assert(v@[b] == o[b - 1]);
        }
    }
    assert forall|y: usize| v@.to_set().contains(y) == o.to_set().insert(x).contains(y) by {
        if v@.contains(y) {
            let k = choose|k: int| 0 <= k < v@.len() && #[trigger] v@[k] == y;
            if k < i {
                assert(o[k] == y);
            } else if k > i {
                assert(o[k - 1] == y);
            }
        }
        if o.contains(y) {
            let k = choose|k: int| 0 <= k < o.len() && #[trigger] o[k] == y;
            if k < i {
                assert(v@[k] == y);
            } else {
                assert(v@[k + 1] == y);
            }
        }
        if y == x {
            assert(v@[i as int] == x);
        }
    }
    assert(v@.to_set() =~= o.to_set().insert(x));
}

/// Adds every slot of `src` to the strictly sorted list `dst`.
fn union_into(dst: &mut Vec<usize>, src: &Vec<usize>)
    requires
        strictly_sorted(old(dst)@),
    ensures
        strictly_sorted(final(dst)@),
        final(dst)@.to_set() == old(dst)@.to_set().union(src@.to_set()),
{
    let mut i: usize = 0;
    while i < src.len()
        invariant
            i <= src@.len(),
            strictly_sorted(dst@),
            dst@.to_set() == old(dst)@.to_set().union(src@.take(i as int).to_set()),
        decreases src@.len() - i,
    {
        insert_sorted(dst, src[i]);
        assert(src@.take(i + 1).to_set() =~= src@.take(i as int).to_set().insert(src@[i as int])) by {
            assert forall|y: usize| src@.take(i + 1).contains(y) implies src@.take(i as int).contains(y) || y == src@[i as int] by {
                let k = choose|k: int| 0 <= k < i + 1 && #[trigger] src@.take(i + 1)[k] == y;
                if k < i {
                    assert(src@.take(i as int)[k] == y);
                }
            }
            assert forall|y: usize| src@.take(i as int).contains(y) implies src@.take(i + 1).contains(y) by {
                let k = choose|k: int| 0 <= k < i && #[trigger] src@.take(i as int)[k] == y;
                assert(src@.take(i + 1)[k] == y);
            }
            assert(src@.take(i + 1)[i as int] == src@[i as int]);
        }
        i = i + 1;
        assert(dst@.to_set() =~= old(dst)@.to_set().union(src@.take(i as int).to_set()));
    }
    assert(src@.take(src@.len() as int) =~= src@);
}

/// The slot written by a statement whose target is the first of `kids`, when inside an
/// `if` block (`lvl > 0`).
fn target_of(kids: &Vec<Node>, lvl: usize) -> (v: Vec<usize>)
    ensures
        strictly_sorted(v@),
        v@.to_set() == (if lvl > 0 && kids@.len() > 0 { target_slot(kids@[0]) } else { Set::empty() }),
{
    let mut v: Vec<usize> = Vec::new();
    if lvl > 0 && kids.len() > 0 {
        match &kids[0] {
            Node::Variable(d) => match d.id {
                Some(i) => {
                    v.push(i);
                    assert forall|y: usize| v@.to_set().contains(y) == set![i].contains(y) by {
                        if y == i {
                            assert(v@[0] == y);
                        }
                    }
                    assert(v@.to_set() =~= set![i]);
                },
                None => {
                    assert(v@.to_set() =~= Set::<usize>::empty());
                },
            },
            _ => {
                assert(v@.to_set() =~= Set::<usize>::empty());
            },
        }
    } else {
        assert(v@.to_set() =~= Set::<usize>::empty());
    }
    v
}

/// Walks a script's expression tree and records, on each `if` node, the sorted variable
/// slots modified inside its blocks (nested blocks included): targets of assignments,
/// payments and appends, not variables that are only read. It also keeps the deepest
/// nesting of `if` blocks seen.
pub struct IfProcessor {
    max_nested_ifs: usize,
}

impl IfProcessor {
    /// A processor that has seen no `if`.
    pub fn new() -> (p: IfProcessor)
        ensures
            p.max_nested_ifs() == 0,
    {
        IfProcessor { max_nested_ifs: 0 }
    }

    pub closed spec fn max_nested_ifs_spec(&self) -> usize {
        self.max_nested_ifs
    }

    /// Deepest nesting of `if` blocks met so far.
    #[verifier::when_used_as_spec(max_nested_ifs_spec)]
    pub fn max_nested_ifs(&self) -> (r: usize)
        ensures
            r == self.max_nested_ifs_spec(),
    {
        self.max_nested_ifs
    }

    /// Processes a whole tree (a script's statements stand outside any `if`).
    pub fn visit(&mut self, node: &mut Node) -> (r: Result<(), ScriptingError>)
        requires
            if_walkable(*old(node), false),
            if_depth(*old(node), false) <= usize::MAX,
        ensures
            r is Ok,
            processed(*old(node), *final(node), false),
            final(self).max_nested_ifs() == raised(old(self).max_nested_ifs() as int, 0, if_depth(*old(node), false) as int),
    {
        let _ = self.process(node, 0);
        Ok(())
    }

    /// Processes the expression of every event of the stream.
    #[verifier::spinoff_prover]
    pub fn visit_events(&mut self, events: &mut EventStream) -> (r: Result<(), ScriptingError>)
        requires
            forall|i: int| 0 <= i < old(events).events@.len() ==> if_walkable(#[trigger] old(events).events@[i].expr, false),
            events_if_depth(old(events).events@) <= usize::MAX,
        ensures
            r is Ok,
            final(events).events@.len() == old(events).events@.len(),
            forall|i: int| 0 <= i < old(events).events@.len() ==> #[trigger] final(events).events@[i].event_date == old(events).events@[i].event_date
                && processed(old(events).events@[i].expr, final(events).events@[i].expr, false),
            final(self).max_nested_ifs() == raised(old(self).max_nested_ifs() as int, 0, events_if_depth(old(events).events@) as int),
    {
        let ghost ok = events.events@;
        let ghost max0 = self.max_nested_ifs;
        let n = events.events.len();
        let mut i: usize = 0;
        assert(ok.take(0) =~= Seq::<Event>::empty());
        while i < n
            invariant
                ok == old(events).events@,
                max0 == old(self).max_nested_ifs(),
                n == ok.len(),
                events.events@.len() == n,
                i <= n,
                forall|j: int| 0 <= j < ok.len() ==> if_walkable(#[trigger] ok[j].expr, false),
                events_if_depth(ok) <= usize::MAX,
                forall|j: int| i <= j < n ==> events.events@[j] == ok[j],
                forall|j: int| 0 <= j < i ==> #[trigger] event_processed(ok[j], events.events@[j]),
                self.max_nested_ifs() == raised(max0 as int, 0, events_if_depth(ok.take(i as int)) as int),
            decreases n - i,
        {
            proof {
                lemma_events_depth_prefix(ok, i + 1);
                assert(ok.take(i + 1).drop_last() =~= ok.take(i as int));
                assert(ok.take(i + 1).last() == ok[i as int]);
            }
            let ghost before = events.events@;
            let mut e = Node::True;
            std::mem::swap(&mut e, &mut events.events[i].expr);
            let ghost e0 = e;
            assert(e0 == ok[i as int].expr);
            let _ = self.process(&mut e, 0);
            let ghost e1 = e;
            assert(processed(e0, e1, false));
            std::mem::swap(&mut e, &mut events.events[i].expr);
            assert(events.events@[i as int].expr == e1);
            assert forall|j: int| 0 <= j < n && j != i implies events.events@[j] == before[j] by {}
            assert(events.events@[i as int].event_date == ok[i as int].event_date);
            assert(event_processed(ok[i as int], events.events@[i as int]));
            assert forall|j: int| 0 <= j < i + 1 implies #[trigger] event_processed(ok[j], events.events@[j]) by {
                if j < i {
                    assert(events.events@[j] == before[j]);
                    assert(event_processed(ok[j], before[j]));
                }
            }
            i = i + 1;
        }
        assert(ok.take(n as int) =~= ok);
        assert forall|j: int| 0 <= j < ok.len() implies #[trigger] events.events@[j].event_date == ok[j].event_date
            && processed(ok[j].expr, events.events@[j].expr, false) by {
            assert(event_processed(ok[j], events.events@[j]));
        }
        Ok(())
    }

    /// Processes `kids[start..]` at nesting level `lvl`, giving the slots they write (when
    /// `lvl > 0`).
    fn process_from(&mut self, kids: &mut Vec<Node>, start: usize, lvl: usize) -> (vars: Vec<usize>)
        requires
            start <= old(kids)@.len(),
            if_walkable_seq(old(kids)@.skip(start as int), lvl > 0),
            lvl + if_depth_seq(old(kids)@.skip(start as int), lvl > 0) <= usize::MAX,
        ensures
            strictly_sorted(vars@),
            vars@.to_set() == (if lvl > 0 { written_vars_seq(old(kids)@.skip(start as int)) } else { Set::empty() }),
            final(kids)@.len() == old(kids)@.len(),
            final(kids)@.take(start as int) == old(kids)@.take(start as int),
            processed_seq(old(kids)@.skip(start as int), final(kids)@.skip(start as int), lvl > 0),
            final(self).max_nested_ifs() == raised(old(self).max_nested_ifs() as int, lvl as int, if_depth_seq(old(kids)@.skip(start as int), lvl > 0) as int),
        decreases old(kids)@, 0nat,
    {
        let ghost ok = kids@;
        let ghost base = ok.skip(start as int);
        let ghost max0 = self.max_nested_ifs;
        let n = kids.len();
        let mut vars: Vec<usize> = Vec::new();
        let mut i: usize = start;
        assert(base.take(0) =~= Seq::<Node>::empty());
        assert(kids@.skip(start as int).take(0) =~= Seq::<Node>::empty());
        while i < n
            invariant
                ok == old(kids)@,
                base == ok.skip(start as int),
                max0 == old(self).max_nested_ifs(),
                n == ok.len(),
                kids@.len() == n,
                start <= i <= n,
                if_walkable_seq(base, lvl > 0),
                lvl + if_depth_seq(base, lvl > 0) <= usize::MAX,
                kids@.take(start as int) == ok.take(start as int),
                forall|j: int| i <= j < n ==> kids@[j] == ok[j],
                processed_seq(base.take(i - start), kids@.skip(start as int).take(i - start), lvl > 0),
                strictly_sorted(vars@),
                vars@.to_set() == (if lvl > 0 { written_vars_seq(base.take(i - start)) } else { Set::empty() }),
                self.max_nested_ifs() == raised(max0 as int, lvl as int, if_depth_seq(base.take(i - start), lvl > 0) as int),
            decreases n - i,
        {
            let ghost k = i - start;
            let ghost kids_before = kids@;
            assert(base.take(k + 1).drop_last() =~= base.take(k));
            assert(base.take(k + 1).last() == base[k]);
            assert(base[k] == ok[i as int]);
            proof {
                lemma_walkable_prefix(base, k + 1, lvl > 0);
                lemma_depth_prefix(base, k + 1, lvl > 0);
                assert(decreases_to!(ok => ok[i as int]));
            }
            let mut c = Node::True;
            std::mem::swap(&mut c, &mut kids[i]);
            let sub = self.process(&mut c, lvl);
            std::mem::swap(&mut c, &mut kids[i]);
            union_into(&mut vars, &sub);
            proof {
                assert(kids@.take(start as int) =~= kids_before.take(start as int));
                assert(kids@.skip(start as int).take(k + 1).drop_last() =~= kids_before.skip(start as int).take(k));
                assert(kids@.skip(start as int).take(k + 1).last() == kids@[i as int]);
            }
            i = i + 1;
        }
        assert(base.take(n - start) =~= base);
        assert(kids@.skip(start as int).take(n - start) =~= kids@.skip(start as int));
        vars
    }

    /// Processes an `if` node met at level `lvl`: its blocks are processed one level
    /// deeper and it records the slots written in them.
    fn process_if(&mut self, d: &mut IfData, lvl: usize) -> (vars: Vec<usize>)
        requires
            if_walkable(Node::If(*old(d)), lvl > 0),
            lvl + if_depth(Node::If(*old(d)), lvl > 0) <= usize::MAX,
        ensures
            strictly_sorted(vars@),
            vars@.to_set() == (if lvl > 0 { written_vars(Node::If(*old(d))) } else { Set::empty() }),
            processed(Node::If(*old(d)), Node::If(*final(d)), lvl > 0),
            final(self).max_nested_ifs() == raised(old(self).max_nested_ifs() as int, lvl as int, if_depth(Node::If(*old(d)), lvl > 0) as int),
        decreases Node::If(*old(d)), 0nat,
    {
        let inner = lvl + 1;
        if inner > self.max_nested_ifs {
            self.max_nested_ifs = inner;
        }
        let ghost oc = d.children@;
        let vars = if d.children.len() > 0 {
            let v = self.process_from(&mut d.children, 1, inner);
            assert(d.children@.take(1)[0] == d.children@[0]);
            assert(oc.take(1)[0] == oc[0]);
            v
        } else {
            let v: Vec<usize> = Vec::new();
            assert(v@.to_set() =~= Set::<usize>::empty());
            v
        };
        let mut copy: Vec<usize> = Vec::new();
        let mut i: usize = 0;
        while i < vars.len()
            invariant
                i <= vars@.len(),
                copy@ == vars@.take(i as int),
            decreases vars@.len() - i,
        {
            copy.push(vars[i]);
            i = i + 1;
            assert(copy@ =~= vars@.take(i as int));
        }
        assert(vars@.take(vars@.len() as int) =~= vars@);
        if d.affected_vars.len() == 0 {
            d.affected_vars = copy;
        }
        if lvl > 0 {
            vars
        } else {
            let v: Vec<usize> = Vec::new();
            assert(v@.to_set() =~= Set::<usize>::empty());
            v
        }
    }

    /// Processes one node at nesting level `lvl`, giving the slots it writes (when
    /// `lvl > 0`).
    fn process(&mut self, node: &mut Node, lvl: usize) -> (vars: Vec<usize>)
        requires
            if_walkable(*old(node), lvl > 0),
            lvl + if_depth(*old(node), lvl > 0) <= usize::MAX,
        ensures
            strictly_sorted(vars@),
            vars@.to_set() == (if lvl > 0 { written_vars(*old(node)) } else { Set::empty() }),
            processed(*old(node), *final(node), lvl > 0),
            final(self).max_nested_ifs() == raised(old(self).max_nested_ifs() as int, lvl as int, if_depth(*old(node), lvl > 0) as int),
        decreases *old(node), 1nat,
    {
        match node {
            Node::If(d) => self.process_if(d, lvl),
            Node::Assign(d) => target_of(&d.children, lvl),
            Node::Pays(d) => target_of(&d.children, lvl),
            Node::Append(d) => target_of(&d.children, lvl),
            Node::Variable(_) => {
                let v: Vec<usize> = Vec::new();
                assert(v@.to_set() =~= Set::<usize>::empty());
                v
            },
            Node::Base(d) => {
                assert(d.children@.skip(0) =~= d.children@);
                let v = self.process_from(&mut d.children, 0, lvl);
                assert(d.children@.skip(0) =~= d.children@);
                v
            },
            Node::Add(d) => {
                assert(d.children@.skip(0) =~= d.children@);
                let v = self.process_from(&mut d.children, 0, lvl);
                assert(d.children@.skip(0) =~= d.children@);
                v
            },
            Node::Subtract(d) => {
                assert(d.children@.skip(0) =~= d.children@);
                let v = self.process_from(&mut d.children, 0, lvl);
                assert(d.children@.skip(0) =~= d.children@);
                v
            },
            Node::Multiply(d) => {
                assert(d.children@.skip(0) =~= d.children@);
                let v = self.process_from(&mut d.children, 0, lvl);
                assert(d.children@.skip(0) =~= d.children@);
                v
            },
            Node::Divide(d) => {
                assert(d.children@.skip(0) =~= d.children@);
                let v = self.process_from(&mut d.children, 0, lvl);
                assert(d.children@.skip(0) =~= d.children@);
                v
            },
            Node::Min(d) => {
                assert(d.children@.skip(0) =~= d.children@);
                let v = self.process_from(&mut d.children, 0, lvl);
                assert(d.children@.skip(0) =~= d.children@);
                v
            },
            Node::Max(d) => {
                assert(d.children@.skip(0) =~= d.children@);
                let v = self.process_from(&mut d.children, 0, lvl);
                assert(d.children@.skip(0) =~= d.children@);
                v
            },
            Node::Exp(d) => {
                assert(d.children@.skip(0) =~= d.children@);
                let v = self.process_from(&mut d.children, 0, lvl);
                assert(d.children@.skip(0) =~= d.children@);
                v
            },
            Node::Pow(d) => {
                assert(d.children@.skip(0) =~= d.children@);
                let v = self.process_from(&mut d.children, 0, lvl);
                assert(d.children@.skip(0) =~= d.children@);
                v
            },
            Node::Ln(d) => {
                assert(d.children@.skip(0) =~= d.children@);
                let v = self.process_from(&mut d.children, 0, lvl);
                assert(d.children@.skip(0) =~= d.children@);
                v
            },
            Node::Fif(d) => {
                assert(d.children@.skip(0) =~= d.children@);
                let v = self.process_from(&mut d.children, 0, lvl);
                assert(d.children@.skip(0) =~= d.children@);
                v
            },
            Node::Cvg(d) => {
                assert(d.children@.skip(0) =~= d.children@);
                let v = self.process_from(&mut d.children, 0, lvl);
                assert(d.children@.skip(0) =~= d.children@);
                v
            },
            Node::Mean(d) => {
                assert(d.children@.skip(0) =~= d.children@);
                let v = self.process_from(&mut d.children, 0, lvl);
                assert(d.children@.skip(0) =~= d.children@);
                v
            },
            Node::Std(d) => {
                assert(d.children@.skip(0) =~= d.children@);
                let v = self.process_from(&mut d.children, 0, lvl);
                assert(d.children@.skip(0) =~= d.children@);
                v
            },
            Node::Index(d) => {
                assert(d.children@.skip(0) =~= d.children@);
                let v = self.process_from(&mut d.children, 0, lvl);
                assert(d.children@.skip(0) =~= d.children@);
                v
            },
            Node::UnaryPlus(d) => {
                assert(d.children@.skip(0) =~= d.children@);
                let v = self.process_from(&mut d.children, 0, lvl);
                assert(d.children@.skip(0) =~= d.children@);
                v
            },
            Node::UnaryMinus(d) => {
                assert(d.children@.skip(0) =~= d.children@);
                let v = self.process_from(&mut d.children, 0, lvl);
                assert(d.children@.skip(0) =~= d.children@);
                v
            },
            Node::Equal(d) => {
                assert(d.children@.skip(0) =~= d.children@);
                let v = self.process_from(&mut d.children, 0, lvl);
                assert(d.children@.skip(0) =~= d.children@);
                v
            },
            Node::NotEqual(d) => {
                assert(d.children@.skip(0) =~= d.children@);
                let v = self.process_from(&mut d.children, 0, lvl);
                assert(d.children@.skip(0) =~= d.children@);
                v
            },
            Node::And(d) => {
                assert(d.children@.skip(0) =~= d.children@);
                let v = self.process_from(&mut d.children, 0, lvl);
                assert(d.children@.skip(0) =~= d.children@);
                v
            },
            Node::Or(d) => {
                assert(d.children@.skip(0) =~= d.children@);
                let v = self.process_from(&mut d.children, 0, lvl);
                assert(d.children@.skip(0) =~= d.children@);
                v
            },
            Node::Not(d) => {
                assert(d.children@.skip(0) =~= d.children@);
                let v = self.process_from(&mut d.children, 0, lvl);
                assert(d.children@.skip(0) =~= d.children@);
                v
            },
            Node::Superior(d) => {
                assert(d.children@.skip(0) =~= d.children@);
                let v = self.process_from(&mut d.children, 0, lvl);
                assert(d.children@.skip(0) =~= d.children@);
                v
            },
            Node::Inferior(d) => {
                assert(d.children@.skip(0) =~= d.children@);
                let v = self.process_from(&mut d.children, 0, lvl);
                assert(d.children@.skip(0) =~= d.children@);
                v
            },
            Node::SuperiorOrEqual(d) => {
                assert(d.children@.skip(0) =~= d.children@);
                let v = self.process_from(&mut d.children, 0, lvl);
                assert(d.children@.skip(0) =~= d.children@);
                v
            },
            Node::InferiorOrEqual(d) => {
                assert(d.children@.skip(0) =~= d.children@);
                let v = self.process_from(&mut d.children, 0, lvl);
                assert(d.children@.skip(0) =~= d.children@);
                v
            },
            Node::Range(d) => {
                assert(d.children@.skip(0) =~= d.children@);
                let v = self.process_from(&mut d.children, 0, lvl);
                assert(d.children@.skip(0) =~= d.children@);
                v
            },
            Node::List(d) => {
                assert(d.children@.skip(0) =~= d.children@);
                let v = self.process_from(&mut d.children, 0, lvl);
                assert(d.children@.skip(0) =~= d.children@);
                v
            },
            _ => {
                let v: Vec<usize> = Vec::new();
                assert(v@.to_set() =~= Set::<usize>::empty());
                v
            },
        }
    }
}

proof fn lemma_walkable_prefix(s: Seq<Node>, k: int, inside: bool)
    requires
        0 <= k <= s.len(),
        if_walkable_seq(s, inside),
    ensures
        if_walkable_seq(s.take(k), inside),
        k > 0 ==> if_walkable(s[k - 1], inside),
    decreases s.len(),
{
    if k == s.len() {
        assert(s.take(k) =~= s);
    } else {
        assert(s.drop_last().take(k) =~= s.take(k));
        lemma_walkable_prefix(s.drop_last(), k, inside);
    }
}

proof fn lemma_depth_prefix(s: Seq<Node>, k: int, inside: bool)
    requires
        0 <= k <= s.len(),
    ensures
        if_depth_seq(s.take(k), inside) <= if_depth_seq(s, inside),
        k > 0 ==> if_depth(s[k - 1], inside) <= if_depth_seq(s, inside),
    decreases s.len(),
{
    if k == s.len() {
        assert(s.take(k) =~= s);
    } else {
        assert(s.drop_last().take(k) =~= s.take(k));
        lemma_depth_prefix(s.drop_last(), k, inside);
    }
}

} // verus!
