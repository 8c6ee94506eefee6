use vstd::prelude::*;

use crate::currency::Currency;
use crate::date::Date;

verus! {

/// Children of an operator node.
#[derive(Default, Debug, PartialEq)]
pub struct NodeData {
    pub children: Vec<Node>,
}

/// Static knowledge about a boolean node.
#[derive(Default, Debug, Clone, Copy, PartialEq, Eq, Structural)]
pub struct BoolData {
    pub always_true: bool,
    pub always_false: bool,
}

/// Data of a comparison node. The three reals are kept as IEEE-754 bit patterns.
#[derive(Default, Debug, Clone, Copy, PartialEq, Eq, Structural)]
pub struct CompData {
    pub bool_sub_node: BoolData,
    pub discrete: bool,
    pub eps: u64,
    pub lb: u64,
    pub rb: u64,
}

/// Expression data of a variable or constant. `const_value` is the IEEE-754 bit pattern
/// of the constant's value.
#[derive(Default, Debug, PartialEq)]
pub struct ExprData {
    pub children: Vec<Node>,
    pub is_constant: bool,
    pub const_value: u64,
}

/// A variable (or constant) occurrence; `id` is its slot once indexed.
#[derive(Default, Debug, PartialEq)]
pub struct VarData {
    pub name: String,
    pub id: Option<usize>,
    pub expr_data: ExprData,
    pub bool_data: BoolData,
}

/// An `if` statement: `children[0]` is the condition, `children[1..first_else]` the
/// then-block and `children[first_else..]` the else-block. `affected_vars` lists, sorted,
/// the variable slots written inside the statement.
#[derive(Default, Debug, PartialEq)]
pub struct IfData {
    pub children: Vec<Node>,
    pub first_else: Option<usize>,
    pub affected_vars: Vec<usize>,
}

/// A spot exchange rate `first`/`second`, at `date` or at the event date.
#[derive(Debug, Clone, PartialEq)]
pub struct SpotData {
    pub first: Currency,
    pub second: Currency,
    pub date: Option<Date>,
    pub id: Option<usize>,
}

/// A discount factor to `date` on `curve` (the local curve when `None`).
#[derive(Debug, Clone, PartialEq)]
pub struct DfData {
    pub date: Date,
    pub curve: Option<String>,
    pub id: Option<usize>,
}

/// A forward rate of index `name` between `start` and `end`.
#[derive(Debug, Clone, PartialEq)]
pub struct RateIndexData {
    pub name: String,
    pub start: Date,
    pub end: Date,
    pub id: Option<usize>,
}

/// A payment of the amount in `children[0]`, at `date` (or the event date) in `currency`
/// (or the local currency). `df_id` and `spot_id` are its discount and exchange requests.
#[derive(Default, Debug, PartialEq)]
pub struct PaysData {
    pub children: Vec<Node>,
    pub date: Option<Date>,
    pub currency: Option<Currency>,
    pub df_id: Option<usize>,
    pub spot_id: Option<usize>,
}

/// A loop `for var in iter { node }`: `node` is the loop body (children are added to it)
/// and `iter` holds the iterated expression.
#[derive(Debug, PartialEq)]
pub struct ForEachData {
    pub var: String,
    pub id: Option<usize>,
    pub node: Box<Node>,
    pub iter: Vec<Node>,
}

/// A node of a script's expression tree.
#[derive(Default, Debug, PartialEq)]
pub enum Node {
    Base(NodeData),
    // variables
    Variable(VarData),
    Constant(VarData),
    String(String),
    // financial
    Spot(SpotData),
    Df(DfData),
    RateIndex(RateIndexData),
    Pays(PaysData),
    // math
    Add(NodeData),
    Subtract(NodeData),
    Multiply(NodeData),
    Divide(NodeData),
    Assign(NodeData),
    Min(NodeData),
    Max(NodeData),
    Exp(NodeData),
    Pow(NodeData),
    Ln(NodeData),
    Fif(NodeData),
    Cvg(NodeData),
    Append(NodeData),
    Mean(NodeData),
    Std(NodeData),
    Index(NodeData),
    // unary
    UnaryPlus(NodeData),
    UnaryMinus(NodeData),
    // logic
    #[default]
    True,
    False,
    Equal(NodeData),
    NotEqual(NodeData),
    And(NodeData),
    Or(NodeData),
    Not(NodeData),
    Superior(NodeData),
    Inferior(NodeData),
    SuperiorOrEqual(NodeData),
    InferiorOrEqual(NodeData),
    // control flow
    If(IfData),
    ForEach(ForEachData),
    // iterable
    Range(NodeData),
    List(NodeData),
}

/// The node keeps its children in a plain list that `children` hands out.
pub open spec fn has_child_list(n: Node) -> bool {
    match n {
        Node::Base(_) => true,
        Node::Add(_) => true,
        Node::Subtract(_) => true,
        Node::Multiply(_) => true,
        Node::Divide(_) => true,
        Node::Assign(_) => true,
        Node::Min(_) => true,
        Node::Max(_) => true,
        Node::Exp(_) => true,
        Node::Pow(_) => true,
        Node::Ln(_) => true,
        Node::Fif(_) => true,
        Node::Cvg(_) => true,
        Node::Append(_) => true,
        Node::Mean(_) => true,
        Node::Std(_) => true,
        Node::Index(_) => true,
        Node::UnaryPlus(_) => true,
        Node::UnaryMinus(_) => true,
        Node::Equal(_) => true,
        Node::NotEqual(_) => true,
        Node::And(_) => true,
        Node::Or(_) => true,
        Node::Not(_) => true,
        Node::Superior(_) => true,
        Node::Inferior(_) => true,
        Node::SuperiorOrEqual(_) => true,
        Node::InferiorOrEqual(_) => true,
        Node::Range(_) => true,
        Node::List(_) => true,
        Node::Variable(_) => true,
        Node::Pays(_) => true,
        _ => false,
    }
}

/// The list of children of a node, empty for nodes that have none.
pub open spec fn child_list(n: Node) -> Seq<Node> {
    match n {
        Node::Base(d) => d.children@,
        Node::Add(d) => d.children@,
        Node::Subtract(d) => d.children@,
        Node::Multiply(d) => d.children@,
        Node::Divide(d) => d.children@,
        Node::Assign(d) => d.children@,
        Node::Min(d) => d.children@,
        Node::Max(d) => d.children@,
        Node::Exp(d) => d.children@,
        Node::Pow(d) => d.children@,
        Node::Ln(d) => d.children@,
        Node::Fif(d) => d.children@,
        Node::Cvg(d) => d.children@,
        Node::Append(d) => d.children@,
        Node::Mean(d) => d.children@,
        Node::Std(d) => d.children@,
        Node::Index(d) => d.children@,
        Node::UnaryPlus(d) => d.children@,
        Node::UnaryMinus(d) => d.children@,
        Node::Equal(d) => d.children@,
        Node::NotEqual(d) => d.children@,
        Node::And(d) => d.children@,
        Node::Or(d) => d.children@,
        Node::Not(d) => d.children@,
        Node::Superior(d) => d.children@,
        Node::Inferior(d) => d.children@,
        Node::SuperiorOrEqual(d) => d.children@,
        Node::InferiorOrEqual(d) => d.children@,
        Node::Range(d) => d.children@,
        Node::List(d) => d.children@,
        Node::Variable(d) => d.expr_data.children@,
        Node::Pays(d) => d.children@,
        _ => Seq::empty(),
    }
}

/// A child can be appended to the node (directly, or to a loop's body).
pub open spec fn accepts_child(n: Node) -> bool
    decreases n,
{
    match n {
        Node::ForEach(d) => accepts_child(*d.node),
        _ => has_child_list(n),
    }
}

/// `b` is `a` with possibly different children lists: same variant, same other fields.
pub open spec fn same_shell(a: Node, b: Node) -> bool {
    match a {
        Node::Base(_) => b is Base,
        Node::Add(_) => b is Add,
        Node::Subtract(_) => b is Subtract,
        Node::Multiply(_) => b is Multiply,
        Node::Divide(_) => b is Divide,
        Node::Assign(_) => b is Assign,
        Node::Min(_) => b is Min,
        Node::Max(_) => b is Max,
        Node::Exp(_) => b is Exp,
        Node::Pow(_) => b is Pow,
        Node::Ln(_) => b is Ln,
        Node::Fif(_) => b is Fif,
        Node::Cvg(_) => b is Cvg,
        Node::Append(_) => b is Append,
        Node::Mean(_) => b is Mean,
        Node::Std(_) => b is Std,
        Node::Index(_) => b is Index,
        Node::UnaryPlus(_) => b is UnaryPlus,
        Node::UnaryMinus(_) => b is UnaryMinus,
        Node::Equal(_) => b is Equal,
        Node::NotEqual(_) => b is NotEqual,
        Node::And(_) => b is And,
        Node::Or(_) => b is Or,
        Node::Not(_) => b is Not,
        Node::Superior(_) => b is Superior,
        Node::Inferior(_) => b is Inferior,
        Node::SuperiorOrEqual(_) => b is SuperiorOrEqual,
        Node::InferiorOrEqual(_) => b is InferiorOrEqual,
        Node::Range(_) => b is Range,
        Node::List(_) => b is List,
        Node::Variable(x) => b matches Node::Variable(y) && x.name == y.name && x.id == y.id
            && x.bool_data == y.bool_data && x.expr_data.is_constant == y.expr_data.is_constant
            && x.expr_data.const_value == y.expr_data.const_value,
        Node::Pays(x) => b matches Node::Pays(y) && x.date == y.date && x.currency == y.currency
            && x.df_id == y.df_id && x.spot_id == y.spot_id,
        _ => a == b,
    }
}

/// `b` is `a` with `child` appended at the end of its children (of its body, for a loop).
pub open spec fn appended_child(a: Node, b: Node, child: Node) -> bool
    decreases a,
{
    match a {
        Node::ForEach(x) => b matches Node::ForEach(y) && x.var == y.var && x.id == y.id
            && x.iter == y.iter && appended_child(*x.node, *y.node, child),
        _ => same_shell(a, b) && child_list(b) == child_list(a).push(child),
    }
}

impl Node {
    pub fn new_base() -> (n: Node)
        ensures
            n is Base,
            child_list(n).len() == 0,
    {
        Node::Base(NodeData { children: Vec::new() })
    }

    pub fn new_add() -> (n: Node)
        ensures
            n is Add,
            child_list(n).len() == 0,
    {
        Node::Add(NodeData { children: Vec::new() })
    }

    pub fn new_subtract() -> (n: Node)
        ensures
            n is Subtract,
            child_list(n).len() == 0,
    {
        Node::Subtract(NodeData { children: Vec::new() })
    }

    pub fn new_multiply() -> (n: Node)
        ensures
            n is Multiply,
            child_list(n).len() == 0,
    {
        Node::Multiply(NodeData { children: Vec::new() })
    }

    pub fn new_divide() -> (n: Node)
        ensures
            n is Divide,
            child_list(n).len() == 0,
    {
        Node::Divide(NodeData { children: Vec::new() })
    }

    pub fn new_assign() -> (n: Node)
        ensures
            n is Assign,
            child_list(n).len() == 0,
    {
        Node::Assign(NodeData { children: Vec::new() })
    }

    pub fn new_min() -> (n: Node)
        ensures
            n is Min,
            child_list(n).len() == 0,
    {
        Node::Min(NodeData { children: Vec::new() })
    }

    pub fn new_max() -> (n: Node)
        ensures
            n is Max,
            child_list(n).len() == 0,
    {
        Node::Max(NodeData { children: Vec::new() })
    }

    pub fn new_exp() -> (n: Node)
        ensures
            n is Exp,
            child_list(n).len() == 0,
    {
        Node::Exp(NodeData { children: Vec::new() })
    }

    pub fn new_pow() -> (n: Node)
        ensures
            n is Pow,
            child_list(n).len() == 0,
    {
        Node::Pow(NodeData { children: Vec::new() })
    }

    pub fn new_ln() -> (n: Node)
        ensures
            n is Ln,
            child_list(n).len() == 0,
    {
        Node::Ln(NodeData { children: Vec::new() })
    }

    pub fn new_fif() -> (n: Node)
        ensures
            n is Fif,
            child_list(n).len() == 0,
    {
        Node::Fif(NodeData { children: Vec::new() })
    }

    pub fn new_cvg() -> (n: Node)
        ensures
            n is Cvg,
            child_list(n).len() == 0,
    {
        Node::Cvg(NodeData { children: Vec::new() })
    }

    pub fn new_append() -> (n: Node)
        ensures
            n is Append,
            child_list(n).len() == 0,
    {
        Node::Append(NodeData { children: Vec::new() })
    }

    pub fn new_mean() -> (n: Node)
        ensures
            n is Mean,
            child_list(n).len() == 0,
    {
        Node::Mean(NodeData { children: Vec::new() })
    }

    pub fn new_std() -> (n: Node)
        ensures
            n is Std,
            child_list(n).len() == 0,
    {
        Node::Std(NodeData { children: Vec::new() })
    }

    pub fn new_index() -> (n: Node)
        ensures
            n is Index,
            child_list(n).len() == 0,
    {
        Node::Index(NodeData { children: Vec::new() })
    }

    pub fn new_unary_plus() -> (n: Node)
        ensures
            n is UnaryPlus,
            child_list(n).len() == 0,
    {
        Node::UnaryPlus(NodeData { children: Vec::new() })
    }

    pub fn new_unary_minus() -> (n: Node)
        ensures
            n is UnaryMinus,
            child_list(n).len() == 0,
    {
        Node::UnaryMinus(NodeData { children: Vec::new() })
    }

    pub fn new_equal() -> (n: Node)
        ensures
            n is Equal,
            child_list(n).len() == 0,
    {
        Node::Equal(NodeData { children: Vec::new() })
    }

    pub fn new_not_equal() -> (n: Node)
        ensures
            n is NotEqual,
            child_list(n).len() == 0,
    {
        Node::NotEqual(NodeData { children: Vec::new() })
    }

    pub fn new_and() -> (n: Node)
        ensures
            n is And,
            child_list(n).len() == 0,
    {
        Node::And(NodeData { children: Vec::new() })
    }

    pub fn new_or() -> (n: Node)
        ensures
            n is Or,
            child_list(n).len() == 0,
    {
        Node::Or(NodeData { children: Vec::new() })
    }

    pub fn new_not() -> (n: Node)
        ensures
            n is Not,
            child_list(n).len() == 0,
    {
        Node::Not(NodeData { children: Vec::new() })
    }

    pub fn new_superior() -> (n: Node)
        ensures
            n is Superior,
            child_list(n).len() == 0,
    {
        Node::Superior(NodeData { children: Vec::new() })
    }

    pub fn new_inferior() -> (n: Node)
        ensures
            n is Inferior,
            child_list(n).len() == 0,
    {
        Node::Inferior(NodeData { children: Vec::new() })
    }

    pub fn new_superior_or_equal() -> (n: Node)
        ensures
            n is SuperiorOrEqual,
            child_list(n).len() == 0,
    {
        Node::SuperiorOrEqual(NodeData { children: Vec::new() })
    }

    pub fn new_inferior_or_equal() -> (n: Node)
        ensures
            n is InferiorOrEqual,
            child_list(n).len() == 0,
    {
        Node::InferiorOrEqual(NodeData { children: Vec::new() })
    }

    pub fn new_range() -> (n: Node)
        ensures
            n is Range,
            child_list(n).len() == 0,
    {
        Node::Range(NodeData { children: Vec::new() })
    }

    pub fn new_list() -> (n: Node)
        ensures
            n is List,
            child_list(n).len() == 0,
    {
        Node::List(NodeData { children: Vec::new() })
    }

    /// A variable that has not been indexed yet.
    pub fn new_variable(name: String) -> (n: Node)
        ensures
            (n matches Node::Variable(d) && d.name == name && d.id is None
                && d.expr_data.children@.len() == 0 && !d.expr_data.is_constant
                && d.expr_data.const_value == 0 && d.bool_data == (BoolData {
                always_true: false,
                always_false: false,
            })),
    {
        Node::Variable(VarData {
            name,
            id: None,
            expr_data: ExprData { children: Vec::new(), is_constant: false, const_value: 0 },
            bool_data: BoolData { always_true: false, always_false: false },
        })
    }

    /// A variable already bound to slot `id`.
    pub fn new_variable_with_id(name: String, id: usize) -> (n: Node)
        ensures
            (n matches Node::Variable(d) && d.name == name && d.id == Some(id)
                && d.expr_data.children@.len() == 0 && !d.expr_data.is_constant
                && d.expr_data.const_value == 0 && d.bool_data == (BoolData {
                always_true: false,
                always_false: false,
            })),
    {
        Node::Variable(VarData {
            name,
            id: Some(id),
            expr_data: ExprData { children: Vec::new(), is_constant: false, const_value: 0 },
            bool_data: BoolData { always_true: false, always_false: false },
        })
    }

    /// A numeric constant; `value_bits` is the IEEE-754 bit pattern of its value and
    /// `name` its printed form.
    pub fn new_constant(name: String, value_bits: u64) -> (n: Node)
        ensures
            (n matches Node::Constant(d) && d.name == name && d.id is None
                && d.expr_data.children@.len() == 0 && d.expr_data.is_constant
                && d.expr_data.const_value == value_bits && d.bool_data == (BoolData {
                always_true: false,
                always_false: false,
            })),
    {
        Node::Constant(VarData {
            name,
            id: None,
            expr_data: ExprData { children: Vec::new(), is_constant: true, const_value: value_bits },
            bool_data: BoolData { always_true: false, always_false: false },
        })
    }

    pub fn new_if() -> (n: Node)
        ensures
            (n matches Node::If(d) && d.children@.len() == 0 && d.first_else is None
                && d.affected_vars@.len() == 0),
    {
        Node::If(IfData { children: Vec::new(), first_else: None, affected_vars: Vec::new() })
    }

    pub fn new_true() -> (n: Node)
        ensures
            n is True,
    {
        Node::True
    }

    pub fn new_false() -> (n: Node)
        ensures
            n is False,
    {
        Node::False
    }

    pub fn new_pays() -> (n: Node)
        ensures
            (n matches Node::Pays(d) && d.children@.len() == 0 && d.date is None
                && d.currency is None && d.df_id is None && d.spot_id is None),
    {
        Node::Pays(PaysData { children: Vec::new(), date: None, currency: None, df_id: None, spot_id: None })
    }

    pub fn new_spot(first: Currency, second: Currency, date: Option<Date>) -> (n: Node)
        ensures
            n == (Node::Spot(SpotData { first, second, date, id: None })),
    {
        Node::Spot(SpotData { first, second, date, id: None })
    }

    pub fn new_df(date: Date, curve: Option<String>) -> (n: Node)
        ensures
            n == (Node::Df(DfData { date, curve, id: None })),
    {
        Node::Df(DfData { date, curve, id: None })
    }

    pub fn new_rate_index(name: String, start: Date, end: Date) -> (n: Node)
        ensures
            n == (Node::RateIndex(RateIndexData { name, start, end, id: None })),
    {
        Node::RateIndex(RateIndexData { name, start, end, id: None })
    }

    pub fn new_for_each(var: String, node: Box<Node>, iter: Vec<Node>) -> (n: Node)
        ensures
            n == (Node::ForEach(ForEachData { var, id: None, node, iter })),
    {
        Node::ForEach(ForEachData { var, iter: iter, node: node, id: None })
    }

    /// Appends `child` to the node's children (to the body, for a loop). Leaves and `if`
    /// nodes take no child this way.
    pub fn add_child(&mut self, child: Node)
        requires
            accepts_child(*old(self)),
        ensures
            appended_child(*old(self), *final(self), child),
        decreases *old(self),
    {
        match self {
            Node::Base(data) => data.children.push(child),
            Node::Add(data) => data.children.push(child),
            Node::Subtract(data) => data.children.push(child),
            Node::Multiply(data) => data.children.push(child),
            Node::Divide(data) => data.children.push(child),
            Node::Assign(data) => data.children.push(child),
            Node::Min(data) => data.children.push(child),
            Node::Max(data) => data.children.push(child),
            Node::Exp(data) => data.children.push(child),
            Node::Pow(data) => data.children.push(child),
            Node::Ln(data) => data.children.push(child),
            Node::Fif(data) => data.children.push(child),
            Node::Cvg(data) => data.children.push(child),
            Node::Append(data) => data.children.push(child),
            Node::Mean(data) => data.children.push(child),
            Node::Std(data) => data.children.push(child),
            Node::Index(data) => data.children.push(child),
            Node::UnaryPlus(data) => data.children.push(child),
            Node::UnaryMinus(data) => data.children.push(child),
            Node::Equal(data) => data.children.push(child),
            Node::NotEqual(data) => data.children.push(child),
            Node::And(data) => data.children.push(child),
            Node::Or(data) => data.children.push(child),
            Node::Not(data) => data.children.push(child),
            Node::Superior(data) => data.children.push(child),
            Node::Inferior(data) => data.children.push(child),
            Node::SuperiorOrEqual(data) => data.children.push(child),
            Node::InferiorOrEqual(data) => data.children.push(child),
            Node::Range(data) => data.children.push(child),
            Node::List(data) => data.children.push(child),
            Node::Variable(data) => data.expr_data.children.push(child),
            Node::Pays(data) => data.children.push(child),
            Node::ForEach(data) => data.node.add_child(child),
            _ => {},
        }
    }

    /// The node's list of children. `if`, loop and leaf nodes have none to hand out.
    pub fn children(&self) -> (r: &[Node])
        requires
            has_child_list(*self),
        ensures
            r@ == child_list(*self),
    {
        match self {
            Node::Base(data) => data.children.as_slice(),
            Node::Add(data) => data.children.as_slice(),
            Node::Subtract(data) => data.children.as_slice(),
            Node::Multiply(data) => data.children.as_slice(),
            Node::Divide(data) => data.children.as_slice(),
            Node::Assign(data) => data.children.as_slice(),
            Node::Min(data) => data.children.as_slice(),
            Node::Max(data) => data.children.as_slice(),
            Node::Exp(data) => data.children.as_slice(),
            Node::Pow(data) => data.children.as_slice(),
            Node::Ln(data) => data.children.as_slice(),
            Node::Fif(data) => data.children.as_slice(),
            Node::Cvg(data) => data.children.as_slice(),
            Node::Append(data) => data.children.as_slice(),
            Node::Mean(data) => data.children.as_slice(),
            Node::Std(data) => data.children.as_slice(),
            Node::Index(data) => data.children.as_slice(),
            Node::UnaryPlus(data) => data.children.as_slice(),
            Node::UnaryMinus(data) => data.children.as_slice(),
            Node::Equal(data) => data.children.as_slice(),
            Node::NotEqual(data) => data.children.as_slice(),
            Node::And(data) => data.children.as_slice(),
            Node::Or(data) => data.children.as_slice(),
            Node::Not(data) => data.children.as_slice(),
            Node::Superior(data) => data.children.as_slice(),
            Node::Inferior(data) => data.children.as_slice(),
            Node::SuperiorOrEqual(data) => data.children.as_slice(),
            Node::InferiorOrEqual(data) => data.children.as_slice(),
            Node::Range(data) => data.children.as_slice(),
            Node::List(data) => data.children.as_slice(),
            Node::Variable(data) => data.expr_data.children.as_slice(),
            Node::Pays(data) => data.children.as_slice(),
            _ => &[],
        }
    }
}

} // verus!
