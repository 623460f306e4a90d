//! A tree-shaped rendering of expressions, level by level.
//!
//! Binary, grouping and unary nodes are drawn as internal nodes; every
//! other expression is drawn as a single leaf label. The renderer first
//! measures the tree, then collects one row of labels per depth, and
//! finally pads every label to the widest one so the rows line up.

use crate::expr::{BinOp, Expr};
use crate::numfmt::spec_int_str;
use crate::token::Literal;
use vstd::prelude::*;
use vstd::string::{StrSliceExecFns, StringExecFns};

verus! {

/// A run of spaces of the given length.
pub open spec fn spec_offset(n: int) -> Seq<char> {
    Seq::new(n as nat, |i: int| ' ')
}

/// A string of `length` spaces, used to pad labels into columns.
pub fn generate_offset(length: usize) -> (s: String)
    ensures
        s@ == spec_offset(length as int),
{
    let mut s = String::new();
    let mut i: usize = 0;
    while i < length
        invariant
            i <= length,
            s@ == spec_offset(i as int),
        decreases length - i,
    {
        proof {
            reveal_strlit(" ");
        }
        s.append(" ");
        proof {
            assert(s@ =~= spec_offset(i + 1));
        }
        i = i + 1;
    }
    s
}

/// Whether an expression is drawn as an internal node with children.
pub fn has_leafs(expr: &Expr) -> (r: bool)
    ensures
        r == spec_has_leafs(*expr),
{
    match expr {
        Expr::Binary { .. } => true,
        Expr::Grouping { .. } => true,
        Expr::Unary { .. } => true,
        _ => false,
    }
}

/// The expressions drawn with children: binary, grouping and unary
/// nodes.
pub open spec fn spec_has_leafs(e: Expr) -> bool {
    match e {
        Expr::Binary { .. } => true,
        Expr::Grouping { .. } => true,
        Expr::Unary { .. } => true,
        _ => false,
    }
}

/// The depth of the deepest drawn node, starting the count at `h`. The
/// count saturates rather than overflowing.
pub open spec fn spec_height(e: Expr, h: int) -> int
    decreases e,
{
    let deeper = if h < usize::MAX {
        h + 1
    } else {
        h
    };
    match e {
        Expr::Binary { left, right, .. } => {
            let a = spec_height(*left, deeper);
            let b = spec_height(*right, deeper);
            if a >= b {
                a
            } else {
                b
            }
        },
        Expr::Grouping { expr } => spec_height(*expr, deeper),
        Expr::Unary { expr, .. } => spec_height(*expr, deeper),
        _ => h,
    }
}

/// The drawn height never falls below its starting count.
pub proof fn lemma_height_at_least(e: Expr, h: int)
    ensures
        spec_height(e, h) >= h,
    decreases e,
{
    let deeper = if h < usize::MAX {
        h + 1
    } else {
        h
    };
    match e {
        Expr::Binary { left, right, .. } => {
            lemma_height_at_least(*left, deeper);
            lemma_height_at_least(*right, deeper);
        },
        Expr::Grouping { expr } => {
            lemma_height_at_least(*expr, deeper);
        },
        Expr::Unary { expr, .. } => {
            lemma_height_at_least(*expr, deeper);
        },
        _ => {},
    }
}

/// The depth of the deepest drawn node below `expr`, counting from
/// `height`.
pub fn calculate_height(expr: &Expr, height: usize) -> (r: usize)
    ensures
        r == spec_height(*expr, height as int),
        height <= r,
    decreases *expr,
{
    let deeper = if height < usize::MAX {
        height + 1
    } else {
        height
    };
    match expr {
        Expr::Binary { left, right, .. } => {
            let left_height = calculate_height(left, deeper);
            let right_height = calculate_height(right, deeper);
            if left_height >= right_height {
                left_height
            } else {
                right_height
            }
        },
        Expr::Grouping { expr } => calculate_height(expr, deeper),
        Expr::Unary { expr, .. } => calculate_height(expr, deeper),
        _ => height,
    }
}

/// The widest label in any level: an upper bound on every label's
/// length that some label reaches unless there are none.
pub fn get_widest(levels: &Vec<Vec<String>>) -> (r: usize)
    ensures
        forall|i: int, j: int|
            0 <= i < levels@.len() && 0 <= j < levels@[i]@.len() ==> (#[trigger] levels@[i]@[j])@.len()
                <= r,
        r == 0 || exists|i: int, j: int|
            0 <= i < levels@.len() && 0 <= j < levels@[i]@.len() && (#[trigger] levels@[i]@[j])@.len()
                == r,
{
    let mut widest: usize = 0;
    let n = levels.len();
    for i in 0..n
        invariant
            n == levels@.len(),
            forall|a: int, b: int|
                0 <= a < i && 0 <= b < levels@[a]@.len() ==> (#[trigger] levels@[a]@[b])@.len()
                    <= widest,
            widest == 0 || exists|a: int, b: int|
                0 <= a < levels@.len() && 0 <= b < levels@[a]@.len() && (
                #[trigger] levels@[a]@[b])@.len() == widest,
        decreases n - i,
    {
        let level = &levels[i];
        let m = level.len();
        for j in 0..m
            invariant
                n == levels@.len(),
                i < n,
                m == levels@[i as int]@.len(),
                level == levels@[i as int],
                forall|a: int, b: int|
                    0 <= a < i && 0 <= b < levels@[a]@.len() ==> (#[trigger] levels@[a]@[b])@.len()
                        <= widest,
                forall|b: int|
                    0 <= b < j ==> (#[trigger] levels@[i as int]@[b])@.len() <= widest,
                widest == 0 || exists|a: int, b: int|
                    0 <= a < levels@.len() && 0 <= b < levels@[a]@.len() && (
                    #[trigger] levels@[a]@[b])@.len() == widest,
            decreases m - j,
        {
            let w = level[j].as_str().unicode_len();
            if w > widest {
                widest = w;
                proof {
                    assert((levels@[i as int]@[j as int])@.len() == widest);
                }
            }
        }
    }
    widest
}

/// How a leaf label reads for each expression kind.
pub open spec fn spec_node_repr(e: Expr) -> Seq<char> {
    match e {
        Expr::Binary { op, .. } => spec_op_repr(op),
        Expr::Grouping { .. } => "GR"@,
        Expr::Unary { .. } => "UN"@,
        Expr::Literal { value } => spec_literal_repr(value),
        Expr::Var { name, .. } => name@,
        Expr::Assign { .. } => "ASSIGN"@,
        Expr::Logical { .. } => "LOGICAL"@,
        Expr::Call { .. } => "CALL"@,
        Expr::Closure { .. } => "CLOSURE"@,
        Expr::Get { .. } => "GET"@,
        Expr::SetProp { .. } => "SET"@,
        Expr::This { .. } => "THIS"@,
        Expr::Super { .. } => "SUPER"@,
    }
}

/// The symbol of a binary operator.
pub open spec fn spec_op_repr(op: BinOp) -> Seq<char> {
    match op {
        BinOp::Plus => "+"@,
        BinOp::Minus => "-"@,
        BinOp::Star => "*"@,
        BinOp::Divide => "/"@,
        BinOp::Modulo => "%"@,
        BinOp::BangEquals => "!="@,
        BinOp::Compare => "=="@,
        BinOp::Less => "<"@,
        BinOp::LessEquals => "<="@,
        BinOp::Greater => ">"@,
        BinOp::GreaterEquals => ">="@,
    }
}

/// How a literal reads as a label.
pub open spec fn spec_literal_repr(l: Literal) -> Seq<char> {
    match l {
        Literal::Number(n) => spec_int_str(n as int),
        Literal::Str(s) => s@,
        Literal::Bool(b) => if b {
            "true"@
        } else {
            "false"@
        },
        Literal::Null => "null"@,
    }
}

/// The symbol of a binary operator.
fn op_repr(op: &BinOp) -> (s: String)
    ensures
        s@ == spec_op_repr(*op),
{
    let text: &str = match op {
        BinOp::Plus => "+",
        BinOp::Minus => "-",
        BinOp::Star => "*",
        BinOp::Divide => "/",
        BinOp::Modulo => "%",
        BinOp::BangEquals => "!=",
        BinOp::Compare => "==",
        BinOp::Less => "<",
        BinOp::LessEquals => "<=",
        BinOp::Greater => ">",
        BinOp::GreaterEquals => ">=",
    };
    String::from_str(text)
}

/// How a literal reads as a label.
fn literal_repr(l: &Literal) -> (s: String)
    ensures
        s@ == spec_literal_repr(*l),
{
    match l {
        Literal::Number(n) => crate::numfmt::i64_to_string(*n),
        Literal::Str(st) => st.clone(),
        Literal::Bool(b) => {
            if *b {
                String::from_str("true")
            } else {
                String::from_str("false")
            }
        },
        Literal::Null => String::from_str("null"),
    }
}

/// Collects the labels of `expr` and every drawn child into `levels`:
/// children land one row deeper, and the node's own label is appended to
/// row `depth` after its children's rows. Existing labels stay where
/// they are.
pub fn visit_node(expr: &Expr, depth: usize, levels: &mut Vec<Vec<String>>)
    requires
        spec_height(*expr, depth as int) < old(levels)@.len(),
    ensures
        final(levels)@.len() == old(levels)@.len(),
        forall|i: int|
            0 <= i < final(levels)@.len() ==> {
                &&& old(levels)@[i]@.len() <= (#[trigger] final(levels)@[i])@.len()
                &&& forall|j: int|
                    0 <= j < old(levels)@[i]@.len() ==> #[trigger] final(levels)@[i]@[j]@ == old(
                        levels,
                    )@[i]@[j]@
            },
        final(levels)@[depth as int]@.len() > 0,
        final(levels)@[depth as int]@.last()@ == spec_node_repr(*expr),
    decreases *expr,
{
    let total = levels.len();
    proof {
        lemma_height_at_least(*expr, depth as int);
    }
    let representation: String = match expr {
        Expr::Binary { left, op, right, .. } => {
            visit_node(left, depth + 1, levels);
            visit_node(right, depth + 1, levels);
            op_repr(op)
        },
        Expr::Grouping { expr: inner } => {
            visit_node(inner, depth + 1, levels);
            String::from_str("GR")
        },
        Expr::Unary { expr: inner, .. } => {
            visit_node(inner, depth + 1, levels);
            String::from_str("UN")
        },
        Expr::Literal { value } => literal_repr(value),
        Expr::Var { name, .. } => name.clone(),
        Expr::Assign { .. } => String::from_str("ASSIGN"),
        Expr::Logical { .. } => String::from_str("LOGICAL"),
        Expr::Call { .. } => String::from_str("CALL"),
        Expr::Closure { .. } => String::from_str("CLOSURE"),
        Expr::Get { .. } => String::from_str("GET"),
        Expr::SetProp { .. } => String::from_str("SET"),
        Expr::This { .. } => String::from_str("THIS"),
        Expr::Super { .. } => String::from_str("SUPER"),
    };
    let row = &mut levels[depth];
    row.push(representation);
}

/// Renders an expression tree as one text row per depth level, labels
/// padded to equal width; each row of the result is one line.
#[verifier::loop_isolation(false)]
pub fn render_ast(expr: &Expr) -> (lines: Vec<String>)
    ensures
        lines@.len() == if spec_height(*expr, 0) < usize::MAX {
            spec_height(*expr, 0) + 1
        } else {
            0int
        },
{
    let height = calculate_height(expr, 0);
    if height == usize::MAX {
        return Vec::new();
    }
    let mut levels: Vec<Vec<String>> = Vec::new();
    let mut i: usize = 0;
    while i < height + 1
        invariant
            i <= height + 1,
            levels@.len() == i,
        decreases height + 1 - i,
    {
        levels.push(Vec::new());
        i = i + 1;
    }
    visit_node(expr, 0, &mut levels);
    let branch_width = get_widest(&levels);
    let mut lines: Vec<String> = Vec::new();
    let n = levels.len();
    for x in 0..n
        invariant
            n == levels@.len(),
            lines@.len() == x,
        decreases n - x,
    {
        let mut line = String::new();
        let level = &levels[x];
        let m = level.len();
        for y in 0..m
            decreases m - y,
        {
            if y == 0 {
                let reps = n - 1 - x;
                let mut k: usize = 0;
                while k < reps
                    decreases reps - k,
                {
                    let pad = generate_offset(branch_width);
                    line.append(pad.as_str());
                    k = k + 1;
                }
            }
            let pad = generate_offset(branch_width);
            line.append(pad.as_str());
            line.append(level[y].as_str());
            let pad = generate_offset(branch_width);
            line.append(pad.as_str());
        }
        lines.push(line);
    }
    lines
}

} // verus!
