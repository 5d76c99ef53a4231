//! Post-order translation of binary expression trees into a flat list
//! of textual stack commands: each node's operands are emitted before
//! the node's own command, so the list runs on a value stack.

use vstd::prelude::*;
use vstd::string::StringExecFns;

verus! {

/// What a tree node stands for.
#[derive(Debug, Copy, Clone, PartialEq, Eq, Structural)]
pub enum NodeKind {
    NdNum,
    NdOperator,
    NdComparisonOperator,
    NdVariable,
}

/// One node of a binary expression tree. `val` carries the literal text,
/// the operator spelling, or the variable name, depending on `kind`.
#[derive(Debug)]
pub struct Node {
    pub kind: NodeKind,
    pub val: String,
    pub left: Option<Box<Node>>,
    pub right: Option<Box<Node>>,
}

/// A tree whose operator spellings are all known: `+ - * /` for
/// arithmetic, `== != < <=` for comparisons.
pub open spec fn node_wf(n: Node) -> bool
    decreases n,
{
    &&& match n.kind {
        NodeKind::NdOperator => n.val@ == "+"@ || n.val@ == "-"@ || n.val@ == "*"@ || n.val@
            == "/"@,
        NodeKind::NdComparisonOperator => n.val@ == "=="@ || n.val@ == "!="@ || n.val@ == "<"@
            || n.val@ == "<="@,
        _ => true,
    }
    &&& match n.left {
        Some(l) => node_wf(*l),
        None => true,
    }
    &&& match n.right {
        Some(r) => node_wf(*r),
        None => true,
    }
}

/// The command one node contributes.
pub open spec fn node_command(n: Node) -> Seq<char> {
    match n.kind {
        NodeKind::NdNum => "PUSH "@ + n.val@,
        NodeKind::NdOperator => if n.val@ == "+"@ {
            "ADD"@
        } else if n.val@ == "-"@ {
            "SUB"@
        } else if n.val@ == "*"@ {
            "MUL"@
        } else {
            "DIV"@
        },
        NodeKind::NdComparisonOperator => if n.val@ == "=="@ {
            "EQUAL"@
        } else if n.val@ == "!="@ {
            "NONEQUAL"@
        } else if n.val@ == "<"@ {
            "LT"@
        } else {
            "ELT"@
        },
        NodeKind::NdVariable => "LOAD "@ + n.val@,
    }
}

/// The commands of a whole tree, in post order: left subtree, right
/// subtree, then the node itself.
pub open spec fn node_commands(n: Node) -> Seq<Seq<char>>
    decreases n,
{
    (match n.left {
        Some(l) => node_commands(*l),
        None => Seq::empty(),
    }) + (match n.right {
        Some(r) => node_commands(*r),
        None => Seq::empty(),
    }) + seq![node_command(n)]
}

/// The commands of a run of optional trees, in order; a missing tree
/// contributes nothing.
pub open spec fn roots_commands(ns: Seq<Option<Node>>) -> Seq<Seq<char>>
    decreases ns,
{
    if ns.len() == 0 {
        Seq::empty()
    } else {
        (match ns[0] {
            Some(n) => node_commands(n),
            None => Seq::empty(),
        }) + roots_commands(ns.subrange(1, ns.len() as int))
    }
}

/// A command list as character sequences.
pub open spec fn strs_view(ss: Seq<String>) -> Seq<Seq<char>> {
    ss.map_values(|s: String| s@)
}

/// Append the post-order commands of one tree.
fn traverse(node: &Node, mid_commands: &mut Vec<String>)
    requires
        node_wf(*node),
    ensures
        strs_view(final(mid_commands)@) == strs_view(old(mid_commands)@) + node_commands(*node),
    decreases *node,
{
    let ghost pre = mid_commands@;
    match &node.left {
        Some(node_left) => {
            traverse(node_left, mid_commands);
        }
        None => {}
    }
    let ghost after_left = mid_commands@;
    match &node.right {
        Some(node_right) => {
            traverse(node_right, mid_commands);
        }
        None => {}
    }
    let ghost after_right = mid_commands@;
    match node.kind {
        NodeKind::NdNum => {
            let mut c = String::from_str("PUSH ");
            c.append(node.val.as_str());
            mid_commands.push(c);
        }
        NodeKind::NdOperator => {
            if node.val == String::from_str("+") {
                mid_commands.push(String::from_str("ADD"));
            } else if node.val == String::from_str("-") {
                mid_commands.push(String::from_str("SUB"));
            } else if node.val == String::from_str("*") {
                mid_commands.push(String::from_str("MUL"));
            } else {
                mid_commands.push(String::from_str("DIV"));
            }
        }
        NodeKind::NdComparisonOperator => {
            if node.val == String::from_str("==") {
                mid_commands.push(String::from_str("EQUAL"));
            } else if node.val == String::from_str("!=") {
                mid_commands.push(String::from_str("NONEQUAL"));
            } else if node.val == String::from_str("<") {
                mid_commands.push(String::from_str("LT"));
            } else {
                mid_commands.push(String::from_str("ELT"));
            }
        }
        NodeKind::NdVariable => {
            let mut c = String::from_str("LOAD ");
            c.append(node.val.as_str());
            mid_commands.push(c);
        }
    }
    proof {
        assert(strs_view(mid_commands@) =~= strs_view(after_right).push(node_command(*node)));
        assert(strs_view(mid_commands@) =~= strs_view(pre) + node_commands(*node));
    }
}

/// Translate every present tree of `ast`, in order, into one flat
/// command list.
pub fn generate_intermediate_code(ast: &Vec<Option<Node>>) -> (r: Vec<String>)
    requires
        forall|i: int| 0 <= i < ast@.len() ==> ((#[trigger] ast@[i]) matches Some(n) ==> node_wf(
            n,
        )),
    ensures
        strs_view(r@) == roots_commands(ast@),
{
    let mut mid_commands: Vec<String> = Vec::new();
    let n = ast.len();
    let mut i: usize = 0;
    proof {
        assert(ast@.subrange(0, n as int) =~= ast@);
        assert(strs_view(mid_commands@) =~= Seq::<Seq<char>>::empty());
    }
    while i < n
        invariant
            0 <= i <= n,
            n == ast@.len(),
            roots_commands(ast@) == strs_view(mid_commands@) + roots_commands(
                ast@.subrange(i as int, n as int),
            ),
        decreases n - i,
    {
        let ghost pre = mid_commands@;
        proof {
            assert(ast@.subrange(i as int, n as int)[0] == ast@[i as int]);
            assert(ast@.subrange(i as int, n as int).subrange(1, (n - i) as int)
                =~= ast@.subrange(i + 1, n as int));
        }
        match &ast[i] {
            Some(node) => {
                proof {
                    assert(decreases_to!(ast@ => ast@[i as int]));
                }
                traverse(node, &mut mid_commands);
            }
            None => {}
        }
        proof {
            assert(strs_view(mid_commands@) + roots_commands(ast@.subrange(i + 1, n as int))
                =~= strs_view(pre) + roots_commands(ast@.subrange(i as int, n as int)));
        }
        i += 1;
    }
    proof {
        assert(ast@.subrange(n as int, n as int) =~= Seq::<Option<Node>>::empty());
        assert(strs_view(mid_commands@) =~= roots_commands(ast@));
    }
    mid_commands
}

} // verus!
