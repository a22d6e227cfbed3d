//! The names of operators, and the name that an accessor reads from.

use vstd::prelude::*;

use crate::jinja::ast::{self, BinOp, CmpOp, ExprModel, KindModel, UnOp};

verus! {

/// Every operator has its own name.
pub proof fn operators_are_named()
    ensures
        BinOp::Add.class_name() == "Add"@,
        BinOp::Sub.class_name() == "Sub"@,
        BinOp::Mul.class_name() == "Mul"@,
        BinOp::Div.class_name() == "Div"@,
        BinOp::FloorDiv.class_name() == "FloorDiv"@,
        BinOp::Mod.class_name() == "Mod"@,
        BinOp::Pow.class_name() == "Pow"@,
        BinOp::And.class_name() == "And"@,
        BinOp::Or.class_name() == "Or"@,
        UnOp::Not.class_name() == "Not"@,
        UnOp::Neg.class_name() == "Neg"@,
        UnOp::Pos.class_name() == "Pos"@,
        CmpOp::Eq.operand_name() == "eq"@,
        CmpOp::Ne.operand_name() == "ne"@,
        CmpOp::Gt.operand_name() == "gt"@,
        CmpOp::Gteq.operand_name() == "gteq"@,
        CmpOp::Lt.operand_name() == "lt"@,
        CmpOp::Lteq.operand_name() == "lteq"@,
        CmpOp::In.operand_name() == "in"@,
        CmpOp::NotIn.operand_name() == "notin"@,
{
}

/// Is the tree a name with this many accessors, attributes or items, on it?
pub open spec fn spine(e: ExprModel, name: Seq<char>, n: nat) -> bool
    decreases n,
{
    if n == 0 {
        e.kind == KindModel::Name(name)
    } else {
        match e.kind {
            KindModel::Getattr(node, _) => spine(*node, name, (n - 1) as nat),
            KindModel::Getitem(node, _) => spine(*node, name, (n - 1) as nat),
            _ => false,
        }
    }
}

/// An expression reads from a name where it is that name with accessors on it, however many, and
/// from none otherwise.
pub proof fn an_accessor_reads_from_its_name(e: ExprModel, name: Seq<char>, n: nat)
    ensures
        spine(e, name, n) ==> ast::root_of(e) == Some(name),
        ast::root_of(e) == Some(name) ==> exists|k: nat| #[trigger] spine(e, name, k),
    decreases e,
{
    if spine(e, name, n) {
        reads_from(e, name, n);
    }
    if ast::root_of(e) == Some(name) {
        match e.kind {
            KindModel::Name(_) => {
                assert(spine(e, name, 0));
            },
            KindModel::Getattr(node, _) => {
                an_accessor_reads_from_its_name(*node, name, 0);
                let k = choose|k: nat| #[trigger] spine(*node, name, k);
                assert(spine(e, name, k + 1));
            },
            KindModel::Getitem(node, _) => {
                an_accessor_reads_from_its_name(*node, name, 0);
                let k = choose|k: nat| #[trigger] spine(*node, name, k);
                assert(spine(e, name, k + 1));
            },
            _ => {},
        }
    }
}

proof fn reads_from(e: ExprModel, name: Seq<char>, n: nat)
    requires
        spine(e, name, n),
    ensures
        ast::root_of(e) == Some(name),
    decreases n,
{
    if n > 0 {
        match e.kind {
            KindModel::Getattr(node, _) => reads_from(*node, name, (n - 1) as nat),
            KindModel::Getitem(node, _) => reads_from(*node, name, (n - 1) as nat),
            _ => {},
        }
    }
}

} // verus!
