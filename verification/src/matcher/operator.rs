use vstd::prelude::*;

use crate::parser::lift;

verus! {

/// A relational operator.
#[derive(Debug, Clone, Copy, PartialEq, Eq)]
pub enum RelationalOp {
    /// equal, `==`
    Eq,
    /// not equal, `!=`
    Ne,
    /// greater than, `>`
    Gt,
    /// greater than or equal, `>=`
    Ge,
    /// less than, `<`
    Lt,
    /// less than or equal, `<=`
    Le,
    /// starts with, `=^`
    StartsWith,
    /// starts not with, `!^`
    StartsNotWith,
    /// ends with, `=$`
    EndsWith,
    /// ends not with, `!$`
    EndsNotWith,
    /// similar, `=*`
    Similar,
    /// contains, `=?`
    Contains,
}

/// The operators that compare numbers.
pub open spec fn usize_applicable(op: RelationalOp) -> bool {
    op is Eq || op is Ne || op is Ge || op is Gt || op is Lt || op is Le
}

/// The operators that compare strings: all but the orderings.
pub open spec fn str_applicable(op: RelationalOp) -> bool {
    !(op is Ge || op is Gt || op is Lt || op is Le)
}

/// The text of an operator.
pub open spec fn op_bytes(op: RelationalOp) -> Seq<u8> {
    match op {
        RelationalOp::Eq => seq![0x3du8, 0x3du8],
        RelationalOp::Ne => seq![0x21u8, 0x3du8],
        RelationalOp::Gt => seq![0x3eu8],
        RelationalOp::Ge => seq![0x3eu8, 0x3du8],
        RelationalOp::Lt => seq![0x3cu8],
        RelationalOp::Le => seq![0x3cu8, 0x3du8],
        RelationalOp::StartsWith => seq![0x3du8, 0x5eu8],
        RelationalOp::StartsNotWith => seq![0x21u8, 0x5eu8],
        RelationalOp::EndsWith => seq![0x3du8, 0x24u8],
        RelationalOp::EndsNotWith => seq![0x21u8, 0x24u8],
        RelationalOp::Similar => seq![0x3du8, 0x2au8],
        RelationalOp::Contains => seq![0x3du8, 0x3fu8],
    }
}

/// The text `t` stands at position `i` of `s`.
pub open spec fn text_at(s: Seq<u8>, i: int, t: Seq<u8>) -> bool {
    0 <= i && i + t.len() <= s.len() && s.subrange(i, i + t.len()) == t
}

impl RelationalOp {
    /// Tells whether the operator compares numbers.
    pub fn is_usize_applicable(&self) -> (r: bool)
        ensures
            r == usize_applicable(*self),
    {
        match self {
            RelationalOp::Eq | RelationalOp::Ne | RelationalOp::Ge | RelationalOp::Gt
            | RelationalOp::Lt | RelationalOp::Le => true,
            _ => false,
        }
    }

    /// Tells whether the operator compares strings.
    pub fn is_str_applicable(&self) -> (r: bool)
        ensures
            r == str_applicable(*self),
    {
        match self {
            RelationalOp::Ge | RelationalOp::Gt | RelationalOp::Lt | RelationalOp::Le => false,
            _ => true,
        }
    }

    /// The text of the operator.
    pub fn to_bytes(&self) -> (r: Vec<u8>)
        ensures
            r@ == op_bytes(*self),
    {
        let r = match self {
            RelationalOp::Eq => vec![0x3du8, 0x3du8],
            RelationalOp::Ne => vec![0x21u8, 0x3du8],
            RelationalOp::Gt => vec![0x3eu8],
            RelationalOp::Ge => vec![0x3eu8, 0x3du8],
            RelationalOp::Lt => vec![0x3cu8],
            RelationalOp::Le => vec![0x3cu8, 0x3du8],
            RelationalOp::StartsWith => vec![0x3du8, 0x5eu8],
            RelationalOp::StartsNotWith => vec![0x21u8, 0x5eu8],
            RelationalOp::EndsWith => vec![0x3du8, 0x24u8],
            RelationalOp::EndsNotWith => vec![0x21u8, 0x24u8],
            RelationalOp::Similar => vec![0x3du8, 0x2au8],
            RelationalOp::Contains => vec![0x3du8, 0x3fu8],
        };
        assert(r@ =~= op_bytes(*self));
        r
    }
}

/// The relational operator at position `i`, as the first of `==`, `!=`,
/// `=^`, `!^`, `=$`, `!$`, `=*`, `=?`, `>=`, `>`, `<=`, `<` that stands
/// there, with its end.
pub open spec fn op_at(b: Seq<u8>, i: int) -> Option<(RelationalOp, int)> {
    if !(0 <= i < b.len()) {
        None
    } else {
        let c0 = b[i];
        let has_c1 = i + 1 < b.len();
        let c1 = if has_c1 {
            b[i + 1]
        } else {
            0u8
        };
        if c0 == 0x3d && has_c1 && c1 == 0x3d {
            Some((RelationalOp::Eq, i + 2))
        } else if c0 == 0x21 && has_c1 && c1 == 0x3d {
            Some((RelationalOp::Ne, i + 2))
        } else if c0 == 0x3d && has_c1 && c1 == 0x5e {
            Some((RelationalOp::StartsWith, i + 2))
        } else if c0 == 0x21 && has_c1 && c1 == 0x5e {
            Some((RelationalOp::StartsNotWith, i + 2))
        } else if c0 == 0x3d && has_c1 && c1 == 0x24 {
            Some((RelationalOp::EndsWith, i + 2))
        } else if c0 == 0x21 && has_c1 && c1 == 0x24 {
            Some((RelationalOp::EndsNotWith, i + 2))
        } else if c0 == 0x3d && has_c1 && c1 == 0x2a {
            Some((RelationalOp::Similar, i + 2))
        } else if c0 == 0x3d && has_c1 && c1 == 0x3f {
            Some((RelationalOp::Contains, i + 2))
        } else if c0 == 0x3e && has_c1 && c1 == 0x3d {
            Some((RelationalOp::Ge, i + 2))
        } else if c0 == 0x3e {
            Some((RelationalOp::Gt, i + 1))
        } else if c0 == 0x3c && has_c1 && c1 == 0x3d {
            Some((RelationalOp::Le, i + 2))
        } else if c0 == 0x3c {
            Some((RelationalOp::Lt, i + 1))
        } else {
            None
        }
    }
}

/// Reads a relational operator at position `i`; of `>` and `>=` (and of
/// `<` and `<=`) it takes the longer where it stands.
pub fn parse_relational_operator(b: &[u8], i: usize) -> (r: Option<(RelationalOp, usize)>)
    ensures
        lift(r) == op_at(b@, i as int),
        match r {
            Some((op, e)) => {
                &&& text_at(b@, i as int, op_bytes(op))
                &&& e == i + op_bytes(op).len()
                &&& (op is Gt ==> !text_at(b@, i as int, op_bytes(RelationalOp::Ge)))
                &&& (op is Lt ==> !text_at(b@, i as int, op_bytes(RelationalOp::Le)))
            },
            None => forall|op: RelationalOp| !text_at(b@, i as int, #[trigger] op_bytes(op)),
        },
{
    if i >= b.len() {
        return None;
    }
    let c0 = b[i];
    let has_c1 = b.len() - i >= 2;
    let c1 = if has_c1 {
        b[i + 1]
    } else {
        0
    };
    let op = if c0 == 0x3d && has_c1 && c1 == 0x3d {
        Some(RelationalOp::Eq)
    } else if c0 == 0x21 && has_c1 && c1 == 0x3d {
        Some(RelationalOp::Ne)
    } else if c0 == 0x3d && has_c1 && c1 == 0x5e {
        Some(RelationalOp::StartsWith)
    } else if c0 == 0x21 && has_c1 && c1 == 0x5e {
        Some(RelationalOp::StartsNotWith)
    } else if c0 == 0x3d && has_c1 && c1 == 0x24 {
        Some(RelationalOp::EndsWith)
    } else if c0 == 0x21 && has_c1 && c1 == 0x24 {
        Some(RelationalOp::EndsNotWith)
    } else if c0 == 0x3d && has_c1 && c1 == 0x2a {
        Some(RelationalOp::Similar)
    } else if c0 == 0x3d && has_c1 && c1 == 0x3f {
        Some(RelationalOp::Contains)
    } else if c0 == 0x3e && has_c1 && c1 == 0x3d {
        Some(RelationalOp::Ge)
    } else if c0 == 0x3e {
        Some(RelationalOp::Gt)
    } else if c0 == 0x3c && has_c1 && c1 == 0x3d {
        Some(RelationalOp::Le)
    } else if c0 == 0x3c {
        Some(RelationalOp::Lt)
    } else {
        None
    };
    proof {
        assert forall|o: RelationalOp| #[trigger] text_at(b@, i as int, op_bytes(o)) implies (
        b@[i as int] == op_bytes(o)[0] && (op_bytes(o).len() == 2 ==> b@[i + 1] == op_bytes(o)[1]))
            by {
            assert(b@.subrange(i as int, i + op_bytes(o).len())[0] == b@[i as int]);
            if op_bytes(o).len() == 2 {
                assert(b@.subrange(i as int, i + op_bytes(o).len())[1] == b@[i + 1]);
            }
        }
    }
    match op {
        Some(o) => {
            let n: usize = if c0 == 0x3e || c0 == 0x3c {
                if has_c1 && c1 == 0x3d {
                    2
                } else {
                    1
                }
            } else {
                2
            };
            assert(n == op_bytes(o).len());
            assert(b@.subrange(i as int, i + n) =~= op_bytes(o));
            Some((o, i + n))
        },
        None => None,
    }
}

/// A boolean connective.
#[derive(Debug, Clone, Copy, PartialEq, Eq)]
pub enum BooleanOp {
    /// and, `&&`
    And,
    /// or, `||`
    Or,
    /// exclusive or, `^`
    Xor,
}

/// What a boolean connective makes of two truth values.
pub open spec fn apply_boolean_op(op: BooleanOp, a: bool, b: bool) -> bool {
    match op {
        BooleanOp::And => a && b,
        BooleanOp::Or => a || b,
        BooleanOp::Xor => a != b,
    }
}

} // verus!
