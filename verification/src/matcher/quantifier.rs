use vstd::prelude::*;

use crate::parser::lift;

verus! {

/// Whether a condition must hold for all or for any of the values.
#[derive(Debug, Clone, Copy, PartialEq, Eq)]
pub enum Quantifier {
    All,
    Any,
}

impl Default for Quantifier {
    fn default() -> (r: Self)
        ensures
            r == Quantifier::Any,
    {
        Quantifier::Any
    }
}

/// The text of a quantifier.
pub open spec fn quantifier_bytes(q: Quantifier) -> Seq<u8> {
    match q {
        Quantifier::All => seq![0x41u8, 0x4cu8, 0x4cu8],
        Quantifier::Any => seq![0x41u8, 0x4eu8, 0x59u8],
    }
}

impl Quantifier {
    /// The text of the quantifier: `ALL` or `ANY`.
    pub fn to_string(&self) -> (r: String)
        ensures
            r@ == match *self {
                Quantifier::All => "ALL"@,
                Quantifier::Any => "ANY"@,
            },
    {
        match *self {
            Quantifier::All => "ALL".to_string(),
            Quantifier::Any => "ANY".to_string(),
        }
    }
}

/// The quantifier at position `i`, with its end.
pub open spec fn quantifier_at(b: Seq<u8>, i: int) -> Option<(Quantifier, int)> {
    if 0 <= i && i + 3 <= b.len() && b.subrange(i, i + 3) == quantifier_bytes(Quantifier::All) {
        Some((Quantifier::All, i + 3))
    } else if 0 <= i && i + 3 <= b.len() && b.subrange(i, i + 3) == quantifier_bytes(Quantifier::Any) {
        Some((Quantifier::Any, i + 3))
    } else {
        None
    }
}

/// Reads `ALL` or `ANY` at position `i`.
pub fn parse_quantifier(b: &[u8], i: usize) -> (r: Option<(Quantifier, usize)>)
    ensures
        lift(r) == quantifier_at(b@, i as int),
        match r {
            Some((q, e)) => e == i + 3 && e <= b@.len() && b@.subrange(i as int, e as int)
                == quantifier_bytes(q),
            None => forall|q: Quantifier|
                !(i + 3 <= b@.len() && b@.subrange(i as int, i + 3) == #[trigger] quantifier_bytes(
                    q,
                )),
        },
{
    if i <= b.len() && b.len() - i >= 3 && b[i] == 0x41 {
        if b[i + 1] == 0x4c && b[i + 2] == 0x4c {
            assert(b@.subrange(i as int, i + 3) =~= quantifier_bytes(Quantifier::All));
            return Some((Quantifier::All, i + 3));
        }
        if b[i + 1] == 0x4e && b[i + 2] == 0x59 {
            assert(b@.subrange(i as int, i + 3) =~= quantifier_bytes(Quantifier::Any));
            return Some((Quantifier::Any, i + 3));
        }
    }
    proof {
        assert forall|q: Quantifier|
            !(i + 3 <= b@.len() && b@.subrange(i as int, i + 3) == #[trigger] quantifier_bytes(q)) by {
            if i + 3 <= b@.len() && b@.subrange(i as int, i + 3) == quantifier_bytes(q) {
                assert(b@[i as int] == b@.subrange(i as int, i + 3)[0]);
                assert(b@[i + 1] == b@.subrange(i as int, i + 3)[1]);
                assert(b@[i + 2] == b@.subrange(i as int, i + 3)[2]);
            }
        }
    }
    None
}

} // verus!
