//! Building a record matcher from several matcher expressions.
use vstd::prelude::*;
use vstd::string::StringSliceAdditionalSpecFns;

use super::field::parser::{field_ast, field_matcher_at, field_singleton_ast, FieldAst, FieldSingletonAst};
use super::field::{self, FieldMatcher};
use super::subfield::parser::{singleton_ast, subfield_ast, SingletonAst, SubfieldAst};
use super::subfield::{self as sub, SubfieldMatcher};
use super::record::lemma_record_not;
use super::{BooleanOp, ParseMatcherError, RecordMatcher};

verus! {

/// What the text is read as, where the whole of it is a field matcher.
pub open spec fn parsed(s: &str) -> Option<FieldAst> {
    match field_matcher_at(s.spec_bytes(), 0) {
        Some((a, e)) => if e == s.spec_bytes().len() {
            Some(a)
        } else {
            None
        },
        None => None,
    }
}

/// An operand of `&&`: a composite matcher joined by `||` or `^` is put in
/// a group.
pub open spec fn ast_and_operand(a: FieldAst) -> FieldAst {
    if a is Composite && !(a matches FieldAst::Composite(_, BooleanOp::And, _)) {
        FieldAst::Group(Box::new(a))
    } else {
        a
    }
}

/// An operand of `||` is taken as it is.
pub open spec fn ast_or(a: FieldAst, b: FieldAst) -> FieldAst {
    FieldAst::Composite(Box::new(a), BooleanOp::Or, Box::new(b))
}

/// Two matchers joined by `&&`.
pub open spec fn ast_and(a: FieldAst, b: FieldAst) -> FieldAst {
    FieldAst::Composite(Box::new(ast_and_operand(a)), BooleanOp::And, Box::new(ast_and_operand(b)))
}

/// The negation of a matcher: a subfield existence test, a group or a
/// negation is negated as it is, any other matcher is put in a group first.
pub open spec fn ast_not(a: FieldAst) -> FieldAst {
    let plain = a is Group || a is Not || (a matches FieldAst::Singleton(
        FieldSingletonAst::Subfields(_, _, _, SubfieldAst::Singleton(SingletonAst::Exists(_, _)), _),
    ));
    if plain {
        FieldAst::Not(Box::new(a))
    } else {
        FieldAst::Not(Box::new(FieldAst::Group(Box::new(a))))
    }
}

/// The way a builder joins a further matcher.
pub enum Join {
    And,
    Or,
    AndNot,
}

/// The matcher joined with another.
pub open spec fn join_step(acc: FieldAst, how: Join, p: FieldAst) -> FieldAst {
    match how {
        Join::And => ast_and(acc, p),
        Join::Or => ast_or(acc, p),
        Join::AndNot => ast_and(acc, ast_not(p)),
    }
}

/// The matcher joined with the matchers read from the texts, in order;
/// `None` where one of the texts is not a matcher.
pub open spec fn join_all(acc: FieldAst, how: Join, preds: Seq<&str>) -> Option<FieldAst>
    decreases preds.len(),
{
    if preds.len() == 0 {
        Some(acc)
    } else {
        match parsed(preds[0]) {
            Some(p) => join_all(join_step(acc, how, p), how, preds.drop_first()),
            None => None,
        }
    }
}

/// The connectives of field matchers, as read.
proof fn lemma_joins(a: FieldMatcher, b: FieldMatcher)
    ensures
        field_ast(field::composite(field::and_operand(a), BooleanOp::And, field::and_operand(b)))
            == ast_and(field_ast(a), field_ast(b)),
        field_ast(field::composite(a, BooleanOp::Or, b)) == ast_or(field_ast(a), field_ast(b)),
        field_ast(field::negation(b)) == ast_not(field_ast(b)),
{
    assert(field_ast(field::and_operand(a)) == ast_and_operand(field_ast(a)));
    assert(field_ast(field::and_operand(b)) == ast_and_operand(field_ast(b)));
    lemma_not_plain(b);
    let g = FieldMatcher::Group(Box::new(b));
    assert(field_ast(g) == FieldAst::Group(Box::new(field_ast(b))));
    assert(field_ast(FieldMatcher::Not(Box::new(g))) == FieldAst::Not(Box::new(field_ast(g))));
    assert(field_ast(FieldMatcher::Not(Box::new(b))) == FieldAst::Not(Box::new(field_ast(b))));
}

/// A matcher is negated as it is exactly where what it is read as is.
proof fn lemma_not_plain(b: FieldMatcher)
    ensures
        (b is Group || b is Not || field::is_subfield_exists(b)) == ({
            let a = field_ast(b);
            a is Group || a is Not || (a matches FieldAst::Singleton(
                FieldSingletonAst::Subfields(_, _, _, SubfieldAst::Singleton(SingletonAst::Exists(_, _)), _),
            ))
        }),
{
    match b {
        FieldMatcher::Singleton(s) => match s {
            field::SingletonMatcher::Subfields(x) => {
                let sm = x@.subfield_matcher;
                assert(field_ast(b) == FieldAst::Singleton(field_singleton_ast(s)));
                match sm {
                    SubfieldMatcher::Singleton(ss) => {
                        assert(subfield_ast(sm) == SubfieldAst::Singleton(singleton_ast(ss)));
                        match ss {
                            sub::SingletonMatcher::Exists(_) => {},
                            _ => {
                                assert(!(singleton_ast(ss) is Exists));
                            },
                        }
                    },
                    SubfieldMatcher::Group(_) => {},
                    SubfieldMatcher::Not(_) => {},
                    SubfieldMatcher::Composite { .. } => {},
                }
            },
            field::SingletonMatcher::Exists(_) => {
                assert(field_ast(b) == FieldAst::Singleton(field_singleton_ast(s)));
            },
        },
        FieldMatcher::Cardinality(_) => {},
        FieldMatcher::Group(_) => {},
        FieldMatcher::Not(_) => {},
        FieldMatcher::Composite { .. } => {},
    }
}

/// Builds a record matcher: a first matcher, joined in turn with further
/// matchers by `&&`, by `||`, or by `&&` with their negation.
pub struct RecordMatcherBuilder {
    pub(crate) matcher: RecordMatcher,
}

impl RecordMatcherBuilder {
    /// What the matcher built so far is read as.
    pub closed spec fn current(&self) -> FieldAst {
        field_ast(self.matcher@)
    }

    /// Starts with the matcher read from the text; fails where the text is
    /// not a matcher.
    pub fn new(matcher: &str) -> (r: Result<Self, ParseMatcherError>)
        ensures
            r is Ok <==> parsed(matcher) is Some,
            r matches Ok(b) ==> Some(b.current()) == parsed(matcher),
    {
        match RecordMatcher::new(matcher) {
            Ok(m) => Ok(RecordMatcherBuilder { matcher: m }),
            Err(e) => Err(e),
        }
    }

    /// The matcher joined with another.
    fn join_one(m: RecordMatcher, how: &Join, p: RecordMatcher) -> (r: RecordMatcher)
        ensures
            field_ast(r@) == join_step(field_ast(m@), *how, field_ast(p@)),
    {
        let ghost before = m@;
        let ghost added = p@;
        proof {
            lemma_joins(before, added);
        }
        let mut m = m;
        match how {
            Join::And => {
                core::ops::BitAndAssign::bitand_assign(&mut m, p);
            },
            Join::Or => {
                core::ops::BitOrAssign::bitor_assign(&mut m, p);
            },
            Join::AndNot => {
                let n = core::ops::Not::not(p);
                proof {
                    lemma_record_not(p);
                    lemma_joins(before, n@);
                }
                core::ops::BitAndAssign::bitand_assign(&mut m, n);
            },
        }
        m
    }

    fn join(self, predicates: Vec<&str>, how: Join) -> (r: Result<Self, ParseMatcherError>)
        ensures
            r is Ok <==> join_all(self.current(), how, predicates@) is Some,
            r matches Ok(b) ==> Some(b.current()) == join_all(self.current(), how, predicates@),
    {
        let ghost orig = self.current();
        let mut m = self.matcher;
        assert(predicates@.skip(0) =~= predicates@);
        let mut k: usize = 0;
        while k < predicates.len()
            invariant
                0 <= k <= predicates@.len(),
                orig == self.current(),
                join_all(orig, how, predicates@) == join_all(field_ast(m@), how, predicates@.skip(k as int)),
            decreases predicates@.len() - k,
        {
            assert(predicates@.skip(k as int).drop_first() =~= predicates@.skip(k + 1));
            assert(predicates@.skip(k as int)[0] == predicates@[k as int]);
            let p = match RecordMatcher::new(predicates[k]) {
                Ok(p) => p,
                Err(e) => {
                    assert(parsed(predicates@[k as int]) is None);
                    assert(join_all(field_ast(m@), how, predicates@.skip(k as int)) is None);
                    return Err(e);
                },
            };
            m = Self::join_one(m, &how, p);
            k = k + 1;
        }
        assert(predicates@.skip(k as int) =~= Seq::<&str>::empty());
        Ok(RecordMatcherBuilder { matcher: m })
    }

    /// Joins the matchers read from the texts by `&&`, in order; fails at
    /// the first text that is not a matcher.
    pub fn and(self, predicates: Vec<&str>) -> (r: Result<Self, ParseMatcherError>)
        ensures
            r is Ok <==> join_all(self.current(), Join::And, predicates@) is Some,
            r matches Ok(b) ==> Some(b.current()) == join_all(self.current(), Join::And, predicates@),
    {
        self.join(predicates, Join::And)
    }

    /// Joins the matchers read from the texts by `||`, in order; fails at
    /// the first text that is not a matcher.
    pub fn or(self, predicates: Vec<&str>) -> (r: Result<Self, ParseMatcherError>)
        ensures
            r is Ok <==> join_all(self.current(), Join::Or, predicates@) is Some,
            r matches Ok(b) ==> Some(b.current()) == join_all(self.current(), Join::Or, predicates@),
    {
        self.join(predicates, Join::Or)
    }

    /// Joins the negations of the matchers read from the texts by `&&`, in
    /// order; fails at the first text that is not a matcher.
    pub fn not(self, predicates: Vec<&str>) -> (r: Result<Self, ParseMatcherError>)
        ensures
            r is Ok <==> join_all(self.current(), Join::AndNot, predicates@) is Some,
            r matches Ok(b) ==> Some(b.current()) == join_all(self.current(), Join::AndNot, predicates@),
    {
        self.join(predicates, Join::AndNot)
    }

    /// The matcher built.
    pub fn build(self) -> (r: RecordMatcher)
        ensures
            field_ast(r@) == self.current(),
    {
        self.matcher
    }
}

} // verus!
