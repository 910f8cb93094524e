//! Matcher that can be applied on a [TagRef].
use vstd::prelude::*;

use vstd::string::StringSliceAdditionalSpecFns;

use super::error::{invalid_message, ParseMatcherError};
use crate::bytes::{bytes_as_chars, bytes_eq, push_bytes_as_chars};
use crate::parser::{byte_at, byte_is};
use crate::primitives::model::is_tag;
use crate::primitives::parse::slice_range;
use crate::primitives::tag::is_tag_at;
use crate::primitives::{Tag, TagRef};
use crate::text::{lossy_chars, to_str_lossy};

verus! {

/// A matcher on tags: a tag, or a pattern that gives for each of the four
/// positions the bytes allowed there.
#[derive(Debug, Clone, PartialEq, Eq)]
pub enum TagMatcher {
    Tag(Tag),
    Pattern([Vec<u8>; 4], String),
}

/// The bytes that a pattern allows at each position.
pub open spec fn pattern_views(p: [Vec<u8>; 4]) -> Seq<Seq<u8>> {
    p@.map_values(|v: Vec<u8>| v@)
}

/// The text of a tag matcher: the tag, or the pattern as it was written.
pub open spec fn tag_matcher_text(m: TagMatcher) -> Seq<char> {
    match m {
        TagMatcher::Tag(t) => bytes_as_chars(t@),
        TagMatcher::Pattern(_, raw) => raw@,
    }
}

impl TagMatcher {
    /// The matcher as a human-readable string.
    pub fn to_string(&self) -> (r: String)
        ensures
            r@ == tag_matcher_text(*self),
    {
        match self {
            TagMatcher::Tag(t) => {
                let mut out = String::new();
                push_bytes_as_chars(&mut out, t.as_bytes());
                assert(out@ =~= tag_matcher_text(*self));
                out
            },
            TagMatcher::Pattern(_, raw) => raw.clone(),
        }
    }

    /// The tags that the matcher accepts.
    pub open spec fn spec_is_match(&self, tag: Seq<u8>) -> bool {
        match *self {
            TagMatcher::Tag(t) => t@ == tag,
            TagMatcher::Pattern(p, _) => pattern_accepts(pattern_views(p), tag),
        }
    }

    /// Tells whether the tag matches.
    pub fn is_match(&self, tag: &TagRef) -> (r: bool)
        ensures
            r == self.spec_is_match(tag@),
    {
        let bytes = tag.as_bytes();
        match self {
            TagMatcher::Tag(t) => bytes_eq(t.as_bytes(), bytes),
            TagMatcher::Pattern(p, _) => pattern_is_match(p, bytes),
        }
    }
}

impl From<Tag> for TagMatcher {
    /// The matcher that accepts exactly the tag.
    fn from(tag: Tag) -> (r: Self) {
        TagMatcher::Tag(tag)
    }
}

impl vstd::std_specs::convert::FromSpecImpl<Tag> for TagMatcher {
    open spec fn obeys_from_spec() -> bool {
        true
    }

    open spec fn from_spec(v: Tag) -> Self {
        TagMatcher::Tag(v)
    }
}

/// Each of the four bytes is allowed at its position by the pattern.
pub open spec fn pattern_accepts(p: Seq<Seq<u8>>, tag: Seq<u8>) -> bool {
    forall|k: int| 0 <= k < 4 ==> (#[trigger] p[k]).contains(tag[k])
}

fn pattern_is_match(p: &[Vec<u8>; 4], bytes: &[u8]) -> (r: bool)
    requires
        bytes@.len() == 4,
    ensures
        r == pattern_accepts(pattern_views(*p), bytes@),
{
    let mut k: usize = 0;
    while k < 4
        invariant
            0 <= k <= 4,
            bytes@.len() == 4,
            p@.len() == 4,
            forall|j: int| 0 <= j < k ==> (#[trigger] pattern_views(*p)[j]).contains(bytes@[j]),
        decreases 4 - k,
    {
        assert(pattern_views(*p)[k as int] == p@[k as int]@);
        if !byte_in(p[k].as_slice(), bytes[k]) {
            assert(!pattern_views(*p)[k as int].contains(bytes@[k as int]));
            return false;
        }
        k = k + 1;
    }
    true
}

/// Tells whether the byte is one of the given bytes.
pub(crate) fn byte_in(set: &[u8], c: u8) -> (r: bool)
    ensures
        r == set@.contains(c),
{
    let mut i: usize = 0;
    while i < set.len()
        invariant
            0 <= i <= set@.len(),
            forall|j: int| 0 <= j < i ==> set@[j] != c,
        decreases set@.len() - i,
    {
        if set[i] == c {
            assert(set@[i as int] == c);
            return true;
        }
        i = i + 1;
    }
    false
}


/// What a tag matcher is read as: a tag, or the allowed bytes of each
/// position and the text of the pattern.
pub enum TagAst {
    Tag(Seq<u8>),
    Pattern(Seq<Seq<u8>>, Seq<char>),
}

/// What the tag matcher is read as.
pub open spec fn tag_ast(m: TagMatcher) -> TagAst {
    match m {
        TagMatcher::Tag(t) => TagAst::Tag(t@),
        TagMatcher::Pattern(p, raw) => TagAst::Pattern(pattern_views(p), raw@),
    }
}

/// The bytes from `lo` to `hi`.
pub open spec fn byte_range(lo: u8, hi: u8) -> Seq<u8> {
    Seq::new((hi - lo + 1) as nat, |k: int| (lo + k) as u8)
}

/// One item of a list in a pattern fragment: a range `a-c` of allowed
/// bytes whose first is below its last, or a single allowed byte.
pub open spec fn fragment_item(b: Seq<u8>, i: int, allowed: Seq<u8>) -> Option<(Seq<u8>, int)> {
    if 0 <= i && i + 2 < b.len() && allowed.contains(b[i]) && b[i + 1] == 0x2d && allowed.contains(
        b[i + 2],
    ) && b[i] < b[i + 2] {
        Some((byte_range(b[i], b[i + 2]), i + 3))
    } else if 0 <= i < b.len() && allowed.contains(b[i]) {
        Some((seq![b[i]], i + 1))
    } else {
        None
    }
}

/// The items of a list in a pattern fragment from `i` on.
pub open spec fn fragment_items(b: Seq<u8>, i: int, allowed: Seq<u8>) -> (Seq<u8>, int)
    decreases b.len() - i,
{
    match fragment_item(b, i, allowed) {
        Some((s, j)) => if j > i {
            let (rest, k) = fragment_items(b, j, allowed);
            (s + rest, k)
        } else {
            (Seq::empty(), i)
        },
        None => (Seq::empty(), i),
    }
}

/// A fragment of a tag pattern at `i`: an allowed byte, `.` for all
/// allowed bytes, or a list in brackets of at least one item.
pub open spec fn fragment_at(b: Seq<u8>, i: int, allowed: Seq<u8>) -> Option<(Seq<u8>, int)> {
    if 0 <= i < b.len() && allowed.contains(b[i]) {
        Some((seq![b[i]], i + 1))
    } else if byte_at(b, i, 0x2e) {
        Some((allowed, i + 1))
    } else if byte_at(b, i, 0x5b) {
        match fragment_item(b, i + 1, allowed) {
            Some((first, j)) => {
                let (rest, k) = fragment_items(b, j, allowed);
                if byte_at(b, k, 0x5d) {
                    Some((first + rest, k + 1))
                } else {
                    None
                }
            },
            None => None,
        }
    } else {
        None
    }
}

/// The bytes allowed at the first position of a tag.
pub open spec fn allowed_first() -> Seq<u8> {
    seq![0x30u8, 0x31u8, 0x32u8]
}

/// The bytes allowed at the second and third position of a tag.
pub open spec fn allowed_digit() -> Seq<u8> {
    byte_range(0x30, 0x39)
}

/// The bytes allowed at the last position of a tag.
pub open spec fn allowed_last() -> Seq<u8> {
    byte_range(0x41, 0x5a).push(0x40)
}

/// A tag matcher at `i`: a tag, or a pattern of four fragments.
pub open spec fn tag_matcher_at(b: Seq<u8>, i: int) -> Option<(TagAst, int)> {
    if 0 <= i && i + 4 <= b.len() && is_tag(b.subrange(i, i + 4)) {
        Some((TagAst::Tag(b.subrange(i, i + 4)), i + 4))
    } else {
        match fragment_at(b, i, allowed_first()) {
            Some((p0, e0)) => match fragment_at(b, e0, allowed_digit()) {
                Some((p1, e1)) => match fragment_at(b, e1, allowed_digit()) {
                    Some((p2, e2)) => match fragment_at(b, e2, allowed_last()) {
                        Some((p3, e3)) => Some(
                            (TagAst::Pattern(seq![p0, p1, p2, p3], lossy_chars(b.subrange(i, e3))), e3),
                        ),
                        None => None,
                    },
                    None => None,
                },
                None => None,
            },
            None => None,
        }
    }
}

/// Tells whether the byte is allowed.
fn is_allowed(allowed: &[u8], c: u8) -> (r: bool)
    ensures
        r == allowed@.contains(c),
{
    byte_in(allowed, c)
}

/// Appends the bytes from `lo` to `hi`.
fn push_byte_range(out: &mut Vec<u8>, lo: u8, hi: u8)
    requires
        lo <= hi,
    ensures
        final(out)@ == old(out)@ + byte_range(lo, hi),
{
    let ghost start = out@;
    let mut c: u8 = lo;
    loop
        invariant
            lo <= c <= hi,
            start == old(out)@,
            out@ == start + byte_range(lo, hi).take(c - lo),
        decreases hi - c,
    {
        out.push(c);
        assert(byte_range(lo, hi).take(c - lo + 1) =~= byte_range(lo, hi).take(c - lo).push(c));
        assert(out@ =~= start + byte_range(lo, hi).take(c - lo + 1));
        if c == hi {
            assert(byte_range(lo, hi).take(c - lo + 1) =~= byte_range(lo, hi));
            return;
        }
        c = c + 1;
    }
}

fn parse_fragment_item(b: &[u8], i: usize, allowed: &[u8], out: &mut Vec<u8>) -> (r: Option<usize>)
    ensures
        match fragment_item(b@, i as int, allowed@) {
            Some((s, j)) => r matches Some(e) && e == j && final(out)@ == old(out)@ + s,
            None => r is None && final(out)@ == old(out)@,
        },
{
    if i < b.len() && b.len() - i > 2 && is_allowed(allowed, b[i]) && b[i + 1] == 0x2d && is_allowed(
        allowed,
        b[i + 2],
    ) && b[i] < b[i + 2] {
        push_byte_range(out, b[i], b[i + 2]);
        Some(i + 3)
    } else if i < b.len() && is_allowed(allowed, b[i]) {
        out.push(b[i]);
        Some(i + 1)
    } else {
        None
    }
}

fn parse_fragment_items(b: &[u8], i: usize, allowed: &[u8], out: &mut Vec<u8>) -> (r: usize)
    ensures
        r == fragment_items(b@, i as int, allowed@).1,
        final(out)@ == old(out)@ + fragment_items(b@, i as int, allowed@).0,
    decreases b@.len() - i,
{
    let ghost before = out@;
    match parse_fragment_item(b, i, allowed, out) {
        Some(j) => {
            let ghost item = fragment_item(b@, i as int, allowed@).unwrap().0;
            assert(fragment_item(b@, i as int, allowed@) == Some((item, j as int)));
            assert(i < j <= b@.len());
            let k = parse_fragment_items(b, j, allowed, out);
            assert(out@ =~= before + (item + fragment_items(b@, j as int, allowed@).0));
            k
        },
        None => {
            assert(out@ =~= before + fragment_items(b@, i as int, allowed@).0);
            i
        },
    }
}

/// Reads a fragment of a tag pattern at `i`.
fn parse_fragment(b: &[u8], i: usize, allowed: &[u8]) -> (r: Option<(Vec<u8>, usize)>)
    ensures
        match fragment_at(b@, i as int, allowed@) {
            Some((s, j)) => r matches Some((v, e)) && v@ == s && e == j,
            None => r is None,
        },
        r matches Some((v, e)) ==> i < e <= b@.len(),
{
    let mut out: Vec<u8> = Vec::new();
    if i < b.len() && is_allowed(allowed, b[i]) {
        out.push(b[i]);
        assert(out@ =~= seq![b@[i as int]]);
        Some((out, i + 1))
    } else if byte_is(b, i, 0x2e) {
        let mut k: usize = 0;
        while k < allowed.len()
            invariant
                0 <= k <= allowed@.len(),
                out@ == allowed@.take(k as int),
            decreases allowed@.len() - k,
        {
            out.push(allowed[k]);
            assert(allowed@.take(k + 1) =~= allowed@.take(k as int).push(allowed@[k as int]));
            k = k + 1;
        }
        assert(allowed@.take(k as int) =~= allowed@);
        Some((out, i + 1))
    } else if byte_is(b, i, 0x5b) {
        match parse_fragment_item(b, i + 1, allowed, &mut out) {
            Some(j) => {
                let ghost first = out@;
                proof {
                    lemma_fragment_items_end(b@, j as int, allowed@);
                }
                let k = parse_fragment_items(b, j, allowed, &mut out);
                if byte_is(b, k, 0x5d) {
                    Some((out, k + 1))
                } else {
                    None
                }
            },
            None => None,
        }
    } else {
        None
    }
}

proof fn lemma_fragment_items_end(b: Seq<u8>, i: int, allowed: Seq<u8>)
    requires
        0 <= i,
    ensures
        i <= fragment_items(b, i, allowed).1,
    decreases b.len() - i,
{
    if let Some((s, j)) = fragment_item(b, i, allowed) {
        if j > i {
            lemma_fragment_items_end(b, j, allowed);
        }
    }
}

/// Reads a tag matcher at `i`.
pub(crate) fn parse_tag_matcher(b: &[u8], i: usize) -> (r: Option<(TagMatcher, usize)>)
    requires
        i <= b@.len(),
    ensures
        match tag_matcher_at(b@, i as int) {
            Some((ast, e)) => r matches Some((m, k)) && tag_ast(m) == ast && k == e,
            None => r is None,
        },
        r matches Some((m, k)) ==> i < k <= b@.len(),
{
    if is_tag_at(b, i) && b.len() - i >= 4 {
        let t = Tag::from_ref(TagRef::from_unchecked(slice_range(b, i, i + 4)));
        return Some((TagMatcher::Tag(t), i + 4));
    }
    let first: [u8; 3] = [0x30, 0x31, 0x32];
    let digit: [u8; 10] = [0x30, 0x31, 0x32, 0x33, 0x34, 0x35, 0x36, 0x37, 0x38, 0x39];
    let last: [u8; 27] = [
        0x41, 0x42, 0x43, 0x44, 0x45, 0x46, 0x47, 0x48, 0x49, 0x4a, 0x4b, 0x4c, 0x4d, 0x4e, 0x4f,
        0x50, 0x51, 0x52, 0x53, 0x54, 0x55, 0x56, 0x57, 0x58, 0x59, 0x5a, 0x40,
    ];
    assert(first@ =~= allowed_first());
    assert(digit@ =~= allowed_digit());
    assert(last@ =~= allowed_last());
    let (p0, e0) = match parse_fragment(b, i, first.as_slice()) {
        Some(x) => x,
        None => return None,
    };
    let (p1, e1) = match parse_fragment(b, e0, digit.as_slice()) {
        Some(x) => x,
        None => return None,
    };
    let (p2, e2) = match parse_fragment(b, e1, digit.as_slice()) {
        Some(x) => x,
        None => return None,
    };
    let (p3, e3) = match parse_fragment(b, e2, last.as_slice()) {
        Some(x) => x,
        None => return None,
    };
    let raw = to_str_lossy(slice_range(b, i, e3));
    let pattern = [p0, p1, p2, p3];
    assert(pattern_views(pattern) =~= seq![p0@, p1@, p2@, p3@]);
    Some((TagMatcher::Pattern(pattern, raw), e3))
}

impl TagMatcher {
    /// Creates a tag matcher from its text, such as `003@` or
    /// `0[12].[A@]`; fails unless the whole text is one.
    pub fn new(matcher: &str) -> (r: Result<Self, ParseMatcherError>)
        ensures
            r is Ok <==> (tag_matcher_at(matcher.spec_bytes(), 0) matches Some((_, e))
                && e == matcher.spec_bytes().len()),
            r matches Ok(m) ==> tag_matcher_at(matcher.spec_bytes(), 0) == Some(
                (tag_ast(m), matcher.spec_bytes().len() as int),
            ),
            r matches Err(e) ==> e@ == invalid_message("tag matcher"@, matcher@),
    {
        let b = matcher.as_bytes();
        match parse_tag_matcher(b, 0) {
            Some((m, e)) => if e == b.len() {
                return Ok(m);
            },
            None => {},
        }
        Err(ParseMatcherError::invalid("tag matcher", matcher))
    }
}

} // verus!
