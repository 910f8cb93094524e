use vstd::prelude::*;

use super::error::{bytes_debug, ParsePicaError};
use super::model::is_tag;
use super::subfield::{append_bytes, copy_bytes};
use vstd::string::StringSliceAdditionalSpecFns;

verus! {

/// The level of a field, given by the first digit of its tag.
#[derive(Debug, Clone, Copy, PartialEq, Eq)]
pub enum Level {
    Main,
    Local,
    Copy,
}

impl Default for Level {
    fn default() -> (r: Self)
        ensures
            r == Level::Main,
    {
        Level::Main
    }
}

/// The level that the first byte of a tag stands for.
pub open spec fn level_of(first: u8) -> Level {
    if first == 0x30 {
        Level::Main
    } else if first == 0x31 {
        Level::Local
    } else {
        Level::Copy
    }
}

/// Tells whether the four bytes from `i` are a tag.
pub(crate) fn is_tag_at(b: &[u8], i: usize) -> (r: bool)
    ensures
        r == (i + 4 <= b@.len() && is_tag(b@.subrange(i as int, i + 4))),
{
    if i > b.len() || b.len() - i < 4 {
        return false;
    }
    let t0 = b[i];
    let t1 = b[i + 1];
    let t2 = b[i + 2];
    let t3 = b[i + 3];
    let ghost t = b@.subrange(i as int, i + 4);
    assert(t[0] == t0 && t[1] == t1 && t[2] == t2 && t[3] == t3);
    0x30 <= t0 && t0 <= 0x32 && 0x30 <= t1 && t1 <= 0x39 && 0x30 <= t2 && t2 <= 0x39 && ((0x41
        <= t3 && t3 <= 0x5a) || t3 == 0x40)
}

/// An immutable tag.
#[derive(Debug, Clone, Copy, PartialEq, Eq)]
pub struct TagRef<'a>(pub(crate) &'a [u8]);

impl<'a> View for TagRef<'a> {
    type V = Seq<u8>;

    closed spec fn view(&self) -> Seq<u8> {
        self.0@
    }
}

impl<'a> TagRef<'a> {
    #[verifier::type_invariant]
    spec fn inv(self) -> bool {
        is_tag(self.0@)
    }

    /// Creates a tag from a string slice; fails unless it is a tag.
    pub fn new(tag: &'a str) -> (r: Result<Self, ParsePicaError>)
        ensures
            r is Ok <==> is_tag(tag.spec_bytes()),
            r matches Ok(t) ==> t@ == tag.spec_bytes(),
    {
        Self::from_bytes(tag.as_bytes())
    }

    /// Creates a tag without checking it; the caller passes a tag.
    pub fn from_unchecked(tag: &'a [u8]) -> (r: Self)
        requires
            is_tag(tag@),
        ensures
            r@ == tag@,
    {
        TagRef(tag)
    }

    /// Creates a tag from a byte slice; fails unless it is a tag.
    pub fn from_bytes(tag: &'a [u8]) -> (r: Result<Self, ParsePicaError>)
        ensures
            r is Ok <==> is_tag(tag@),
            r matches Ok(t) ==> t@ == tag@,
            r matches Err(e) ==> e@ == "invalid tag '"@ + bytes_debug(tag@) + "'"@,
    {
        if tag.len() == 4 && is_tag_at(tag, 0) {
            assert(tag@.subrange(0, 4) =~= tag@);
            Ok(TagRef(tag))
        } else {
            assert(tag@.len() == 4 ==> tag@.subrange(0, 4) =~= tag@);
            Err(ParsePicaError::on_bytes("invalid tag '", tag, "'"))
        }
    }

    /// Returns the level of the tag.
    pub fn level(&self) -> (r: Level)
        ensures
            r == level_of(self@[0]),
    {
        proof {
            use_type_invariant(self);
        }
        if self.0[0] == 0x30 {
            Level::Main
        } else if self.0[0] == 0x31 {
            Level::Local
        } else {
            Level::Copy
        }
    }

    /// Returns the tag as a byte slice; it is a tag.
    pub fn as_bytes(&self) -> (r: &'a [u8])
        ensures
            r@ == self@,
            is_tag(r@),
    {
        proof {
            use_type_invariant(self);
        }
        self.0
    }

    /// Appends the bytes of the tag to `out`.
    pub fn write_to(&self, out: &mut Vec<u8>)
        ensures
            final(out)@ == old(out)@ + self@,
    {
        append_bytes(out, self.0)
    }
}

/// A mutable tag.
#[derive(Debug, Clone, PartialEq, Eq)]
pub struct Tag(pub(crate) Vec<u8>);

impl View for Tag {
    type V = Seq<u8>;

    closed spec fn view(&self) -> Seq<u8> {
        self.0@
    }
}

impl Tag {
    /// Creates a tag from a string slice; fails unless it is a tag.
    pub fn new(tag: &str) -> (r: Result<Self, ParsePicaError>)
        ensures
            r is Ok <==> is_tag(tag.spec_bytes()),
            r matches Ok(t) ==> t@ == tag.spec_bytes(),
    {
        let tag = TagRef::new(tag)?;
        Ok(Self::from_ref(tag))
    }

    /// Returns the tag as a byte slice.
    pub fn as_bytes(&self) -> (r: &[u8])
        ensures
            r@ == self@,
    {
        self.0.as_slice()
    }

    /// Appends the bytes of the tag to `out`.
    pub fn write_to(&self, out: &mut Vec<u8>)
        ensures
            final(out)@ == old(out)@ + self@,
    {
        append_bytes(out, self.0.as_slice())
    }

    /// Converts a tag reference into an owned tag.
    pub fn from_ref(tag: TagRef<'_>) -> (r: Self)
        ensures
            r@ == tag@,
    {
        Tag(copy_bytes(tag.0))
    }
}

} // verus!
