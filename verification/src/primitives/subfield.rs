use vstd::prelude::*;

use super::error::{bytes_debug, ParsePicaError};
use super::decode::{
    dec_subfield, lemma_dec_subfield_complete, lemma_dec_subfield_sound, lemma_value_end, value_end,
};
use super::model::{
    is_separator, is_subfield_bytes, is_subfield_code, is_subfield_value, SpecSubfield,
    UNIT_SEPARATOR,
};
use super::parse::{parse_subfield_at, parse_value_end, slice_range};
use crate::text::check_utf8;
use vstd::string::StringSliceAdditionalSpecFns;
use vstd::utf8::valid_utf8;

verus! {

/// A char that is an ASCII alpha-numeric character.
pub open spec fn is_code_char(c: char) -> bool {
    ('0' <= c <= '9') || ('a' <= c <= 'z') || ('A' <= c <= 'Z')
}

/// A subfield code: a single ASCII alpha-numeric character.
#[derive(Debug, Clone, Copy, PartialEq, Eq, Hash)]
pub struct SubfieldCode(pub(crate) u8);

impl View for SubfieldCode {
    type V = u8;

    closed spec fn view(&self) -> u8 {
        self.0
    }
}

impl SubfieldCode {
    /// Creates a new subfield code; fails unless the code is an ASCII
    /// alpha-numeric character.
    pub fn new(code: char) -> (r: Result<Self, ParsePicaError>)
        ensures
            r is Ok <==> is_code_char(code),
            r matches Ok(c) ==> c@ as u32 == code as u32,
            r matches Err(e) ==> e@ == seq!['\''] + seq![code] + "' is not a valid subfield code"@,
    {
        if !(('0' <= code && code <= '9') || ('a' <= code && code <= 'z') || ('A' <= code
            && code <= 'Z')) {
            return Err(ParsePicaError::on_code(code));
        }
        Ok(Self::from_unchecked(code))
    }

    /// Creates a subfield code without checking it; the caller passes an
    /// ASCII alpha-numeric character.
    pub fn from_unchecked(code: char) -> (r: Self)
        requires
            is_code_char(code),
        ensures
            r@ as u32 == code as u32,
            is_subfield_code(r@),
    {
        SubfieldCode(code as u8)
    }

    /// The code with the given byte.
    pub(crate) fn from_byte(code: u8) -> (r: Self)
        ensures
            r@ == code,
    {
        SubfieldCode(code)
    }

    /// Returns the subfield code as a byte.
    pub fn as_byte(&self) -> (r: u8)
        ensures
            r == self@,
    {
        self.0
    }

    /// Returns the subfield code as a char.
    pub fn as_char(&self) -> (r: char)
        ensures
            r as u32 == self@ as u32,
    {
        self.0 as char
    }
}

impl PartialEq<char> for SubfieldCode {
    fn eq(&self, other: &char) -> (r: bool) {
        self.0 as u32 == *other as u32
    }
}

impl vstd::std_specs::cmp::PartialEqSpecImpl<char> for SubfieldCode {
    open spec fn obeys_eq_spec() -> bool {
        true
    }

    open spec fn eq_spec(&self, other: &char) -> bool {
        self@ as u32 == *other as u32
    }
}

/// Tells whether the bytes hold neither `\x1e` nor `\x1f`.
pub(crate) fn is_value_bytes(bytes: &[u8]) -> (r: bool)
    ensures
        r == is_subfield_value(bytes@),
{
    let mut i: usize = 0;
    while i < bytes.len()
        invariant
            0 <= i <= bytes.len(),
            forall|k: int| 0 <= k < i ==> !is_separator(#[trigger] bytes@[k]),
        decreases bytes.len() - i,
    {
        if bytes[i] == 0x1f || bytes[i] == 0x1e {
            assert(is_separator(bytes@[i as int]));
            return false;
        }
        i = i + 1;
    }
    true
}

/// Copies a byte slice into a new vector.
pub(crate) fn copy_bytes(bytes: &[u8]) -> (r: Vec<u8>)
    ensures
        r@ == bytes@,
{
    let mut v: Vec<u8> = Vec::new();
    v.extend_from_slice(bytes);
    assert(v@ =~= bytes@);
    v
}

/// Appends a byte slice to a vector.
pub(crate) fn append_bytes(out: &mut Vec<u8>, bytes: &[u8])
    ensures
        final(out)@ == old(out)@ + bytes@,
{
    out.extend_from_slice(bytes);
    assert(final(out)@ =~= old(out)@ + bytes@);
}

/// An immutable subfield value: a byte slice with neither `\x1e` nor
/// `\x1f`.
#[derive(Debug, Clone, Copy, PartialEq, Eq, Hash)]
pub struct SubfieldValueRef<'a>(pub(crate) &'a [u8]);

impl<'a> View for SubfieldValueRef<'a> {
    type V = Seq<u8>;

    closed spec fn view(&self) -> Seq<u8> {
        self.0@
    }
}

impl<'a> SubfieldValueRef<'a> {
    /// Creates a subfield value from a string slice; fails if it holds
    /// `\x1f` or `\x1e`.
    pub fn new(value: &'a str) -> (r: Result<Self, ParsePicaError>)
        ensures
            r is Ok <==> is_subfield_value(value.spec_bytes()),
            r matches Ok(v) ==> v@ == value.spec_bytes(),
            r matches Err(e) ==> e@ == "invalid subfield value '"@ + value@ + "'"@,
    {
        let bytes = value.as_bytes();
        if !is_value_bytes(bytes) {
            return Err(ParsePicaError::on_text("invalid subfield value '", value, "'"));
        }
        Ok(SubfieldValueRef(bytes))
    }

    /// Creates a subfield value without checking it; the caller passes
    /// bytes with neither `\x1e` nor `\x1f`.
    pub fn from_unchecked(value: &'a [u8]) -> (r: Self)
        requires
            is_subfield_value(value@),
        ensures
            r@ == value@,
    {
        SubfieldValueRef(value)
    }

    /// Creates a subfield value from a byte slice; fails if it holds
    /// `\x1f` or `\x1e`.
    pub fn from_bytes(bytes: &'a [u8]) -> (r: Result<Self, ParsePicaError>)
        ensures
            r is Ok <==> is_subfield_value(bytes@),
            r matches Ok(v) ==> v@ == bytes@,
            r matches Err(e) ==> e@ == "invalid subfield value '"@ + bytes_debug(bytes@) + "'"@,
    {
        if !is_value_bytes(bytes) {
            return Err(ParsePicaError::on_bytes("invalid subfield value '", bytes, "'"));
        }
        Ok(SubfieldValueRef(bytes))
    }

    /// Returns the value as a byte slice.
    pub fn as_bytes(&self) -> (r: &'a [u8])
        ensures
            r@ == self@,
    {
        self.0
    }
}

/// A mutable subfield value: bytes with neither `\x1e` nor `\x1f`.
#[derive(Debug, Clone, PartialEq, Eq, Hash)]
pub struct SubfieldValue(pub(crate) Vec<u8>);

impl View for SubfieldValue {
    type V = Seq<u8>;

    closed spec fn view(&self) -> Seq<u8> {
        self.0@
    }
}

impl SubfieldValue {
    /// Creates a subfield value from a string slice; fails if it holds
    /// `\x1f` or `\x1e`.
    pub fn new(value: &str) -> (r: Result<Self, ParsePicaError>)
        ensures
            r is Ok <==> is_subfield_value(value.spec_bytes()),
            r matches Ok(v) ==> v@ == value.spec_bytes(),
    {
        let value = SubfieldValueRef::new(value)?;
        Ok(Self::from_ref(value))
    }

    /// Creates a subfield value without checking it; the caller passes
    /// bytes with neither `\x1e` nor `\x1f`.
    pub fn from_unchecked(value: &[u8]) -> (r: Self)
        requires
            is_subfield_value(value@),
        ensures
            r@ == value@,
    {
        SubfieldValue(copy_bytes(value))
    }

    /// Returns the value as a byte slice.
    pub fn as_bytes(&self) -> (r: &[u8])
        ensures
            r@ == self@,
    {
        self.0.as_slice()
    }

    /// Converts a subfield value reference into an owned value.
    pub fn from_ref(value: SubfieldValueRef<'_>) -> (r: Self)
        ensures
            r@ == value@,
    {
        SubfieldValue(copy_bytes(value.0))
    }
}

/// An immutable subfield: a code and a value.
#[derive(Debug, Clone, Copy, PartialEq, Eq, Hash)]
pub struct SubfieldRef<'a>(pub(crate) SubfieldCode, pub(crate) SubfieldValueRef<'a>);

impl<'a> View for SubfieldRef<'a> {
    type V = SpecSubfield;

    closed spec fn view(&self) -> SpecSubfield {
        SpecSubfield { code: self.0@, value: self.1@ }
    }
}

impl<'a> SubfieldRef<'a> {
    /// A subfield from a code byte and a value.
    pub(crate) fn from_parts(code: u8, value: &'a [u8]) -> (r: Self)
        ensures
            r@ == (SpecSubfield { code, value: value@ }),
    {
        SubfieldRef(SubfieldCode(code), SubfieldValueRef(value))
    }

    /// Creates a new subfield; fails unless the code is ASCII
    /// alpha-numeric and the value holds neither `\x1f` nor `\x1e`.
    pub fn new(code: char, value: &'a str) -> (r: Result<Self, ParsePicaError>)
        ensures
            r is Ok <==> is_code_char(code) && is_subfield_value(value.spec_bytes()),
            r matches Ok(s) ==> s@.code as u32 == code as u32 && s@.value == value.spec_bytes()
                && s@.wf(),
    {
        let value = SubfieldValueRef::new(value)?;
        let code = SubfieldCode::new(code)?;
        Ok(SubfieldRef(code, value))
    }

    /// Creates a subfield from its bytes: `\x1f`, the code and the value.
    pub fn from_bytes(bytes: &'a [u8]) -> (r: Result<Self, ParsePicaError>)
        ensures
            r is Ok <==> is_subfield_bytes(bytes@),
            r matches Ok(s) ==> s@.wf() && s@.bytes() == bytes@,
            r matches Err(e) ==> e@ == "invalid subfield "@ + bytes_debug(bytes@) + ""@,
    {
        match parse_subfield_at(bytes, 0) {
            Some((subfield, end)) => {
                proof {
                    lemma_dec_subfield_sound(bytes@, 0);
                    assert(bytes@.subrange(0, end as int) == subfield@.bytes());
                }
                if end == bytes.len() {
                    assert(bytes@.subrange(0, end as int) =~= bytes@);
                    return Ok(subfield);
                }
                proof {
                    lemma_subfield_bytes_unique(bytes@, subfield@);
                }
            },
            None => {
                proof {
                    if is_subfield_bytes(bytes@) {
                        let sf = choose|sf: SpecSubfield| sf.wf() && sf.bytes() == bytes@;
                        assert(bytes@.subrange(0, sf.bytes().len() as int) =~= bytes@);
                        lemma_dec_subfield_complete(bytes@, 0, sf);
                    }
                }
            },
        }
        Err(ParsePicaError::on_bytes("invalid subfield ", bytes, ""))
    }

    /// Returns the code of the subfield.
    pub fn code(&self) -> (r: &SubfieldCode)
        ensures
            r@ == self@.code,
    {
        &self.0
    }

    /// Returns the value of the subfield.
    pub fn value(&self) -> (r: &SubfieldValueRef<'a>)
        ensures
            r@ == self@.value,
    {
        &self.1
    }

    /// Fails if the value is not valid UTF-8.
    pub fn validate(&self) -> (r: Result<(), std::str::Utf8Error>)
        ensures
            r is Ok <==> valid_utf8(self@.value),
    {
        check_utf8(self.1.0)
    }

    /// Appends the bytes of the subfield to `out`.
    pub fn write_to(&self, out: &mut Vec<u8>)
        ensures
            final(out)@ == old(out)@ + self@.bytes(),
    {
        out.push(UNIT_SEPARATOR);
        out.push(self.0.0);
        append_bytes(out, self.1.0);
        assert(final(out)@ =~= old(out)@ + self@.bytes());
    }
}

/// The bytes of a subfield are not the bytes of another followed by more:
/// a subfield read where one stands ends exactly there.
proof fn lemma_subfield_bytes_unique(s: Seq<u8>, read: SpecSubfield)
    requires
        dec_subfield(s, 0) == Some((read, read.bytes().len() as int)),
        read.bytes().len() < s.len(),
    ensures
        !is_subfield_bytes(s),
{
    lemma_dec_subfield_sound(s, 0);
    if is_subfield_bytes(s) {
        let sf = choose|sf: SpecSubfield| sf.wf() && sf.bytes() == s;
        assert(s.subrange(0, sf.bytes().len() as int) =~= s);
        lemma_dec_subfield_complete(s, 0, sf);
    }
}

/// The views of a list of subfield references.
pub open spec fn subfield_views<'a>(v: Seq<SubfieldRef<'a>>) -> Seq<SpecSubfield> {
    v.map_values(|s: SubfieldRef<'a>| s@)
}

/// The views of a list of subfields.
pub open spec fn owned_subfield_views(v: Seq<Subfield>) -> Seq<SpecSubfield> {
    v.map_values(|s: Subfield| s@)
}

/// A mutable subfield: a code and a value.
#[derive(Debug, Clone, PartialEq, Eq, Hash)]
pub struct Subfield(pub(crate) SubfieldCode, pub(crate) SubfieldValue);

impl View for Subfield {
    type V = SpecSubfield;

    closed spec fn view(&self) -> SpecSubfield {
        SpecSubfield { code: self.0@, value: self.1@ }
    }
}

impl Subfield {
    /// Creates a new subfield; fails unless the code is ASCII
    /// alpha-numeric and the value holds neither `\x1f` nor `\x1e`.
    pub fn new(code: char, value: &str) -> (r: Result<Self, ParsePicaError>)
        ensures
            r is Ok <==> is_code_char(code) && is_subfield_value(value.spec_bytes()),
            r matches Ok(s) ==> s@.code as u32 == code as u32 && s@.value == value.spec_bytes()
                && s@.wf(),
    {
        let subfield = SubfieldRef::new(code, value)?;
        Ok(Self::from_ref(subfield))
    }

    /// Returns the code of the subfield.
    pub fn code(&self) -> (r: &SubfieldCode)
        ensures
            r@ == self@.code,
    {
        &self.0
    }

    /// Returns the value of the subfield.
    pub fn value(&self) -> (r: &SubfieldValue)
        ensures
            r@ == self@.value,
    {
        &self.1
    }

    /// Appends the bytes of the subfield to `out`.
    pub fn write_to(&self, out: &mut Vec<u8>)
        ensures
            final(out)@ == old(out)@ + self@.bytes(),
    {
        out.push(UNIT_SEPARATOR);
        out.push(self.0.0);
        append_bytes(out, self.1.0.as_slice());
        assert(final(out)@ =~= old(out)@ + self@.bytes());
    }

    /// Converts a subfield reference into an owned subfield.
    pub fn from_ref(subfield: SubfieldRef<'_>) -> (r: Self)
        ensures
            r@ == subfield@,
    {
        Subfield(subfield.0, SubfieldValue::from_ref(subfield.1))
    }
}

/// Reads a subfield value at the start of the bytes: the bytes up to the
/// first `\x1f` or `\x1e`. Returns the bytes after it and the value.
pub fn parse_subfield_value_ref<'a>(b: &'a [u8]) -> (r: (&'a [u8], SubfieldValueRef<'a>))
    ensures
        r.1@ + r.0@ == b@,
        is_subfield_value(r.1@),
        r.0@.len() == 0 || is_separator(r.0@[0]),
{
    let e = parse_value_end(b, 0);
    proof {
        lemma_value_end(b@, 0);
    }
    let value = slice_range(b, 0, e);
    let rest = slice_range(b, e, b.len());
    assert(value@ + rest@ =~= b@);
    (rest, SubfieldValueRef::from_unchecked(value))
}

} // verus!
