//! Calls into std and into outside crates that only compute: text
//! conversions, UTF-8 validation, error messages.
use sha2::Digest;
use vstd::prelude::*;
use vstd::utf8::{decode_utf8, encode_scalar, valid_utf8};

verus! {

#[verifier::external_type_specification]
#[verifier::external_body]
pub struct ExUtf8Error(std::str::Utf8Error);

/// Calls `std::str::from_utf8`, which fails exactly when the bytes are
/// not valid UTF-8, and else gives them back as a string of the chars they
/// encode.
#[verifier::external_body]
pub(crate) fn str_from_utf8<'a>(bytes: &'a [u8]) -> (r: Result<&'a str, std::str::Utf8Error>)
    ensures
        r is Ok <==> valid_utf8(bytes@),
        r matches Ok(s) ==> s@ == decode_utf8(bytes@),
{
    std::str::from_utf8(bytes)
}

/// Fails exactly when the bytes are not valid UTF-8.
pub(crate) fn check_utf8(bytes: &[u8]) -> (r: Result<(), std::str::Utf8Error>)
    ensures
        r is Ok <==> valid_utf8(bytes@),
{
    match str_from_utf8(bytes) {
        Ok(_) => Ok(()),
        Err(e) => Err(e),
    }
}

/// Calls std's `String::push_str`, which appends the string.
#[verifier::external_body]
pub(crate) fn push_str(s: &mut String, t: &str)
    ensures
        final(s)@ == old(s)@ + t@,
{
    s.push_str(t)
}

/// Calls std's `String::push`, which appends the char.
#[verifier::external_body]
pub(crate) fn push_char(s: &mut String, c: char)
    ensures
        final(s)@ == old(s)@.push(c),
{
    s.push(c)
}

/// What bstr's `ByteSlice::to_lowercase` gives for the bytes: the
/// Unicode lower case of their valid UTF-8 parts, the other bytes as they
/// are.
pub uninterp spec fn lowercase_bytes(b: Seq<u8>) -> Seq<u8>;

/// Calls bstr's `ByteSlice::to_lowercase`; its result is named
/// `lowercase_bytes` of the input.
#[verifier::external_body]
pub(crate) fn to_lowercase(b: &[u8]) -> (r: Vec<u8>)
    ensures
        r@ == lowercase_bytes(b@),
{
    bstr::ByteSlice::to_lowercase(b)
}

/// What bstr's `ByteSlice::to_str_lossy` gives for the bytes: their
/// chars, each invalid UTF-8 sequence replaced by U+FFFD.
pub uninterp spec fn lossy_chars(b: Seq<u8>) -> Seq<char>;

/// Calls bstr's `ByteSlice::to_str_lossy` and makes the result owned;
/// its chars are named `lossy_chars` of the input.
#[verifier::external_body]
pub(crate) fn to_str_lossy(b: &[u8]) -> (r: String)
    ensures
        r@ == lossy_chars(b@),
{
    bstr::ByteSlice::to_str_lossy(b).into_owned()
}

/// What bstr's `ByteSlice::to_uppercase` gives for the bytes: the
/// Unicode upper case of their valid UTF-8 parts, the other bytes as they
/// are.
pub uninterp spec fn uppercase_bytes(b: Seq<u8>) -> Seq<u8>;

/// Calls bstr's `ByteSlice::to_uppercase`; its result is named
/// `uppercase_bytes` of the input.
#[verifier::external_body]
pub(crate) fn to_uppercase(b: &[u8]) -> (r: Vec<u8>)
    ensures
        r@ == uppercase_bytes(b@),
{
    bstr::ByteSlice::to_uppercase(b)
}

/// What bstr's `ByteSlice::trim` gives for the bytes: the bytes without
/// their leading and trailing Unicode white space.
pub uninterp spec fn trimmed_bytes(b: Seq<u8>) -> Seq<u8>;

/// Calls bstr's `ByteSlice::trim` and copies the result; it is named
/// `trimmed_bytes` of the input.
#[verifier::external_body]
pub(crate) fn trim_bytes(b: &[u8]) -> (r: Vec<u8>)
    ensures
        r@ == trimmed_bytes(b@),
{
    bstr::ByteSlice::trim(b).to_vec()
}

/// What std's `str::to_lowercase` gives for the chars: their Unicode
/// lower case.
pub uninterp spec fn lowercase_chars(s: Seq<char>) -> Seq<char>;

/// Calls std's `str::to_lowercase`; its result is named `lowercase_chars`
/// of the input.
#[verifier::external_body]
pub(crate) fn str_to_lowercase(s: &str) -> (r: String)
    ensures
        r@ == lowercase_chars(s@),
{
    s.to_lowercase()
}

/// The least number of insertions, deletions and substitutions of chars
/// that turn `a` into `b`.
pub open spec fn levenshtein_distance(a: Seq<char>, b: Seq<char>) -> nat
    decreases a.len() + b.len(),
{
    if a.len() == 0 {
        b.len()
    } else if b.len() == 0 {
        a.len()
    } else {
        let deleted = levenshtein_distance(a.drop_last(), b) + 1;
        let inserted = levenshtein_distance(a, b.drop_last()) + 1;
        let replaced = levenshtein_distance(a.drop_last(), b.drop_last()) + if a.last() == b.last() {
            0nat
        } else {
            1nat
        };
        if deleted <= inserted && deleted <= replaced {
            deleted
        } else if inserted <= replaced {
            inserted
        } else {
            replaced
        }
    }
}

/// Calls strsim's `levenshtein`, which gives the least number of
/// insertions, deletions and substitutions of chars that turn one string
/// into the other.
#[verifier::external_body]
pub(crate) fn levenshtein(a: &str, b: &str) -> (r: usize)
    ensures
        r == levenshtein_distance(a@, b@),
{
    strsim::levenshtein(a, b)
}

#[verifier::external_type_specification]
#[verifier::external_body]
pub struct ExRegex(regex::bytes::Regex);

#[verifier::external_type_specification]
#[verifier::external_body]
pub struct ExRegexSet(regex::bytes::RegexSet);

/// Whether regex's `bytes::RegexBuilder::build` accepts the pattern with
/// the given case setting and the builder's other defaults.
pub uninterp spec fn regex_builds(pattern: Seq<char>, case_insensitive: bool) -> bool;

/// What regex's `bytes::Regex::is_match` says of the haystack, for the
/// regex built from the pattern with the given case setting.
pub uninterp spec fn regex_matches(pattern: Seq<char>, case_insensitive: bool, haystack: Seq<u8>) -> bool;

/// Whether regex's `bytes::RegexSetBuilder::build` accepts the patterns
/// with the given case setting and the builder's other defaults.
pub uninterp spec fn regex_set_builds(patterns: Seq<Seq<char>>, case_insensitive: bool) -> bool;

/// The chars of each string.
pub open spec fn string_views(v: Seq<String>) -> Seq<Seq<char>> {
    v.map_values(|s: String| s@)
}

/// A compiled regex, with the pattern and the case setting it was built
/// from.
pub struct ByteRegex {
    re: regex::bytes::Regex,
    pattern: Ghost<Seq<char>>,
    case_insensitive: Ghost<bool>,
}

impl ByteRegex {
    /// The pattern the regex was built from.
    pub closed spec fn pattern(&self) -> Seq<char> {
        self.pattern@
    }

    /// The case setting the regex was built with.
    pub closed spec fn case_insensitive(&self) -> bool {
        self.case_insensitive@
    }
}

/// Builds the pattern with regex's `bytes::RegexBuilder` and the given case
/// setting; `None` exactly where the build fails.
#[verifier::external_body]
pub(crate) fn build_regex(pattern: &str, case_insensitive: bool) -> (r: Option<ByteRegex>)
    ensures
        r is Some <==> regex_builds(pattern@, case_insensitive),
        r matches Some(re) ==> re.pattern() == pattern@ && re.case_insensitive() == case_insensitive,
{
    match regex::bytes::RegexBuilder::new(pattern).case_insensitive(case_insensitive).build() {
        Ok(re) => Some(ByteRegex { re, pattern: Ghost(pattern@), case_insensitive: Ghost(case_insensitive) }),
        Err(_) => None,
    }
}

/// Calls regex's `bytes::Regex::is_match` on the haystack.
#[verifier::external_body]
pub(crate) fn regex_is_match(re: &ByteRegex, haystack: &[u8]) -> (r: bool)
    ensures
        r == regex_matches(re.pattern(), re.case_insensitive(), haystack@),
{
    re.re.is_match(haystack)
}

/// A compiled set of regexes, with the patterns and the case setting it was
/// built from.
pub struct ByteRegexSet {
    set: regex::bytes::RegexSet,
    patterns: Ghost<Seq<Seq<char>>>,
    case_insensitive: Ghost<bool>,
}

impl ByteRegexSet {
    /// The patterns the set was built from.
    pub closed spec fn patterns(&self) -> Seq<Seq<char>> {
        self.patterns@
    }

    /// The case setting the set was built with.
    pub closed spec fn case_insensitive(&self) -> bool {
        self.case_insensitive@
    }
}

/// Builds the patterns with regex's `bytes::RegexSetBuilder` and the given
/// case setting; `None` exactly where the build fails.
#[verifier::external_body]
pub(crate) fn build_regex_set(patterns: &[String], case_insensitive: bool) -> (r: Option<ByteRegexSet>)
    ensures
        r is Some <==> regex_set_builds(string_views(patterns@), case_insensitive),
        r matches Some(set) ==> set.patterns() == string_views(patterns@)
            && set.case_insensitive() == case_insensitive,
{
    match regex::bytes::RegexSetBuilder::new(patterns).case_insensitive(case_insensitive).build() {
        Ok(set) => Some(ByteRegexSet {
            set,
            patterns: Ghost(string_views(patterns@)),
            case_insensitive: Ghost(case_insensitive),
        }),
        Err(_) => None,
    }
}

/// One of the patterns, built with the case setting, matches the haystack.
pub open spec fn any_regex_matches(patterns: Seq<Seq<char>>, case_insensitive: bool, haystack: Seq<u8>) -> bool {
    exists|i: int| 0 <= i < patterns.len() && regex_matches(#[trigger] patterns[i], case_insensitive, haystack)
}

/// Calls regex's `bytes::RegexSet::is_match` on the haystack, which holds
/// exactly when one of the patterns of the set matches it.
#[verifier::external_body]
pub(crate) fn regex_set_is_match(set: &ByteRegexSet, haystack: &[u8]) -> (r: bool)
    ensures
        r == any_regex_matches(set.patterns(), set.case_insensitive(), haystack@),
{
    set.set.is_match(haystack)
}

/// Calls std's `String::from_utf8`, which succeeds exactly on valid UTF-8
/// and then holds the decoded chars.
#[verifier::external_body]
pub(crate) fn string_from_utf8(bytes: Vec<u8>) -> (r: Option<String>)
    ensures
        r is Some <==> valid_utf8(bytes@),
        r matches Some(s) ==> s@ == decode_utf8(bytes@),
{
    String::from_utf8(bytes).ok()
}

/// Calls std's `char::encode_utf8`; the bytes are the UTF-8 encoding of
/// the char.
#[verifier::external_body]
pub(crate) fn char_utf8(c: char) -> (r: Vec<u8>)
    ensures
        r@ == encode_scalar(c as u32),
{
    let mut buf = [0u8; 4];
    c.encode_utf8(&mut buf).as_bytes().to_vec()
}

/// What sha2's `Sha256` digest is of the data.
pub uninterp spec fn sha256_digest(data: Seq<u8>) -> Seq<u8>;

/// Hashes the data with sha2's `Sha256` (`new`, `update`, `finalize`); the
/// digest is named `sha256_digest` of the data and is 32 bytes long.
#[verifier::external_body]
pub(crate) fn sha256(data: &[u8]) -> (r: Vec<u8>)
    ensures
        r@ == sha256_digest(data@),
        r@.len() == 32,
{
    let mut hasher = <sha2::Sha256 as Digest>::new();
    Digest::update(&mut hasher, data);
    Digest::finalize(hasher).to_vec()
}

} // verus!
