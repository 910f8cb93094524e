//! What a reader of records decides once a line has been read: the line
//! count, and the record or the error that the line gives.
use vstd::prelude::*;
use vstd::string::StrSliceExecFns;

use crate::primitives::model::{is_record_bytes, record_bytes, record_wf, SpecField};
use crate::primitives::ParsePicaError;
use crate::record::{record_utf8, ByteRecord, StringRecord};
use crate::text::{push_char, push_str};

verus! {

#[verifier::external_type_specification]
#[verifier::external_body]
pub struct ExIoError(std::io::Error);

/// An error that can occur while reading records.
#[derive(Debug)]
pub enum ReadPicaError {
    Parse { msg: String, err: ParsePicaError },
    Utf8 { msg: String, err: std::str::Utf8Error },
    IO(std::io::Error),
}

impl ReadPicaError {
    /// Whether the error is a parse error that is to be skipped.
    pub fn skip_parse_err(&self, skip_invalid: bool) -> (r: bool)
        ensures
            r == (self is Parse && skip_invalid),
    {
        match self {
            ReadPicaError::Parse { .. } => skip_invalid,
            _ => false,
        }
    }
}

/// The char of a decimal digit.
pub open spec fn digit_char(d: nat) -> char {
    ((0x30 + d) as u8) as char
}

/// The decimal digits of a number.
pub open spec fn decimal(n: nat) -> Seq<char>
    decreases n,
{
    if n < 10 {
        seq![digit_char(n)]
    } else {
        decimal(n / 10).push(digit_char(n % 10))
    }
}

/// Appends the decimal digits of the number.
pub(crate) fn push_decimal(out: &mut String, n: usize)
    ensures
        final(out)@ == old(out)@ + decimal(n as nat),
    decreases n,
{
    if n >= 10 {
        push_decimal(out, n / 10);
    }
    let d = (n % 10) as u8;
    push_char(out, (0x30u8 + d) as char);
    assert(final(out)@ =~= old(out)@ + decimal(n as nat));
}

/// The message of an invalid record on a line, with its source where there
/// is one.
pub open spec fn invalid_record_message(line: nat, source: Option<Seq<char>>) -> Seq<char> {
    match source {
        Some(s) => "invalid record on line "@ + decimal(line) + " ("@ + s + ")."@,
        None => "invalid record on line "@ + decimal(line) + "."@,
    }
}

fn invalid_record_msg(line: usize, source: Option<&str>) -> (r: String)
    ensures
        r@ == invalid_record_message(
            line as nat,
            match source {
                Some(s) => Some(s@),
                None => None,
            },
        ),
{
    let mut msg = String::new();
    push_str(&mut msg, "invalid record on line ");
    push_decimal(&mut msg, line);
    match source {
        Some(s) => {
            push_str(&mut msg, " (");
            push_str(&mut msg, s);
            push_str(&mut msg, ").");
        },
        None => {
            push_str(&mut msg, ".");
        },
    }
    proof {
        match source {
            Some(s) => {
                assert(msg@ =~= invalid_record_message(line as nat, Some(s@)));
            },
            None => {
                assert(msg@ =~= invalid_record_message(line as nat, None));
            },
        }
    }
    msg
}

/// Builds readers of records.
#[derive(Debug)]
pub struct ReaderBuilder();

impl ReaderBuilder {
    /// A builder.
    pub fn new() -> (r: Self) {
        ReaderBuilder()
    }

    /// A reader of records from the given source of bytes; the name `-`
    /// of the source stands for standard input.
    pub fn from_reader<R>(&self, reader: R, source: Option<String>) -> (r: Reader<R>)
        ensures
            r.line() == 0,
            r.source_bytes() == reader,
            r.source() == match source {
                Some(s) => Some(if s@ == seq!['-'] {
                    "<stdin>"@
                } else {
                    s@
                }),
                None => None,
            },
    {
        Reader::new(self, reader, source)
    }
}

/// A reader of records: the source of bytes, its name, and the number of
/// lines begun so far.
pub struct Reader<R> {
    inner: R,
    source: Option<String>,
    line: usize,
}

impl<R> Reader<R> {
    /// The number of lines begun so far.
    pub closed spec fn line(&self) -> nat {
        self.line as nat
    }

    /// The name of the source.
    pub closed spec fn source(&self) -> Option<Seq<char>> {
        match self.source {
            Some(s) => Some(s@),
            None => None,
        }
    }

    pub(crate) fn new(_builder: &ReaderBuilder, reader: R, source: Option<String>) -> (r: Self)
        ensures
            r.line() == 0,
            r.source_bytes() == reader,
            r.source() == match source {
                Some(s) => Some(if s@ == seq!['-'] {
                    "<stdin>"@
                } else {
                    s@
                }),
                None => None,
            },
    {
        let source = match source {
            Some(s) => {
                let is_stdin = s.as_str().unicode_len() == 1 && s.as_str().get_char(0) == '-';
                assert(is_stdin == (s@ == seq!['-'])) by {
                    if s@.len() == 1 && s@[0] == '-' {
                        assert(s@ =~= seq!['-']);
                    }
                }
                if is_stdin {
                    Some("<stdin>".to_string())
                } else {
                    Some(s)
                }
            },
            None => None,
        };
        Reader { inner: reader, source, line: 0 }
    }

    /// The source of bytes.
    pub closed spec fn source_bytes(&self) -> R {
        self.inner
    }

    /// The source of bytes.
    pub fn into_inner(self) -> (r: R)
        ensures
            r == self.source_bytes(),
    {
        self.inner
    }

    /// The source of bytes, to read from.
    pub fn inner_mut(&mut self) -> (r: &mut R)
        ensures
            *r == old(self).source_bytes(),
            final(self).source_bytes() == *final(r),
            final(self).line() == old(self).line(),
            final(self).source() == old(self).source(),
    {
        &mut self.inner
    }

    /// The number of lines begun so far.
    pub fn line_number(&self) -> (r: usize)
        ensures
            r == self.line(),
    {
        self.line
    }

    /// Begins a line.
    pub fn begin_line(&mut self)
        requires
            old(self).line() < usize::MAX,
        ensures
            final(self).line() == old(self).line() + 1,
            final(self).source() == old(self).source(),
    {
        self.line = self.line + 1;
    }

    /// The record that the bytes of the line hold, or a parse error that
    /// names the line and the source.
    pub fn byte_record<'b>(&self, bytes: &'b [u8]) -> (r: Result<ByteRecord<'b>, ReadPicaError>)
        ensures
            r is Ok <==> is_record_bytes(bytes@),
            r matches Ok(rec) ==> record_wf(rec@) && record_bytes(rec@) == bytes@,
            r matches Err(e) ==> match e {
                ReadPicaError::Parse { msg, .. } => msg@ == invalid_record_message(
                    self.line(),
                    self.source(),
                ),
                _ => false,
            },
    {
        match ByteRecord::from_bytes(bytes) {
            Ok(record) => Ok(record),
            Err(err) => {
                let msg = match &self.source {
                    Some(s) => invalid_record_msg(self.line, Some(s.as_str())),
                    None => invalid_record_msg(self.line, None),
                };
                Err(ReadPicaError::Parse { msg, err })
            },
        }
    }

    /// The record that the bytes of the line hold, where its subfield
    /// values are valid UTF-8; else the parse error, or an error that names
    /// the line before it.
    pub fn string_record<'b>(&self, bytes: &'b [u8]) -> (r: Result<StringRecord<'b>, ReadPicaError>)
        requires
            self.line() >= 1,
        ensures
            r matches Ok(s) ==> record_wf(s@) && record_bytes(s@) == bytes@ && record_utf8(s@),
            (r matches Err(e) && e is Parse) <==> !is_record_bytes(bytes@),
            r matches Err(e) ==> match e {
                ReadPicaError::Parse { msg, .. } => msg@ == invalid_record_message(
                    self.line(),
                    self.source(),
                ),
                ReadPicaError::Utf8 { msg, .. } => msg@ == invalid_record_message(
                    (self.line() - 1) as nat,
                    None,
                ) && exists|rec: Seq<SpecField>|
                    record_wf(rec) && record_bytes(rec) == bytes@ && !record_utf8(rec),
                ReadPicaError::IO(_) => false,
            },
    {
        match self.byte_record(bytes) {
            Ok(record) => {
                let ghost view = record@;
                assert(record_wf(view) && record_bytes(view) == bytes@);
                match StringRecord::try_from(record) {
                    Ok(s) => Ok(s),
                    Err(err) => {
                        let msg = invalid_record_msg(self.line - 1, None);
                        Err(ReadPicaError::Utf8 { msg, err })
                    },
                }
            },
            Err(e) => Err(e),
        }
    }
}

} // verus!
