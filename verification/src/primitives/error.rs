use vstd::prelude::*;

use crate::text::{push_char, push_str};

verus! {

/// An error that can occur when parsing PICA+ records.
#[derive(Debug)]
pub struct ParsePicaError(pub(crate) String);

impl View for ParsePicaError {
    type V = Seq<char>;

    closed spec fn view(&self) -> Seq<char> {
        self.0@
    }
}

/// The decimal digits of a number.
pub open spec fn decimal(n: nat) -> Seq<char>
    decreases n,
{
    if n < 10 {
        seq![(n + 48) as char]
    } else {
        decimal(n / 10).push(((n % 10) + 48) as char)
    }
}

/// The bytes in decimal, separated by `, `.
pub open spec fn byte_items(b: Seq<u8>) -> Seq<char>
    decreases b.len(),
{
    if b.len() == 0 {
        Seq::empty()
    } else if b.len() == 1 {
        decimal(b[0] as nat)
    } else {
        byte_items(b.drop_last()) + seq![',', ' '] + decimal(b.last() as nat)
    }
}

/// A byte slice as its debug form writes it: the bytes in decimal,
/// separated by `, `, in square brackets.
pub open spec fn bytes_debug(b: Seq<u8>) -> Seq<char> {
    seq!['['] + byte_items(b) + seq![']']
}

/// The digit for a number below ten.
fn digit(d: u8) -> (c: char)
    requires
        d < 10,
    ensures
        c == ((d + 48) as char),
{
    (d + 48) as char
}

/// Appends the decimal digits of the byte.
fn push_decimal(s: &mut String, n: u8)
    ensures
        final(s)@ == old(s)@ + decimal(n as nat),
{
    proof {
        reveal_with_fuel(decimal, 3);
    }
    if n >= 100 {
        push_char(s, digit(n / 100));
    }
    if n >= 10 {
        push_char(s, digit((n / 10) % 10));
    }
    push_char(s, digit(n % 10));
    proof {
        if n >= 100 {
            assert(decimal((n / 10) as nat) == seq![((n / 100) + 48) as char].push(((n / 10) % 10 + 48) as char));
        }
    }
    assert(final(s)@ =~= old(s)@ + decimal(n as nat));
}

/// Appends the debug form of the bytes.
fn push_bytes_debug(s: &mut String, b: &[u8])
    ensures
        final(s)@ == old(s)@ + bytes_debug(b@),
{
    push_char(s, '[');
    let mut i: usize = 0;
    while i < b.len()
        invariant
            0 <= i <= b@.len(),
            s@ == old(s)@ + seq!['['] + byte_items(b@.subrange(0, i as int)),
        decreases b@.len() - i,
    {
        if i > 0 {
            push_char(s, ',');
            push_char(s, ' ');
        }
        push_decimal(s, b[i]);
        proof {
            let t = b@.subrange(0, i + 1);
            assert(t.drop_last() =~= b@.subrange(0, i as int));
            assert(t.last() == b@[i as int]);
            if i == 0 {
                assert(b@.subrange(0, 0) =~= Seq::<u8>::empty());
            }
        }
        i = i + 1;
    }
    push_char(s, ']');
    assert(b@.subrange(0, b@.len() as int) =~= b@);
    assert(s@ =~= old(s)@ + bytes_debug(b@));
}

impl ParsePicaError {
    /// The error whose message is the prefix, the debug form of the input
    /// and the suffix.
    pub(crate) fn on_bytes(prefix: &str, input: &[u8], suffix: &str) -> (r: Self)
        ensures
            r@ == prefix@ + bytes_debug(input@) + suffix@,
    {
        let mut msg = String::new();
        push_str(&mut msg, prefix);
        push_bytes_debug(&mut msg, input);
        push_str(&mut msg, suffix);
        assert(msg@ =~= prefix@ + bytes_debug(input@) + suffix@);
        ParsePicaError(msg)
    }

    /// The error whose message is the prefix, the input and the suffix.
    pub(crate) fn on_text(prefix: &str, input: &str, suffix: &str) -> (r: Self)
        ensures
            r@ == prefix@ + input@ + suffix@,
    {
        let mut msg = String::new();
        push_str(&mut msg, prefix);
        push_str(&mut msg, input);
        push_str(&mut msg, suffix);
        assert(msg@ =~= prefix@ + input@ + suffix@);
        ParsePicaError(msg)
    }

    /// The error for a char that is no subfield code.
    pub(crate) fn on_code(code: char) -> (r: Self)
        ensures
            r@ == seq!['\''] + seq![code] + "' is not a valid subfield code"@,
    {
        let mut msg = String::new();
        push_char(&mut msg, '\'');
        push_char(&mut msg, code);
        push_str(&mut msg, "' is not a valid subfield code");
        assert(msg@ =~= seq!['\''] + seq![code] + "' is not a valid subfield code"@);
        ParsePicaError(msg)
    }

    /// The message of the error.
    pub fn to_string(&self) -> (r: String)
        ensures
            r@ == self@,
    {
        self.0.clone()
    }
}

} // verus!
