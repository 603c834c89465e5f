//! Transport framing: each message travels as a header block ending
//! in an empty line, followed by the payload bytes.
//!
//! `Content-Length` (in bytes, decimal) is mandatory; an optional
//! `Content-Type` is accepted when its body names UTF-8 or is empty;
//! unknown header fields are skipped.

use vstd::prelude::*;

verus! {

/// The ASCII bytes of `"Content-Length: "`.
pub open spec fn content_length_prefix() -> Seq<u8> {
    seq![67u8, 111u8, 110u8, 116u8, 101u8, 110u8, 116u8, 45u8, 76u8, 101u8, 110u8, 103u8, 116u8, 104u8, 58u8, 32u8]
}

/// The ASCII bytes of `"Content-Type: "`.
pub open spec fn content_type_prefix() -> Seq<u8> {
    seq![67u8, 111u8, 110u8, 116u8, 101u8, 110u8, 116u8, 45u8, 84u8, 121u8, 112u8, 101u8, 58u8, 32u8]
}

/// The ASCII bytes of `"\r\n"`.
pub open spec fn crlf() -> Seq<u8> {
    seq![13u8, 10u8]
}

/// Decimal digits of `n`, most significant first.
pub open spec fn dec_digits(n: int) -> Seq<u8>
    decreases n,
{
    if n < 10 {
        seq![(48 + if n >= 0 { n } else { 0 }) as u8]
    } else {
        dec_digits(n / 10) + seq![(48 + n % 10) as u8]
    }
}

/// Whether every byte of `s` is an ASCII digit.
pub open spec fn is_digits(s: Seq<u8>) -> bool {
    forall|i: int| 0 <= i < s.len() ==> 48 <= #[trigger] s[i] <= 57
}

/// The number that the digit string `s` denotes.
pub open spec fn dec_value(s: Seq<u8>) -> int
    decreases s.len(),
{
    if s.len() == 0 {
        0
    } else {
        dec_value(s.drop_last()) * 10 + (s.last() - 48)
    }
}

/// Writing a number and reading it back returns the number: the
/// digits are genuine digits and denote `n` again.
pub proof fn lemma_dec_digits_value(n: int)
    requires
        0 <= n,
    ensures
        is_digits(dec_digits(n)),
        dec_digits(n).len() >= 1,
        dec_value(dec_digits(n)) == n,
    decreases n,
{
    if n < 10 {
        let s = dec_digits(n);
        assert(s.drop_last() =~= Seq::<u8>::empty());
        assert(dec_value(s.drop_last()) == 0);
        assert(s.last() == (48 + n) as u8);
    } else {
        lemma_dec_digits_value(n / 10);
        let whole = dec_digits(n);
        assert(whole.drop_last() =~= dec_digits(n / 10));
        assert(whole.last() == (48 + n % 10) as u8);
    }
}

/// A digit string denotes a value at least as large as any of its
/// prefixes' values.
proof fn lemma_dec_value_prefix_le(s: Seq<u8>, i: int)
    requires
        is_digits(s),
        0 <= i <= s.len(),
    ensures
        dec_value(s.take(i)) <= dec_value(s),
        0 <= dec_value(s),
    decreases s.len() - i,
{
    if i == s.len() {
        assert(s.take(i) =~= s);
        lemma_dec_value_nonneg(s);
    } else {
        lemma_dec_value_prefix_le(s, i + 1);
        assert(s.take(i + 1).drop_last() =~= s.take(i));
        assert(s.take(i + 1).last() == s[i]);
        lemma_dec_value_nonneg(s.take(i));
    }
}

proof fn lemma_dec_value_nonneg(s: Seq<u8>)
    requires
        is_digits(s),
    ensures
        0 <= dec_value(s),
    decreases s.len(),
{
    if s.len() > 0 {
        assert(is_digits(s.drop_last()));
        lemma_dec_value_nonneg(s.drop_last());
    }
}

/// The bytes of one complete frame around `payload`.
pub open spec fn frame_bytes(payload: Seq<u8>) -> Seq<u8> {
    content_length_prefix() + dec_digits(payload.len() as int) + crlf() + crlf() + payload
}

/// A frame this server writes is read back as it was written: its
/// header line carries the length prefix, the rest of the line is a
/// genuine digit string denoting the payload length, and the bytes
/// after the blank line are the payload itself.
pub proof fn lemma_frame_round_trip(payload: Seq<u8>)
    requires
        payload.len() <= usize::MAX,
    ensures
        ({
            let framed = frame_bytes(payload);
            let line = content_length_prefix() + dec_digits(payload.len() as int);
            &&& has_prefix(line, content_length_prefix())
            &&& is_digits(line.subrange(16, line.len() as int))
            &&& dec_value(line.subrange(16, line.len() as int)) == payload.len()
            &&& framed == line + crlf() + crlf() + payload
            &&& framed.subrange(
                framed.len() - payload.len(),
                framed.len() as int,
            ) == payload
        }),
{
    let n = payload.len() as int;
    lemma_dec_digits_value(n);
    let line = content_length_prefix() + dec_digits(n);
    assert(line.subrange(0, 16) =~= content_length_prefix());
    assert(line.subrange(16, line.len() as int) =~= dec_digits(n));
    let framed = frame_bytes(payload);
    assert(framed =~= line + crlf() + crlf() + payload);
    assert(framed.subrange(framed.len() - payload.len(), framed.len() as int) =~= payload);
}

/// Appends the decimal digits of `n`.
fn push_decimal(n: usize, out: &mut Vec<u8>)
    ensures
        final(out)@ == old(out)@ + dec_digits(n as int),
    decreases n,
{
    if n < 10 {
        out.push(48 + (n as u8));
        proof {
            assert(out@ =~= old(out)@ + dec_digits(n as int));
        }
    } else {
        push_decimal(n / 10, out);
        out.push(48 + ((n % 10) as u8));
        proof {
            assert(out@ =~= old(out)@ + dec_digits(n as int));
        }
    }
}

/// Wraps a payload for the wire: the length header, an empty line,
/// then the payload itself.
pub fn encode_frame(payload: Vec<u8>) -> (out: Vec<u8>)
    ensures
        out@ == frame_bytes(payload@),
{
    let mut out: Vec<u8> = Vec::new();
    out.push(67);
    out.push(111);
    out.push(110);
    out.push(116);
    out.push(101);
    out.push(110);
    out.push(116);
    out.push(45);
    out.push(76);
    out.push(101);
    out.push(110);
    out.push(103);
    out.push(116);
    out.push(104);
    out.push(58);
    out.push(32);
    proof {
        assert(out@ =~= content_length_prefix());
    }
    push_decimal(payload.len(), &mut out);
    out.push(13);
    out.push(10);
    out.push(13);
    out.push(10);
    let mut payload = payload;
    let ghost p = payload@;
    out.append(&mut payload);
    proof {
        assert(out@ =~= frame_bytes(p));
    }
    out
}

/// Reads a decimal number, rejecting anything that is not a plain
/// digit string or does not fit the machine word.
pub fn parse_decimal(s: &Vec<u8>) -> (r: Option<usize>)
    ensures
        (r is Some) == (is_digits(s@) && s@.len() >= 1 && dec_value(s@) <= usize::MAX),
        r matches Some(v) ==> v == dec_value(s@),
{
    let n = s.len();
    if n == 0 {
        return None;
    }
    let mut acc: usize = 0;
    let mut i: usize = 0;
    while i < n
        invariant
            i <= n,
            n == s@.len(),
            is_digits(s@.take(i as int)),
            acc == dec_value(s@.take(i as int)),
        decreases n - i,
    {
        let b = s[i];
        if b < 48 || b > 57 {
            proof {
                assert(s@[i as int] == b);
            }
            return None;
        }
        let d = (b - 48) as usize;
        if acc > (usize::MAX - d) / 10 {
            proof {
                assert(s@.take(i + 1).drop_last() =~= s@.take(i as int));
                assert(s@.take(i + 1).last() == s@[i as int]);
                assert(is_digits(s@.take(i + 1)));
                assert(dec_value(s@.take(i + 1)) == acc * 10 + d);
                if is_digits(s@) {
                    lemma_dec_value_prefix_le(s@, i + 1);
                }
            }
            return None;
        }
        acc = acc * 10 + d;
        proof {
            assert(s@.take(i + 1).drop_last() =~= s@.take(i as int));
            assert(s@.take(i + 1).last() == s@[i as int]);
            assert(is_digits(s@.take(i + 1)));
        }
        i = i + 1;
    }
    proof {
        assert(s@.take(n as int) =~= s@);
    }
    Some(acc)
}

/// What one header line holds, once classified.
#[derive(Debug, PartialEq, Eq, Structural)]
pub enum HeaderField {
    /// A well-formed `Content-Length` field and its value.
    ContentLength(usize),
    /// A `Content-Type` field; `known` says whether its body names an
    /// encoding this server accepts.
    ContentType { known: bool },
    /// A field this server does not interpret.
    Other,
    /// A `Content-Length` field whose body is not a usable number.
    Malformed,
}

/// Whether `s` starts with `prefix`.
pub open spec fn has_prefix(s: Seq<u8>, prefix: Seq<u8>) -> bool {
    s.len() >= prefix.len() && s.subrange(0, prefix.len() as int) == prefix
}

/// The accepted `Content-Type` bodies: `utf8`, `utf-8`, or empty.
pub open spec fn known_encoding(body: Seq<u8>) -> bool {
    ||| body == seq![117u8, 116u8, 102u8, 56u8]
    ||| body == seq![117u8, 116u8, 102u8, 45u8, 56u8]
    ||| body == Seq::<u8>::empty()
}

fn starts_with(s: &Vec<u8>, prefix: &Vec<u8>) -> (r: bool)
    ensures
        r == has_prefix(s@, prefix@),
{
    let np = prefix.len();
    if s.len() < np {
        return false;
    }
    let mut i: usize = 0;
    while i < np
        invariant
            i <= np,
            np == prefix@.len(),
            np <= s@.len(),
            forall|j: int| 0 <= j < i ==> s@[j] == prefix@[j],
        decreases np - i,
    {
        if s[i] != prefix[i] {
            proof {
                assert(s@.subrange(0, np as int)[i as int] != prefix@[i as int]);
            }
            return false;
        }
        i = i + 1;
    }
    proof {
        assert(s@.subrange(0, np as int) =~= prefix@);
    }
    true
}

fn content_length_prefix_vec() -> (v: Vec<u8>)
    ensures
        v@ == content_length_prefix(),
{
    let mut v: Vec<u8> = Vec::new();
    v.push(67);
    v.push(111);
    v.push(110);
    v.push(116);
    v.push(101);
    v.push(110);
    v.push(116);
    v.push(45);
    v.push(76);
    v.push(101);
    v.push(110);
    v.push(103);
    v.push(116);
    v.push(104);
    v.push(58);
    v.push(32);
    proof {
        assert(v@ =~= content_length_prefix());
    }
    v
}

fn content_type_prefix_vec() -> (v: Vec<u8>)
    ensures
        v@ == content_type_prefix(),
{
    let mut v: Vec<u8> = Vec::new();
    v.push(67);
    v.push(111);
    v.push(110);
    v.push(116);
    v.push(101);
    v.push(110);
    v.push(116);
    v.push(45);
    v.push(84);
    v.push(121);
    v.push(112);
    v.push(101);
    v.push(58);
    v.push(32);
    proof {
        assert(v@ =~= content_type_prefix());
    }
    v
}

fn tail_from(s: &Vec<u8>, from: usize) -> (r: Vec<u8>)
    requires
        from <= s@.len(),
    ensures
        r@ == s@.subrange(from as int, s@.len() as int),
{
    let n = s.len();
    let mut r: Vec<u8> = Vec::new();
    let mut i: usize = from;
    while i < n
        invariant
            from <= i <= n,
            n == s@.len(),
            r@ == s@.subrange(from as int, i as int),
        decreases n - i,
    {
        r.push(s[i]);
        proof {
            assert(r@ =~= s@.subrange(from as int, i + 1));
        }
        i = i + 1;
    }
    r
}

/// Classifies one header line (without its terminator): the length
/// field with its decimal value, a content-type field and whether its
/// body is an accepted encoding, a length field with an unusable
/// body, or any other field, which is skipped.
pub fn parse_header_field(line: &Vec<u8>) -> (r: HeaderField)
    ensures
        ({
            let l = line@;
            let clp = content_length_prefix();
            let ctp = content_type_prefix();
            if has_prefix(l, clp) {
                let body = l.subrange(clp.len() as int, l.len() as int);
                if is_digits(body) && body.len() >= 1 && dec_value(body) <= usize::MAX {
                    r == HeaderField::ContentLength(dec_value(body) as usize)
                } else {
                    r == HeaderField::Malformed
                }
            } else if has_prefix(l, ctp) {
                let body = l.subrange(ctp.len() as int, l.len() as int);
                r == (HeaderField::ContentType { known: known_encoding(body) })
            } else {
                r == HeaderField::Other
            }
        }),
{
    let clp = content_length_prefix_vec();
    let ctp = content_type_prefix_vec();
    if starts_with(line, &clp) {
        let body = tail_from(line, clp.len());
        match parse_decimal(&body) {
            Some(v) => HeaderField::ContentLength(v),
            None => HeaderField::Malformed,
        }
    } else if starts_with(line, &ctp) {
        let body = tail_from(line, ctp.len());
        let known = if body.len() == 0 {
            proof {
                assert(body@ =~= Seq::<u8>::empty());
            }
            true
        } else if body.len() == 4 {
            let ok = body[0] == 117 && body[1] == 116 && body[2] == 102 && body[3] == 56;
            proof {
                if ok {
                    assert(body@ =~= seq![117u8, 116u8, 102u8, 56u8]);
                } else {
                    assert(body@ != seq![117u8, 116u8, 102u8, 56u8]) by {
                        if body@ == seq![117u8, 116u8, 102u8, 56u8] {
                            assert(body@[0] == 117 && body@[1] == 116 && body@[2] == 102
                                && body@[3] == 56);
                        }
                    }
                }
            }
            ok
        } else if body.len() == 5 {
            let ok = body[0] == 117 && body[1] == 116 && body[2] == 102 && body[3] == 45
                && body[4] == 56;
            proof {
                if ok {
                    assert(body@ =~= seq![117u8, 116u8, 102u8, 45u8, 56u8]);
                } else {
                    assert(body@ != seq![117u8, 116u8, 102u8, 45u8, 56u8]) by {
                        if body@ == seq![117u8, 116u8, 102u8, 45u8, 56u8] {
                            assert(body@[0] == 117 && body@[1] == 116 && body@[2] == 102
                                && body@[3] == 45 && body@[4] == 56);
                        }
                    }
                }
            }
            ok
        } else {
            false
        };
        HeaderField::ContentType { known }
    } else {
        HeaderField::Other
    }
}

/// Error raised while assembling a frame's header block.
#[derive(Debug, PartialEq, Eq, Structural)]
pub enum FrameError {
    /// No `Content-Length` field arrived before the empty line.
    MissingContentLength,
    /// A `Content-Type` field named an encoding this server does not
    /// accept.
    UnknownEncoding,
    /// A `Content-Length` field was present but unusable.
    BadContentLength,
}

/// What a header block decides, scanned in field order with `length`
/// holding the first length seen so far: the first unknown encoding
/// or unusable length field ends the scan with its error; otherwise
/// the first `Content-Length` value is the answer, and a block that
/// never named one is refused.
pub open spec fn frame_decision(fields: Seq<HeaderField>, length: Option<usize>) -> Result<
    usize,
    FrameError,
>
    decreases fields.len(),
{
    if fields.len() == 0 {
        match length {
            Some(v) => Ok(v),
            None => Err(FrameError::MissingContentLength),
        }
    } else {
        match fields[0] {
            HeaderField::ContentLength(v) => frame_decision(
                fields.drop_first(),
                match length {
                    Some(w) => Some(w),
                    None => Some(v),
                },
            ),
            HeaderField::ContentType { known } => {
                if known {
                    frame_decision(fields.drop_first(), length)
                } else {
                    Err(FrameError::UnknownEncoding)
                }
            },
            HeaderField::Malformed => Err(FrameError::BadContentLength),
            HeaderField::Other => frame_decision(fields.drop_first(), length),
        }
    }
}

/// The decision for a whole header block.
pub open spec fn spec_frame_length(fields: Seq<HeaderField>) -> Result<usize, FrameError> {
    frame_decision(fields, None)
}

/// Decides a whole header block from its classified fields: the
/// first `Content-Length` value when every field is acceptable, or
/// the first error, checked in field order.
pub fn frame_length(fields: &Vec<HeaderField>) -> (r: Result<usize, FrameError>)
    ensures
        r == spec_frame_length(fields@),
{
    let n = fields.len();
    let mut length: Option<usize> = None;
    let mut i: usize = 0;
    proof {
        assert(fields@.skip(0) =~= fields@);
    }
    while i < n
        invariant
            i <= n,
            n == fields@.len(),
            frame_decision(fields@.skip(i as int), length) == spec_frame_length(fields@),
        decreases n - i,
    {
        proof {
            assert(fields@.skip(i as int).drop_first() =~= fields@.skip(i + 1));
            assert(fields@.skip(i as int)[0] == fields@[i as int]);
        }
        match &fields[i] {
            HeaderField::ContentLength(v) => {
                if length.is_none() {
                    length = Some(*v);
                }
            },
            HeaderField::ContentType { known } => {
                if !*known {
                    return Err(FrameError::UnknownEncoding);
                }
            },
            HeaderField::Malformed => {
                return Err(FrameError::BadContentLength);
            },
            HeaderField::Other => {},
        }
        i = i + 1;
    }
    proof {
        assert(fields@.skip(n as int) =~= Seq::<HeaderField>::empty());
    }
    match length {
        Some(v) => Ok(v),
        None => Err(FrameError::MissingContentLength),
    }
}

} // verus!
