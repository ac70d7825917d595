//! The header sub-structure: the ordered set of sub-attributes that identifies
//! the interface a query or response concerns.  It is encoded with the same
//! record discipline as the outer attribute set, one nesting level deeper.

use vstd::prelude::*;

use crate::error::DecodeError;
use crate::error::ErrorDetail;
use crate::error::SpecDecodeError;
use crate::error::result_view;
use crate::wire::NLA_KIND_MASK;
use crate::wire::append_u16_le;
use crate::wire::append_u32_le;
use crate::wire::append_zeros;
use crate::wire::lemma_record_bytes_len;
use crate::wire::pad_for;
use crate::wire::record_bytes;
use crate::wire::record_len;

verus! {

/// Kind of the interface-index sub-attribute.
pub const ETHTOOL_A_HEADER_DEV_INDEX: u16 = 1;

/// Kind of the interface-name sub-attribute.
pub const ETHTOOL_A_HEADER_DEV_NAME: u16 = 2;

/// Kind of the request-flags sub-attribute.
pub const ETHTOOL_A_HEADER_FLAGS: u16 = 3;

/// One sub-attribute of the header.  The interface name is kept as its raw
/// bytes, without the terminating zero byte of its wire payload.  Kinds
/// outside the known set are carried verbatim by `Other`, together with the
/// kind field exactly as it stood on the wire.
#[derive(Clone, Debug, PartialEq, Eq)]
pub enum EthtoolHeader {
    DevIndex(u32),
    DevName(Vec<u8>),
    Flags(u32),
    Other(u16, Vec<u8>),
}

/// Mathematical model of a header sub-attribute.
pub enum SpecHeaderAttr {
    DevIndex(u32),
    DevName(Seq<u8>),
    Flags(u32),
    Other(u16, Seq<u8>),
}

impl View for EthtoolHeader {
    type V = SpecHeaderAttr;

    open spec fn view(&self) -> SpecHeaderAttr {
        match self {
            EthtoolHeader::DevIndex(v) => SpecHeaderAttr::DevIndex(*v),
            EthtoolHeader::DevName(b) => SpecHeaderAttr::DevName(b@),
            EthtoolHeader::Flags(v) => SpecHeaderAttr::Flags(*v),
            EthtoolHeader::Other(k, b) => SpecHeaderAttr::Other(*k, b@),
        }
    }
}

impl DeepView for EthtoolHeader {
    type V = SpecHeaderAttr;

    open spec fn deep_view(&self) -> SpecHeaderAttr {
        self.view()
    }
}

/// Whether a true kind belongs to the known header enumeration.
pub open spec fn known_header_kind(k: u16) -> bool {
    k == ETHTOOL_A_HEADER_DEV_INDEX || k == ETHTOOL_A_HEADER_DEV_NAME || k == ETHTOOL_A_HEADER_FLAGS
}

/// The kind field a header sub-attribute is emitted with.
pub open spec fn spec_header_kind(h: SpecHeaderAttr) -> u16 {
    match h {
        SpecHeaderAttr::DevIndex(_) => ETHTOOL_A_HEADER_DEV_INDEX,
        SpecHeaderAttr::DevName(_) => ETHTOOL_A_HEADER_DEV_NAME,
        SpecHeaderAttr::Flags(_) => ETHTOOL_A_HEADER_FLAGS,
        SpecHeaderAttr::Other(k, _) => k,
    }
}

/// The payload bytes a header sub-attribute is emitted with.  An interface
/// name gains its terminating zero byte here.
pub open spec fn spec_header_payload(h: SpecHeaderAttr) -> Seq<u8> {
    match h {
        SpecHeaderAttr::DevIndex(v) => vstd::bytes::spec_u32_to_le_bytes(v),
        SpecHeaderAttr::DevName(b) => b + seq![0u8],
        SpecHeaderAttr::Flags(v) => vstd::bytes::spec_u32_to_le_bytes(v),
        SpecHeaderAttr::Other(_, b) => b,
    }
}

/// Structural bounds that emission needs: every payload length fits the
/// 16-bit length field.
pub open spec fn spec_header_wf(h: SpecHeaderAttr) -> bool {
    match h {
        SpecHeaderAttr::DevIndex(_) => true,
        SpecHeaderAttr::DevName(b) => b.len() + 1 <= 0xffff,
        SpecHeaderAttr::Flags(_) => true,
        SpecHeaderAttr::Other(_, b) => b.len() <= 0xffff,
    }
}

/// A header sub-attribute that decoding maps back to itself: well-formed,
/// name bytes free of interior zero bytes, and an `Other` kind outside the
/// known enumeration.
pub open spec fn spec_header_canonical(h: SpecHeaderAttr) -> bool {
    &&& spec_header_wf(h)
    &&& match h {
        SpecHeaderAttr::DevName(b) => forall|i: int| 0 <= i < b.len() ==> b[i] != 0,
        SpecHeaderAttr::Other(k, _) => !known_header_kind(k & NLA_KIND_MASK),
        _ => true,
    }
}

/// The full record a header sub-attribute is emitted as.
pub open spec fn spec_header_encoding(h: SpecHeaderAttr) -> Seq<u8> {
    record_bytes(spec_header_kind(h), spec_header_payload(h))
}

/// The encoding of an ordered sequence of header sub-attributes: the
/// concatenation of their records, in sequence order.
pub open spec fn spec_headers_encoding(s: Seq<SpecHeaderAttr>) -> Seq<u8>
    decreases s.len(),
{
    if s.len() == 0 {
        Seq::empty()
    } else {
        spec_header_encoding(s[0]) + spec_headers_encoding(s.skip(1))
    }
}

/// Whether a name payload is well formed: empty, or terminated by a single
/// zero byte with none before it.
pub open spec fn valid_name_payload(p: Seq<u8>) -> bool {
    p.len() == 0 || (p[p.len() - 1] == 0 && forall|i: int| 0 <= i < p.len() - 1 ==> p[i] != 0)
}

/// The name carried by a well-formed name payload.
pub open spec fn name_of_payload(p: Seq<u8>) -> Seq<u8> {
    if p.len() == 0 {
        p
    } else {
        p.take(p.len() - 1)
    }
}

/// What decoding one header record yields, given its wire kind and payload:
/// the matching typed value, the generic fallback for unknown kinds, or the
/// error naming the violated expectation.
pub open spec fn spec_parse_header_value(kind: u16, payload: Seq<u8>) -> Result<
    SpecHeaderAttr,
    SpecDecodeError,
> {
    let true_kind = kind & NLA_KIND_MASK;
    if true_kind == ETHTOOL_A_HEADER_DEV_INDEX {
        if payload.len() == 4 {
            Ok(SpecHeaderAttr::DevIndex(vstd::bytes::spec_u32_from_le_bytes(payload)))
        } else {
            Err(
                SpecDecodeError {
                    detail: ErrorDetail::WrongValueLength {
                        kind,
                        expected: 4,
                        actual: payload.len() as usize,
                    },
                    context: Seq::empty(),
                },
            )
        }
    } else if true_kind == ETHTOOL_A_HEADER_DEV_NAME {
        if valid_name_payload(payload) {
            Ok(SpecHeaderAttr::DevName(name_of_payload(payload)))
        } else {
            Err(
                SpecDecodeError {
                    detail: ErrorDetail::InvalidName { kind },
                    context: Seq::empty(),
                },
            )
        }
    } else if true_kind == ETHTOOL_A_HEADER_FLAGS {
        if payload.len() == 4 {
            Ok(SpecHeaderAttr::Flags(vstd::bytes::spec_u32_from_le_bytes(payload)))
        } else {
            Err(
                SpecDecodeError {
                    detail: ErrorDetail::WrongValueLength {
                        kind,
                        expected: 4,
                        actual: payload.len() as usize,
                    },
                    context: Seq::empty(),
                },
            )
        }
    } else {
        Ok(SpecHeaderAttr::Other(kind, payload))
    }
}

/// What decoding a buffer of concatenated header records yields: the ordered
/// sequence of sub-attributes in buffer order, or the first error.
pub open spec fn spec_parse_headers(b: Seq<u8>) -> Result<Seq<SpecHeaderAttr>, SpecDecodeError>
    decreases b.len(),
{
    if b.len() == 0 {
        Ok(Seq::empty())
    } else if b.len() < 4 {
        Err(
            SpecDecodeError {
                detail: ErrorDetail::TruncatedRecord { available: b.len() as usize },
                context: Seq::empty(),
            },
        )
    } else {
        let kind = vstd::bytes::spec_u16_from_le_bytes(b.subrange(0, 2));
        let declared = vstd::bytes::spec_u16_from_le_bytes(b.subrange(2, 4));
        let plen = declared as int;
        if plen > b.len() - 4 {
            Err(
                SpecDecodeError {
                    detail: ErrorDetail::TruncatedPayload {
                        kind,
                        declared,
                        available: (b.len() - 4) as usize,
                    },
                    context: Seq::empty(),
                },
            )
        } else {
            match spec_parse_header_value(kind, b.subrange(4, 4 + plen)) {
                Ok(h) => {
                    let step = record_len(plen as nat) as int;
                    let rest = if step <= b.len() {
                        b.skip(step)
                    } else {
                        Seq::empty()
                    };
                    match spec_parse_headers(rest) {
                        Ok(t) => Ok(seq![h] + t),
                        Err(e) => Err(e),
                    }
                },
                Err(e) => Err(e),
            }
        }
    }
}

/// The parse of a tail, prefixed by already-parsed sub-attributes.
pub open spec fn prepend_headers(
    prefix: Seq<SpecHeaderAttr>,
    r: Result<Seq<SpecHeaderAttr>, SpecDecodeError>,
) -> Result<Seq<SpecHeaderAttr>, SpecDecodeError> {
    match r {
        Ok(t) => Ok(prefix + t),
        Err(e) => Err(e),
    }
}

/// Prefixing distributes over concatenation of already-parsed prefixes.
pub proof fn lemma_prepend_headers_assoc(
    a: Seq<SpecHeaderAttr>,
    b: Seq<SpecHeaderAttr>,
    r: Result<Seq<SpecHeaderAttr>, SpecDecodeError>,
)
    ensures
        prepend_headers(a + b, r) == prepend_headers(a, prepend_headers(b, r)),
{
    match r {
        Ok(t) => {
            assert((a + b) + t =~= a + (b + t));
        },
        Err(_) => {},
    }
}

/// Prefixing with no parsed sub-attributes changes nothing.
pub proof fn lemma_prepend_headers_empty(r: Result<Seq<SpecHeaderAttr>, SpecDecodeError>)
    ensures
        prepend_headers(Seq::empty(), r) == r,
{
    match r {
        Ok(t) => {
            assert(Seq::<SpecHeaderAttr>::empty() + t =~= t);
        },
        Err(_) => {},
    }
}

/// Encoding a concatenation of sub-attribute sequences concatenates their
/// encodings.
pub proof fn lemma_headers_encoding_append(a: Seq<SpecHeaderAttr>, b: Seq<SpecHeaderAttr>)
    ensures
        spec_headers_encoding(a + b) == spec_headers_encoding(a) + spec_headers_encoding(b),
    decreases a.len(),
{
    if a.len() == 0 {
        assert(a + b =~= b);
        assert(Seq::<u8>::empty() + spec_headers_encoding(b) =~= spec_headers_encoding(b));
    } else {
        assert((a + b)[0] == a[0]);
        assert((a + b).skip(1) =~= a.skip(1) + b);
        lemma_headers_encoding_append(a.skip(1), b);
        assert(spec_header_encoding(a[0]) + (spec_headers_encoding(a.skip(1))
            + spec_headers_encoding(b)) =~= (spec_header_encoding(a[0]) + spec_headers_encoding(
            a.skip(1),
        )) + spec_headers_encoding(b));
    }
}

/// Appending one sub-attribute appends its record to the encoding.
pub proof fn lemma_headers_encoding_push(s: Seq<SpecHeaderAttr>, h: SpecHeaderAttr)
    ensures
        spec_headers_encoding(s.push(h)) == spec_headers_encoding(s) + spec_header_encoding(h),
    decreases s.len(),
{
    if s.len() == 0 {
        assert(s.push(h)[0] == h);
        assert(s.push(h).skip(1) =~= Seq::<SpecHeaderAttr>::empty());
        assert(spec_headers_encoding(s.push(h).skip(1)) =~= Seq::<u8>::empty());
        assert(spec_headers_encoding(s.push(h)) =~= spec_headers_encoding(s)
            + spec_header_encoding(h));
    } else {
        assert(s.push(h)[0] == s[0]);
        assert(s.push(h).skip(1) =~= s.skip(1).push(h));
        lemma_headers_encoding_push(s.skip(1), h);
        assert(spec_header_encoding(s[0]) + (spec_headers_encoding(s.skip(1))
            + spec_header_encoding(h)) =~= (spec_header_encoding(s[0]) + spec_headers_encoding(
            s.skip(1),
        )) + spec_header_encoding(h));
    }
}

/// Every well-formed sub-attribute's payload fits the 16-bit length field.
pub proof fn lemma_wf_header_payload_len(h: SpecHeaderAttr)
    requires
        spec_header_wf(h),
    ensures
        spec_header_payload(h).len() <= 0xffff,
{
    vstd::bytes::lemma_auto_spec_u32_to_from_le_bytes();
}

/// Decoding a buffer that starts with one whole record first yields that
/// record's value, then continues after its padding: decoding is
/// compositional per record, so output order equals buffer order and
/// duplicate kinds are kept.
pub proof fn lemma_parse_headers_step(kind: u16, payload: Seq<u8>, rest: Seq<u8>)
    requires
        payload.len() <= 0xffff,
    ensures
        spec_parse_headers(record_bytes(kind, payload) + rest) == (match spec_parse_header_value(
            kind,
            payload,
        ) {
            Ok(h) => prepend_headers(seq![h], spec_parse_headers(rest)),
            Err(e) => Err(e),
        }),
{
    vstd::bytes::lemma_auto_spec_u16_to_from_le_bytes();
    lemma_record_bytes_len(kind, payload);
    let rec = record_bytes(kind, payload);
    let b = rec + rest;
    assert(b.len() >= 4);
    assert(b.subrange(0, 2) =~= vstd::bytes::spec_u16_to_le_bytes(kind));
    assert(b.subrange(2, 4) =~= vstd::bytes::spec_u16_to_le_bytes(payload.len() as u16));
    let declared = vstd::bytes::spec_u16_from_le_bytes(b.subrange(2, 4));
    assert(declared == payload.len() as u16);
    assert(declared as int == payload.len());
    assert(b.subrange(4, 4 + payload.len() as int) =~= payload);
    let step = record_len(payload.len()) as int;
    assert(step == rec.len());
    assert(step <= b.len());
    assert(b.skip(step) =~= rest);
}

/// Decoding maps every canonical sub-attribute's record back to itself.
pub proof fn lemma_parse_header_value_round_trip(h: SpecHeaderAttr)
    requires
        spec_header_canonical(h),
    ensures
        spec_parse_header_value(spec_header_kind(h), spec_header_payload(h)) == Ok::<
            SpecHeaderAttr,
            SpecDecodeError,
        >(h),
{
    vstd::bytes::lemma_auto_spec_u32_to_from_le_bytes();
    assert(NLA_KIND_MASK == 0x7fff);
    assert(1u16 & 0x7fff == 1u16 && 2u16 & 0x7fff == 2u16 && 3u16 & 0x7fff == 3u16)
        by (bit_vector);
    match h {
        SpecHeaderAttr::DevIndex(_) => {},
        SpecHeaderAttr::DevName(bts) => {
            let p = bts + seq![0u8];
            assert(p[p.len() - 1] == 0);
            assert forall|i: int| 0 <= i < p.len() - 1 implies p[i] != 0 by {
                assert(p[i] == bts[i]);
            }
            assert(valid_name_payload(p));
            assert(name_of_payload(p) =~= bts);
        },
        SpecHeaderAttr::Flags(_) => {},
        SpecHeaderAttr::Other(_, _) => {},
    }
}

/// Round trip of the header sub-structure: decoding the encoding of any
/// sequence of canonical sub-attributes yields that exact sequence.
pub proof fn lemma_parse_headers_round_trip(s: Seq<SpecHeaderAttr>)
    requires
        forall|i: int| 0 <= i < s.len() ==> spec_header_canonical(#[trigger] s[i]),
    ensures
        spec_parse_headers(spec_headers_encoding(s)) == Ok::<
            Seq<SpecHeaderAttr>,
            SpecDecodeError,
        >(s),
    decreases s.len(),
{
    if s.len() == 0 {
        assert(s =~= Seq::<SpecHeaderAttr>::empty());
    } else {
        let h = s[0];
        let t = s.skip(1);
        lemma_wf_header_payload_len(h);
        lemma_parse_header_value_round_trip(h);
        lemma_parse_headers_step(
            spec_header_kind(h),
            spec_header_payload(h),
            spec_headers_encoding(t),
        );
        assert forall|i: int| 0 <= i < t.len() implies spec_header_canonical(#[trigger] t[i]) by {
            assert(t[i] == s[i + 1]);
        }
        lemma_parse_headers_round_trip(t);
        assert(seq![h] + t =~= s);
    }
}

/// The model of a header-sequence decode result.
pub open spec fn headers_result_view(r: Result<Vec<EthtoolHeader>, DecodeError>) -> Result<
    Seq<SpecHeaderAttr>,
    SpecDecodeError,
> {
    match r {
        Ok(v) => Ok(v.deep_view()),
        Err(e) => Err(e@),
    }
}

/// Decodes a buffer of concatenated header records into the ordered sequence
/// of sub-attributes, in buffer order.
#[verifier::loop_isolation(false)]
pub fn parse_header_nlas(buffer: &[u8]) -> (r: Result<Vec<EthtoolHeader>, DecodeError>)
    ensures
        headers_result_view(r) == spec_parse_headers(buffer@),
{
    let n = buffer.len();
    let mut out: Vec<EthtoolHeader> = Vec::new();
    let mut pos: usize = 0;
    proof {
        assert(buffer@.skip(0) =~= buffer@);
        assert(out.deep_view() =~= Seq::<SpecHeaderAttr>::empty());
        lemma_prepend_headers_empty(spec_parse_headers(buffer@));
    }
    while pos < n
        invariant
            pos <= n,
            spec_parse_headers(buffer@) == prepend_headers(
                out.deep_view(),
                spec_parse_headers(buffer@.skip(pos as int)),
            ),
        decreases n - pos,
    {
        let ghost suffix = buffer@.skip(pos as int);
        let remaining = n - pos;
        proof {
            assert(suffix.len() == remaining);
        }
        if remaining < 4 {
            return Err(DecodeError::new(ErrorDetail::TruncatedRecord { available: remaining }));
        }
        let kind = vstd::bytes::u16_from_le_bytes(
            vstd::slice::slice_subrange(buffer, pos, pos + 2),
        );
        let declared = vstd::bytes::u16_from_le_bytes(
            vstd::slice::slice_subrange(buffer, pos + 2, pos + 4),
        );
        proof {
            assert(buffer@.subrange(pos as int, pos as int + 2) =~= suffix.subrange(0, 2));
            assert(buffer@.subrange(pos as int + 2, pos as int + 4) =~= suffix.subrange(2, 4));
        }
        let plen = declared as usize;
        if plen > remaining - 4 {
            return Err(
                DecodeError::new(
                    ErrorDetail::TruncatedPayload { kind, declared, available: remaining - 4 },
                ),
            );
        }
        let payload = vstd::slice::slice_to_vec(
            vstd::slice::slice_subrange(buffer, pos + 4, pos + 4 + plen),
        );
        proof {
            assert(payload@ =~= suffix.subrange(4, 4 + plen as int));
        }
        let parsed = match EthtoolHeader::parse(kind, payload) {
            Ok(h) => h,
            Err(e) => {
                return Err(e);
            },
        };
        let ghost out_before = out.deep_view();
        out.push(parsed);
        let used = 4 + plen;
        let pad = pad_for(plen);
        let ghost step = record_len(plen as nat) as int;
        let ghost rest = if step <= suffix.len() {
            suffix.skip(step)
        } else {
            Seq::<u8>::empty()
        };
        if pad >= remaining - used {
            pos = n;
        } else {
            pos = pos + used + pad;
        }
        proof {
            assert(buffer@.skip(pos as int) =~= rest);
            assert(out.deep_view() =~= out_before + seq![parsed@]);
            assert(spec_parse_headers(suffix) == prepend_headers(
                seq![parsed@],
                spec_parse_headers(rest),
            ));
            lemma_prepend_headers_assoc(out_before, seq![parsed@], spec_parse_headers(rest));
        }
    }
    proof {
        assert(buffer@.skip(pos as int) =~= Seq::<u8>::empty());
        assert(out.deep_view() + Seq::<SpecHeaderAttr>::empty() =~= out.deep_view());
    }
    Ok(out)
}

impl EthtoolHeader {
    /// The kind field this sub-attribute is emitted with.
    pub fn kind(&self) -> (k: u16)
        ensures
            k == spec_header_kind(self@),
    {
        match self {
            EthtoolHeader::DevIndex(_) => ETHTOOL_A_HEADER_DEV_INDEX,
            EthtoolHeader::DevName(_) => ETHTOOL_A_HEADER_DEV_NAME,
            EthtoolHeader::Flags(_) => ETHTOOL_A_HEADER_FLAGS,
            EthtoolHeader::Other(k, _) => *k,
        }
    }

    /// The payload length this sub-attribute is emitted with.
    pub fn value_len(&self) -> (n: usize)
        requires
            spec_header_wf(self@),
        ensures
            n == spec_header_payload(self@).len(),
    {
        proof {
            vstd::bytes::lemma_auto_spec_u32_to_from_le_bytes();
        }
        match self {
            EthtoolHeader::DevIndex(_) => 4,
            EthtoolHeader::DevName(b) => b.len() + 1,
            EthtoolHeader::Flags(_) => 4,
            EthtoolHeader::Other(_, b) => b.len(),
        }
    }

    /// Whether this sub-attribute's payload fits the 16-bit length field.
    pub fn check_wf(&self) -> (b: bool)
        ensures
            b == spec_header_wf(self@),
    {
        match self {
            EthtoolHeader::DevIndex(_) => true,
            EthtoolHeader::DevName(b) => b.len() <= 0xfffe,
            EthtoolHeader::Flags(_) => true,
            EthtoolHeader::Other(_, b) => b.len() <= 0xffff,
        }
    }

    /// Appends this sub-attribute's payload bytes.
    pub fn emit_value(&self, out: &mut Vec<u8>)
        ensures
            final(out)@ == old(out)@ + spec_header_payload(self@),
    {
        match self {
            EthtoolHeader::DevIndex(v) => append_u32_le(out, *v),
            EthtoolHeader::DevName(b) => {
                out.extend_from_slice(b.as_slice());
                out.push(0u8);
                proof {
                    assert(out@ =~= old(out)@ + spec_header_payload(self@));
                }
            },
            EthtoolHeader::Flags(v) => append_u32_le(out, *v),
            EthtoolHeader::Other(_, b) => {
                out.extend_from_slice(b.as_slice());
            },
        }
    }

    /// Appends this sub-attribute's full record: kind, payload length,
    /// payload, padding.
    pub fn emit(&self, out: &mut Vec<u8>)
        requires
            spec_header_wf(self@),
        ensures
            final(out)@ == old(out)@ + spec_header_encoding(self@),
    {
        let len = self.value_len();
        append_u16_le(out, self.kind());
        append_u16_le(out, len as u16);
        self.emit_value(out);
        append_zeros(out, pad_for(len));
        proof {
            assert(out@ =~= old(out)@ + spec_header_encoding(self@));
        }
    }

    /// Decodes one header record from its wire kind and payload.
    pub fn parse(kind: u16, payload: Vec<u8>) -> (r: Result<EthtoolHeader, DecodeError>)
        ensures
            result_view(r) == spec_parse_header_value(kind, payload@),
    {
        let true_kind = kind & NLA_KIND_MASK;
        if true_kind == ETHTOOL_A_HEADER_DEV_INDEX {
            if payload.len() == 4 {
                Ok(EthtoolHeader::DevIndex(vstd::bytes::u32_from_le_bytes(payload.as_slice())))
            } else {
                Err(
                    DecodeError::new(
                        ErrorDetail::WrongValueLength { kind, expected: 4, actual: payload.len() },
                    ),
                )
            }
        } else if true_kind == ETHTOOL_A_HEADER_DEV_NAME {
            parse_name(kind, payload)
        } else if true_kind == ETHTOOL_A_HEADER_FLAGS {
            if payload.len() == 4 {
                Ok(EthtoolHeader::Flags(vstd::bytes::u32_from_le_bytes(payload.as_slice())))
            } else {
                Err(
                    DecodeError::new(
                        ErrorDetail::WrongValueLength { kind, expected: 4, actual: payload.len() },
                    ),
                )
            }
        } else {
            Ok(EthtoolHeader::Other(kind, payload))
        }
    }
}

/// Decodes an interface-name payload: a zero-terminated byte string with no
/// interior zero bytes, or empty.
#[verifier::loop_isolation(false)]
fn parse_name(kind: u16, payload: Vec<u8>) -> (r: Result<EthtoolHeader, DecodeError>)
    requires
        kind & NLA_KIND_MASK == ETHTOOL_A_HEADER_DEV_NAME,
    ensures
        result_view(r) == spec_parse_header_value(kind, payload@),
{
    let n = payload.len();
    if n == 0 {
        let name: Vec<u8> = Vec::new();
        proof {
            assert(name@ =~= name_of_payload(payload@));
        }
        return Ok(EthtoolHeader::DevName(name));
    }
    if payload[n - 1] != 0 {
        proof {
            assert(!valid_name_payload(payload@));
        }
        return Err(DecodeError::new(ErrorDetail::InvalidName { kind }));
    }
    let mut i: usize = 0;
    while i < n - 1
        invariant
            n == payload@.len(),
            n >= 1,
            i <= n - 1,
            forall|j: int| 0 <= j < i ==> payload@[j] != 0,
        decreases n - 1 - i,
    {
        if payload[i] == 0 {
            return Err(DecodeError::new(ErrorDetail::InvalidName { kind }));
        }
        i = i + 1;
    }
    let ghost p = payload@;
    let mut name = payload;
    name.truncate(n - 1);
    proof {
        assert(name@ =~= name_of_payload(p));
    }
    Ok(EthtoolHeader::DevName(name))
}

} // verus!
