//! The link-state attribute family: one typed variant per known attribute
//! kind, a generic fallback for unknown kinds, and the codec between byte
//! buffers and ordered attribute sequences.

use vstd::prelude::*;

use crate::error::DecodeError;
use crate::error::ErrorDetail;
use crate::error::SpecDecodeError;
use crate::error::result_view;
use crate::error::spec_with_context;
use crate::header::EthtoolHeader;
use crate::header::SpecHeaderAttr;
use crate::header::lemma_headers_encoding_append;
use crate::header::lemma_headers_encoding_push;
use crate::header::lemma_parse_headers_round_trip;
use crate::header::parse_header_nlas;
use crate::header::spec_header_canonical;
use crate::header::spec_header_encoding;
use crate::header::spec_header_kind;
use crate::header::spec_header_payload;
use crate::header::spec_header_wf;
use crate::header::spec_headers_encoding;
use crate::header::spec_parse_headers;
use crate::wire::NLA_F_NESTED;
use crate::wire::NLA_KIND_MASK;
use crate::wire::append_u16_le;
use crate::wire::append_u32_le;
use crate::wire::append_zeros;
use crate::wire::lemma_record_bytes_len;
use crate::wire::pad_for;
use crate::wire::record_bytes;
use crate::wire::record_len;

verus! {

/// Kind of the nested header attribute.
pub const ETHTOOL_A_LINKSTATE_HEADER: u16 = 1;

/// Kind of the boolean link attribute.
pub const ETHTOOL_A_LINKSTATE_LINK: u16 = 2;

/// Kind of the signal-quality-index attribute.
pub const ETHTOOL_A_LINKSTATE_SQI: u16 = 3;

/// Kind of the maximum-signal-quality-index attribute.
pub const ETHTOOL_A_LINKSTATE_SQI_MAX: u16 = 4;

/// Kind of the extended-state attribute.
pub const ETHTOOL_A_LINKSTATE_EXT_STATE: u16 = 5;

/// Kind of the extended-substate attribute.
pub const ETHTOOL_A_LINKSTATE_EXT_SUBSTATE: u16 = 6;

/// Kind of the link-down-count attribute.
pub const ETHTOOL_A_LINKSTATE_EXT_DOWN_CNT: u16 = 7;

/// One link-state attribute.  `Header` carries the nested header
/// sub-structure; `Other` is the generic fallback holding an unknown kind
/// exactly as it stood on the wire together with its raw payload bytes.
#[derive(Clone, Debug, PartialEq, Eq)]
pub enum EthtoolLinkStateAttr {
    Header(Vec<EthtoolHeader>),
    Link(bool),
    Sqi(u32),
    SqiMax(u32),
    ExtState(u8),
    ExtSubstate(u8),
    ExtDownCnt(u32),
    Other(u16, Vec<u8>),
}

/// Mathematical model of a link-state attribute.
pub enum SpecLinkStateAttr {
    Header(Seq<SpecHeaderAttr>),
    Link(bool),
    Sqi(u32),
    SqiMax(u32),
    ExtState(u8),
    ExtSubstate(u8),
    ExtDownCnt(u32),
    Other(u16, Seq<u8>),
}

impl View for EthtoolLinkStateAttr {
    type V = SpecLinkStateAttr;

    open spec fn view(&self) -> SpecLinkStateAttr {
        match self {
            EthtoolLinkStateAttr::Header(hs) => SpecLinkStateAttr::Header(hs.deep_view()),
            EthtoolLinkStateAttr::Link(v) => SpecLinkStateAttr::Link(*v),
            EthtoolLinkStateAttr::Sqi(v) => SpecLinkStateAttr::Sqi(*v),
            EthtoolLinkStateAttr::SqiMax(v) => SpecLinkStateAttr::SqiMax(*v),
            EthtoolLinkStateAttr::ExtState(v) => SpecLinkStateAttr::ExtState(*v),
            EthtoolLinkStateAttr::ExtSubstate(v) => SpecLinkStateAttr::ExtSubstate(*v),
            EthtoolLinkStateAttr::ExtDownCnt(v) => SpecLinkStateAttr::ExtDownCnt(*v),
            EthtoolLinkStateAttr::Other(k, b) => SpecLinkStateAttr::Other(*k, b@),
        }
    }
}

impl DeepView for EthtoolLinkStateAttr {
    type V = SpecLinkStateAttr;

    open spec fn deep_view(&self) -> SpecLinkStateAttr {
        self.view()
    }
}

/// An attribute of the protocol, tagged by its query family.  The model of
/// the wrapper is the model of the wrapped attribute.
#[derive(Clone, Debug, PartialEq, Eq)]
pub enum EthtoolAttr {
    LinkState(EthtoolLinkStateAttr),
}

impl View for EthtoolAttr {
    type V = SpecLinkStateAttr;

    open spec fn view(&self) -> SpecLinkStateAttr {
        match self {
            EthtoolAttr::LinkState(a) => a@,
        }
    }
}

impl DeepView for EthtoolAttr {
    type V = SpecLinkStateAttr;

    open spec fn deep_view(&self) -> SpecLinkStateAttr {
        self.view()
    }
}

/// Whether a true kind belongs to the known link-state enumeration.
pub open spec fn known_link_state_kind(k: u16) -> bool {
    ETHTOOL_A_LINKSTATE_HEADER <= k <= ETHTOOL_A_LINKSTATE_EXT_DOWN_CNT
}

/// The kind field an attribute is emitted with.  The header attribute carries
/// the nested flag, since its payload is itself a record sequence.
pub open spec fn spec_attr_kind(a: SpecLinkStateAttr) -> u16 {
    match a {
        SpecLinkStateAttr::Header(_) => ETHTOOL_A_LINKSTATE_HEADER | NLA_F_NESTED,
        SpecLinkStateAttr::Link(_) => ETHTOOL_A_LINKSTATE_LINK,
        SpecLinkStateAttr::Sqi(_) => ETHTOOL_A_LINKSTATE_SQI,
        SpecLinkStateAttr::SqiMax(_) => ETHTOOL_A_LINKSTATE_SQI_MAX,
        SpecLinkStateAttr::ExtState(_) => ETHTOOL_A_LINKSTATE_EXT_STATE,
        SpecLinkStateAttr::ExtSubstate(_) => ETHTOOL_A_LINKSTATE_EXT_SUBSTATE,
        SpecLinkStateAttr::ExtDownCnt(_) => ETHTOOL_A_LINKSTATE_EXT_DOWN_CNT,
        SpecLinkStateAttr::Other(k, _) => k,
    }
}

/// The payload bytes an attribute is emitted with.
pub open spec fn spec_attr_payload(a: SpecLinkStateAttr) -> Seq<u8> {
    match a {
        SpecLinkStateAttr::Header(hs) => spec_headers_encoding(hs),
        SpecLinkStateAttr::Link(v) => seq![
            if v {
                1u8
            } else {
                0u8
            },
        ],
        SpecLinkStateAttr::Sqi(v) => vstd::bytes::spec_u32_to_le_bytes(v),
        SpecLinkStateAttr::SqiMax(v) => vstd::bytes::spec_u32_to_le_bytes(v),
        SpecLinkStateAttr::ExtState(v) => seq![v],
        SpecLinkStateAttr::ExtSubstate(v) => seq![v],
        SpecLinkStateAttr::ExtDownCnt(v) => vstd::bytes::spec_u32_to_le_bytes(v),
        SpecLinkStateAttr::Other(_, b) => b,
    }
}

/// Structural bounds that emission needs: every payload, the nested header
/// encoding included, fits the 16-bit length field.
pub open spec fn spec_attr_wf(a: SpecLinkStateAttr) -> bool {
    match a {
        SpecLinkStateAttr::Header(hs) => (forall|i: int|
            0 <= i < hs.len() ==> spec_header_wf(#[trigger] hs[i])) && spec_headers_encoding(
            hs,
        ).len() <= 0xffff,
        SpecLinkStateAttr::Other(_, b) => b.len() <= 0xffff,
        _ => true,
    }
}

/// Whether this protocol direction can emit the attribute at all.  Only the
/// header and the generic fallback are ever sent; the remaining variants are
/// reported by the kernel and have no emission defined.
pub open spec fn spec_attr_emittable(a: SpecLinkStateAttr) -> bool {
    match a {
        SpecLinkStateAttr::Header(_) => true,
        SpecLinkStateAttr::Other(_, _) => true,
        _ => false,
    }
}

/// An attribute that decoding maps back to itself: well formed, nested
/// sub-attributes canonical, and an `Other` kind whose true kind lies outside
/// the known enumeration.
pub open spec fn spec_attr_canonical(a: SpecLinkStateAttr) -> bool {
    &&& spec_attr_wf(a)
    &&& match a {
        SpecLinkStateAttr::Header(hs) => forall|i: int|
            0 <= i < hs.len() ==> spec_header_canonical(#[trigger] hs[i]),
        SpecLinkStateAttr::Other(k, _) => !known_link_state_kind(k & NLA_KIND_MASK),
        _ => true,
    }
}

/// The full record an attribute is emitted as.
pub open spec fn spec_attr_encoding(a: SpecLinkStateAttr) -> Seq<u8> {
    record_bytes(spec_attr_kind(a), spec_attr_payload(a))
}

/// The encoding of an ordered attribute sequence: the concatenation of the
/// records, in sequence order.
pub open spec fn spec_attrs_encoding(s: Seq<SpecLinkStateAttr>) -> Seq<u8>
    decreases s.len(),
{
    if s.len() == 0 {
        Seq::empty()
    } else {
        spec_attr_encoding(s[0]) + spec_attrs_encoding(s.skip(1))
    }
}

/// What decoding one record yields, given its wire kind and payload: the
/// typed value for a known true kind, the generic fallback for an unknown
/// one, or the error naming the violated expectation.  A failure inside the
/// nested header gains this record's kind as context.
pub open spec fn spec_parse_attr_value(kind: u16, payload: Seq<u8>) -> Result<
    SpecLinkStateAttr,
    SpecDecodeError,
> {
    let true_kind = kind & NLA_KIND_MASK;
    if true_kind == ETHTOOL_A_LINKSTATE_HEADER {
        match spec_parse_headers(payload) {
            Ok(hs) => Ok(SpecLinkStateAttr::Header(hs)),
            Err(e) => Err(spec_with_context(e, kind)),
        }
    } else if true_kind == ETHTOOL_A_LINKSTATE_LINK {
        if payload.len() != 1 {
            Err(
                SpecDecodeError {
                    detail: ErrorDetail::WrongValueLength {
                        kind,
                        expected: 1,
                        actual: payload.len() as usize,
                    },
                    context: Seq::empty(),
                },
            )
        } else if payload[0] == 0 {
            Ok(SpecLinkStateAttr::Link(false))
        } else if payload[0] == 1 {
            Ok(SpecLinkStateAttr::Link(true))
        } else {
            Err(
                SpecDecodeError {
                    detail: ErrorDetail::InvalidBoolean { kind, value: payload[0] },
                    context: Seq::empty(),
                },
            )
        }
    } else if true_kind == ETHTOOL_A_LINKSTATE_SQI || true_kind == ETHTOOL_A_LINKSTATE_SQI_MAX
        || true_kind == ETHTOOL_A_LINKSTATE_EXT_DOWN_CNT {
        if payload.len() == 4 {
            let v = vstd::bytes::spec_u32_from_le_bytes(payload);
            if true_kind == ETHTOOL_A_LINKSTATE_SQI {
                Ok(SpecLinkStateAttr::Sqi(v))
            } else if true_kind == ETHTOOL_A_LINKSTATE_SQI_MAX {
                Ok(SpecLinkStateAttr::SqiMax(v))
            } else {
                Ok(SpecLinkStateAttr::ExtDownCnt(v))
            }
        } else {
            Err(
                SpecDecodeError {
                    detail: ErrorDetail::WrongValueLength {
                        kind,
                        expected: 4,
                        actual: payload.len() as usize,
                    },
                    context: Seq::empty(),
                },
            )
        }
    } else if true_kind == ETHTOOL_A_LINKSTATE_EXT_STATE || true_kind
        == ETHTOOL_A_LINKSTATE_EXT_SUBSTATE {
        if payload.len() == 1 {
            if true_kind == ETHTOOL_A_LINKSTATE_EXT_STATE {
                Ok(SpecLinkStateAttr::ExtState(payload[0]))
            } else {
                Ok(SpecLinkStateAttr::ExtSubstate(payload[0]))
            }
        } else {
            Err(
                SpecDecodeError {
                    detail: ErrorDetail::WrongValueLength {
                        kind,
                        expected: 1,
                        actual: payload.len() as usize,
                    },
                    context: Seq::empty(),
                },
            )
        }
    } else {
        Ok(SpecLinkStateAttr::Other(kind, payload))
    }
}

/// What decoding a message payload yields: the ordered attribute sequence in
/// buffer order, or the first error.  An empty buffer is zero attributes, not
/// an error.
pub open spec fn spec_parse_attrs(b: Seq<u8>) -> Result<Seq<SpecLinkStateAttr>, SpecDecodeError>
    decreases b.len(),
{
    if b.len() == 0 {
        Ok(Seq::empty())
    } else if b.len() < 4 {
        Err(
            SpecDecodeError {
                detail: ErrorDetail::TruncatedRecord { available: b.len() as usize },
                context: Seq::empty(),
            },
        )
    } else {
        let kind = vstd::bytes::spec_u16_from_le_bytes(b.subrange(0, 2));
        let declared = vstd::bytes::spec_u16_from_le_bytes(b.subrange(2, 4));
        let plen = declared as int;
        if plen > b.len() - 4 {
            Err(
                SpecDecodeError {
                    detail: ErrorDetail::TruncatedPayload {
                        kind,
                        declared,
                        available: (b.len() - 4) as usize,
                    },
                    context: Seq::empty(),
                },
            )
        } else {
            match spec_parse_attr_value(kind, b.subrange(4, 4 + plen)) {
                Ok(a) => {
                    let step = record_len(plen as nat) as int;
                    let rest = if step <= b.len() {
                        b.skip(step)
                    } else {
                        Seq::empty()
                    };
                    match spec_parse_attrs(rest) {
                        Ok(t) => Ok(seq![a] + t),
                        Err(e) => Err(e),
                    }
                },
                Err(e) => Err(e),
            }
        }
    }
}

/// The parse of a tail, prefixed by already-parsed attributes.
pub open spec fn prepend_attrs(
    prefix: Seq<SpecLinkStateAttr>,
    r: Result<Seq<SpecLinkStateAttr>, SpecDecodeError>,
) -> Result<Seq<SpecLinkStateAttr>, SpecDecodeError> {
    match r {
        Ok(t) => Ok(prefix + t),
        Err(e) => Err(e),
    }
}

/// Prefixing distributes over concatenation of already-parsed prefixes.
pub proof fn lemma_prepend_attrs_assoc(
    a: Seq<SpecLinkStateAttr>,
    b: Seq<SpecLinkStateAttr>,
    r: Result<Seq<SpecLinkStateAttr>, SpecDecodeError>,
)
    ensures
        prepend_attrs(a + b, r) == prepend_attrs(a, prepend_attrs(b, r)),
{
    match r {
        Ok(t) => {
            assert((a + b) + t =~= a + (b + t));
        },
        Err(_) => {},
    }
}

/// Prefixing with no parsed attributes changes nothing.
pub proof fn lemma_prepend_attrs_empty(r: Result<Seq<SpecLinkStateAttr>, SpecDecodeError>)
    ensures
        prepend_attrs(Seq::empty(), r) == r,
{
    match r {
        Ok(t) => {
            assert(Seq::<SpecLinkStateAttr>::empty() + t =~= t);
        },
        Err(_) => {},
    }
}

/// The model of a message decode result.
pub open spec fn attrs_result_view(r: Result<Vec<EthtoolAttr>, DecodeError>) -> Result<
    Seq<SpecLinkStateAttr>,
    SpecDecodeError,
> {
    match r {
        Ok(v) => Ok(v.deep_view()),
        Err(e) => Err(e@),
    }
}

impl EthtoolLinkStateAttr {
    /// The kind field this attribute is emitted with, nested flag included.
    pub fn kind(&self) -> (k: u16)
        ensures
            k == spec_attr_kind(self@),
    {
        match self {
            EthtoolLinkStateAttr::Header(_) => ETHTOOL_A_LINKSTATE_HEADER | NLA_F_NESTED,
            EthtoolLinkStateAttr::Link(_) => ETHTOOL_A_LINKSTATE_LINK,
            EthtoolLinkStateAttr::Sqi(_) => ETHTOOL_A_LINKSTATE_SQI,
            EthtoolLinkStateAttr::SqiMax(_) => ETHTOOL_A_LINKSTATE_SQI_MAX,
            EthtoolLinkStateAttr::ExtState(_) => ETHTOOL_A_LINKSTATE_EXT_STATE,
            EthtoolLinkStateAttr::ExtSubstate(_) => ETHTOOL_A_LINKSTATE_EXT_SUBSTATE,
            EthtoolLinkStateAttr::ExtDownCnt(_) => ETHTOOL_A_LINKSTATE_EXT_DOWN_CNT,
            EthtoolLinkStateAttr::Other(k, _) => *k,
        }
    }

    /// The payload length this attribute is emitted with.
    #[verifier::loop_isolation(false)]
    pub fn value_len(&self) -> (n: usize)
        requires
            spec_attr_wf(self@),
        ensures
            n == spec_attr_payload(self@).len(),
    {
        proof {
            vstd::bytes::lemma_auto_spec_u32_to_from_le_bytes();
        }
        match self {
            EthtoolLinkStateAttr::Header(hs) => {
                let ghost all = hs.deep_view();
                let mut total: usize = 0;
                let mut i: usize = 0;
                proof {
                    assert(all.take(0) =~= Seq::<SpecHeaderAttr>::empty());
                }
                while i < hs.len()
                    invariant
                        i <= hs.len(),
                        total == spec_headers_encoding(all.take(i as int)).len(),
                    decreases hs.len() - i,
                {
                    proof {
                        assert(all[i as int] == hs@[i as int]@);
                        assert(spec_header_wf(all[i as int]));
                        assert(all.take(i + 1) =~= all.take(i as int).push(all[i as int]));
                        lemma_headers_encoding_push(all.take(i as int), all[i as int]);
                        lemma_record_bytes_len(
                            spec_header_kind(all[i as int]),
                            spec_header_payload(all[i as int]),
                        );
                        assert(all =~= all.take(i + 1) + all.skip(i + 1));
                        lemma_headers_encoding_append(all.take(i + 1), all.skip(i + 1));
                    }
                    let vl = hs[i].value_len();
                    let pad = pad_for(vl);
                    total = total + 4 + vl + pad;
                    i = i + 1;
                }
                proof {
                    assert(all.take(hs.len() as int) =~= all);
                }
                total
            },
            EthtoolLinkStateAttr::Link(_) => 1,
            EthtoolLinkStateAttr::Sqi(_) => 4,
            EthtoolLinkStateAttr::SqiMax(_) => 4,
            EthtoolLinkStateAttr::ExtState(_) => 1,
            EthtoolLinkStateAttr::ExtSubstate(_) => 1,
            EthtoolLinkStateAttr::ExtDownCnt(_) => 4,
            EthtoolLinkStateAttr::Other(_, b) => b.len(),
        }
    }

    /// Whether this attribute can be emitted as it stands: an emittable
    /// variant whose payload, the nested header encoding included, fits the
    /// 16-bit length field.
    #[verifier::loop_isolation(false)]
    pub fn check_emittable(&self) -> (b: bool)
        ensures
            b == (spec_attr_wf(self@) && spec_attr_emittable(self@)),
    {
        match self {
            EthtoolLinkStateAttr::Header(hs) => {
                let ghost all = hs.deep_view();
                let mut total: usize = 0;
                let mut i: usize = 0;
                proof {
                    assert(all.take(0) =~= Seq::<SpecHeaderAttr>::empty());
                }
                while i < hs.len()
                    invariant
                        i <= hs.len(),
                        total == spec_headers_encoding(all.take(i as int)).len(),
                        total <= 0xffff,
                        forall|j: int| 0 <= j < i ==> spec_header_wf(#[trigger] all[j]),
                    decreases hs.len() - i,
                {
                    proof {
                        assert(all[i as int] == hs@[i as int]@);
                    }
                    if !hs[i].check_wf() {
                        return false;
                    }
                    proof {
                        crate::header::lemma_wf_header_payload_len(all[i as int]);
                    }
                    let vl = hs[i].value_len();
                    let pad = pad_for(vl);
                    let step = 4 + vl + pad;
                    proof {
                        assert(all.take(i + 1) =~= all.take(i as int).push(all[i as int]));
                        lemma_headers_encoding_push(all.take(i as int), all[i as int]);
                        lemma_record_bytes_len(
                            spec_header_kind(all[i as int]),
                            spec_header_payload(all[i as int]),
                        );
                    }
                    if step > 0xffff - total {
                        proof {
                            assert(all =~= all.take(i + 1) + all.skip(i + 1));
                            lemma_headers_encoding_append(all.take(i + 1), all.skip(i + 1));
                        }
                        return false;
                    }
                    total = total + step;
                    i = i + 1;
                }
                proof {
                    assert(all.take(hs.len() as int) =~= all);
                }
                true
            },
            EthtoolLinkStateAttr::Other(_, b) => b.len() <= 0xffff,
            _ => false,
        }
    }

    /// Appends this attribute's payload bytes.  Only the header and the
    /// generic fallback can be emitted: this protocol direction defines no
    /// encoding for the reported-only variants.
    #[verifier::loop_isolation(false)]
    pub fn emit_value(&self, out: &mut Vec<u8>)
        requires
            spec_attr_wf(self@),
            spec_attr_emittable(self@),
        ensures
            final(out)@ == old(out)@ + spec_attr_payload(self@),
    {
        match self {
            EthtoolLinkStateAttr::Header(hs) => {
                let ghost all = hs.deep_view();
                let ghost base = out@;
                let mut i: usize = 0;
                proof {
                    assert(all.take(0) =~= Seq::<SpecHeaderAttr>::empty());
                    assert(out@ =~= base + spec_headers_encoding(all.take(0)));
                }
                while i < hs.len()
                    invariant
                        i <= hs.len(),
                        out@ == base + spec_headers_encoding(all.take(i as int)),
                    decreases hs.len() - i,
                {
                    proof {
                        assert(all[i as int] == hs@[i as int]@);
                        assert(spec_header_wf(all[i as int]));
                    }
                    hs[i].emit(out);
                    proof {
                        assert(all.take(i + 1) =~= all.take(i as int).push(all[i as int]));
                        lemma_headers_encoding_push(all.take(i as int), all[i as int]);
                        assert(out@ =~= base + spec_headers_encoding(all.take(i + 1)));
                    }
                    i = i + 1;
                }
                proof {
                    assert(all.take(hs.len() as int) =~= all);
                }
            },
            EthtoolLinkStateAttr::Other(_, b) => {
                out.extend_from_slice(b.as_slice());
            },
            _ => {
                proof {
                    assert(false);
                }
            },
        }
    }

    /// Appends this attribute's full record: kind, payload length, payload,
    /// padding.
    pub fn emit(&self, out: &mut Vec<u8>)
        requires
            spec_attr_wf(self@),
            spec_attr_emittable(self@),
        ensures
            final(out)@ == old(out)@ + spec_attr_encoding(self@),
    {
        let len = self.value_len();
        append_u16_le(out, self.kind());
        append_u16_le(out, len as u16);
        self.emit_value(out);
        append_zeros(out, pad_for(len));
        proof {
            assert(out@ =~= old(out)@ + spec_attr_encoding(self@));
        }
    }

    /// Decodes one record from its wire kind and payload.  Unknown kinds fall
    /// through to the generic fallback; a failure inside the nested header
    /// gains this record's kind as context.
    pub fn parse(kind: u16, payload: Vec<u8>) -> (r: Result<EthtoolLinkStateAttr, DecodeError>)
        ensures
            result_view(r) == spec_parse_attr_value(kind, payload@),
    {
        let true_kind = kind & NLA_KIND_MASK;
        if true_kind == ETHTOOL_A_LINKSTATE_HEADER {
            match parse_header_nlas(payload.as_slice()) {
                Ok(hs) => Ok(EthtoolLinkStateAttr::Header(hs)),
                Err(e) => Err(e.with_context(kind)),
            }
        } else if true_kind == ETHTOOL_A_LINKSTATE_LINK {
            if payload.len() != 1 {
                Err(
                    DecodeError::new(
                        ErrorDetail::WrongValueLength { kind, expected: 1, actual: payload.len() },
                    ),
                )
            } else if payload[0] == 0 {
                Ok(EthtoolLinkStateAttr::Link(false))
            } else if payload[0] == 1 {
                Ok(EthtoolLinkStateAttr::Link(true))
            } else {
                Err(DecodeError::new(ErrorDetail::InvalidBoolean { kind, value: payload[0] }))
            }
        } else if true_kind == ETHTOOL_A_LINKSTATE_SQI || true_kind == ETHTOOL_A_LINKSTATE_SQI_MAX
            || true_kind == ETHTOOL_A_LINKSTATE_EXT_DOWN_CNT {
            if payload.len() == 4 {
                let v = vstd::bytes::u32_from_le_bytes(payload.as_slice());
                if true_kind == ETHTOOL_A_LINKSTATE_SQI {
                    Ok(EthtoolLinkStateAttr::Sqi(v))
                } else if true_kind == ETHTOOL_A_LINKSTATE_SQI_MAX {
                    Ok(EthtoolLinkStateAttr::SqiMax(v))
                } else {
                    Ok(EthtoolLinkStateAttr::ExtDownCnt(v))
                }
            } else {
                Err(
                    DecodeError::new(
                        ErrorDetail::WrongValueLength { kind, expected: 4, actual: payload.len() },
                    ),
                )
            }
        } else if true_kind == ETHTOOL_A_LINKSTATE_EXT_STATE || true_kind
            == ETHTOOL_A_LINKSTATE_EXT_SUBSTATE {
            if payload.len() == 1 {
                if true_kind == ETHTOOL_A_LINKSTATE_EXT_STATE {
                    Ok(EthtoolLinkStateAttr::ExtState(payload[0]))
                } else {
                    Ok(EthtoolLinkStateAttr::ExtSubstate(payload[0]))
                }
            } else {
                Err(
                    DecodeError::new(
                        ErrorDetail::WrongValueLength { kind, expected: 1, actual: payload.len() },
                    ),
                )
            }
        } else {
            Ok(EthtoolLinkStateAttr::Other(kind, payload))
        }
    }
}

/// Decodes one message payload into its ordered attribute sequence, in buffer
/// order, duplicates kept.  Each attribute is tagged with its query family.
#[verifier::loop_isolation(false)]
pub fn parse_link_state_nlas(buffer: &[u8]) -> (r: Result<Vec<EthtoolAttr>, DecodeError>)
    ensures
        attrs_result_view(r) == spec_parse_attrs(buffer@),
{
    let n = buffer.len();
    let mut out: Vec<EthtoolAttr> = Vec::new();
    let mut pos: usize = 0;
    proof {
        assert(buffer@.skip(0) =~= buffer@);
        assert(out.deep_view() =~= Seq::<SpecLinkStateAttr>::empty());
        lemma_prepend_attrs_empty(spec_parse_attrs(buffer@));
    }
    while pos < n
        invariant
            pos <= n,
            spec_parse_attrs(buffer@) == prepend_attrs(
                out.deep_view(),
                spec_parse_attrs(buffer@.skip(pos as int)),
            ),
        decreases n - pos,
    {
        let ghost suffix = buffer@.skip(pos as int);
        let remaining = n - pos;
        proof {
            assert(suffix.len() == remaining);
        }
        if remaining < 4 {
            return Err(DecodeError::new(ErrorDetail::TruncatedRecord { available: remaining }));
        }
        let kind = vstd::bytes::u16_from_le_bytes(
            vstd::slice::slice_subrange(buffer, pos, pos + 2),
        );
        let declared = vstd::bytes::u16_from_le_bytes(
            vstd::slice::slice_subrange(buffer, pos + 2, pos + 4),
        );
        proof {
            assert(buffer@.subrange(pos as int, pos as int + 2) =~= suffix.subrange(0, 2));
            assert(buffer@.subrange(pos as int + 2, pos as int + 4) =~= suffix.subrange(2, 4));
        }
        let plen = declared as usize;
        if plen > remaining - 4 {
            return Err(
                DecodeError::new(
                    ErrorDetail::TruncatedPayload { kind, declared, available: remaining - 4 },
                ),
            );
        }
        let payload = vstd::slice::slice_to_vec(
            vstd::slice::slice_subrange(buffer, pos + 4, pos + 4 + plen),
        );
        proof {
            assert(payload@ =~= suffix.subrange(4, 4 + plen as int));
        }
        let parsed = match EthtoolLinkStateAttr::parse(kind, payload) {
            Ok(a) => a,
            Err(e) => {
                return Err(e);
            },
        };
        let ghost out_before = out.deep_view();
        out.push(EthtoolAttr::LinkState(parsed));
        let used = 4 + plen;
        let pad = pad_for(plen);
        let ghost step = record_len(plen as nat) as int;
        let ghost rest = if step <= suffix.len() {
            suffix.skip(step)
        } else {
            Seq::<u8>::empty()
        };
        if pad >= remaining - used {
            pos = n;
        } else {
            pos = pos + used + pad;
        }
        proof {
            assert(buffer@.skip(pos as int) =~= rest);
            assert(out.deep_view() =~= out_before + seq![parsed@]);
            assert(spec_parse_attrs(suffix) == prepend_attrs(
                seq![parsed@],
                spec_parse_attrs(rest),
            ));
            lemma_prepend_attrs_assoc(out_before, seq![parsed@], spec_parse_attrs(rest));
        }
    }
    proof {
        assert(buffer@.skip(pos as int) =~= Seq::<u8>::empty());
        assert(out.deep_view() + Seq::<SpecLinkStateAttr>::empty() =~= out.deep_view());
    }
    Ok(out)
}

/// Encodes an ordered attribute sequence into one message payload: the
/// records in sequence order, each padded to the alignment unit.
#[verifier::loop_isolation(false)]
pub fn emit_link_state_nlas(attrs: &Vec<EthtoolLinkStateAttr>) -> (r: Vec<u8>)
    requires
        forall|i: int|
            0 <= i < attrs@.len() ==> spec_attr_wf(#[trigger] attrs@[i]@) && spec_attr_emittable(
                attrs@[i]@,
            ),
    ensures
        r@ == spec_attrs_encoding(attrs.deep_view()),
{
    let ghost all = attrs.deep_view();
    let mut out: Vec<u8> = Vec::new();
    let mut i: usize = 0;
    proof {
        assert(all.take(0) =~= Seq::<SpecLinkStateAttr>::empty());
        assert(out@ =~= spec_attrs_encoding(all.take(0)));
    }
    while i < attrs.len()
        invariant
            i <= attrs.len(),
            out@ == spec_attrs_encoding(all.take(i as int)),
        decreases attrs.len() - i,
    {
        proof {
            assert(attrs@[i as int]@ == all[i as int]);
        }
        attrs[i].emit(&mut out);
        proof {
            assert(all.take(i + 1) =~= all.take(i as int).push(all[i as int]));
            lemma_attrs_encoding_push(all.take(i as int), all[i as int]);
            assert(out@ =~= spec_attrs_encoding(all.take(i + 1)));
        }
        i = i + 1;
    }
    proof {
        assert(all.take(attrs.len() as int) =~= all);
    }
    out
}

/// Appending one attribute appends its record to the encoding.
pub proof fn lemma_attrs_encoding_push(s: Seq<SpecLinkStateAttr>, a: SpecLinkStateAttr)
    ensures
        spec_attrs_encoding(s.push(a)) == spec_attrs_encoding(s) + spec_attr_encoding(a),
    decreases s.len(),
{
    if s.len() == 0 {
        assert(s.push(a)[0] == a);
        assert(s.push(a).skip(1) =~= Seq::<SpecLinkStateAttr>::empty());
        assert(spec_attrs_encoding(s.push(a).skip(1)) =~= Seq::<u8>::empty());
        assert(spec_attrs_encoding(s.push(a)) =~= spec_attrs_encoding(s) + spec_attr_encoding(a));
    } else {
        assert(s.push(a)[0] == s[0]);
        assert(s.push(a).skip(1) =~= s.skip(1).push(a));
        lemma_attrs_encoding_push(s.skip(1), a);
        assert(spec_attr_encoding(s[0]) + (spec_attrs_encoding(s.skip(1)) + spec_attr_encoding(a))
            =~= (spec_attr_encoding(s[0]) + spec_attrs_encoding(s.skip(1))) + spec_attr_encoding(
            a,
        ));
    }
}

/// Every well-formed attribute's payload fits the 16-bit length field.
pub proof fn lemma_wf_attr_payload_len(a: SpecLinkStateAttr)
    requires
        spec_attr_wf(a),
    ensures
        spec_attr_payload(a).len() <= 0xffff,
{
    vstd::bytes::lemma_auto_spec_u32_to_from_le_bytes();
}

/// Decoding is compositional per record: a buffer that starts with one whole
/// record decodes to that record's value followed by the decode of what comes
/// after its padding.  Output order therefore equals buffer order, and
/// duplicate kinds are kept, not deduplicated.
pub proof fn lemma_parse_attrs_step(kind: u16, payload: Seq<u8>, rest: Seq<u8>)
    requires
        payload.len() <= 0xffff,
    ensures
        spec_parse_attrs(record_bytes(kind, payload) + rest) == (match spec_parse_attr_value(
            kind,
            payload,
        ) {
            Ok(a) => prepend_attrs(seq![a], spec_parse_attrs(rest)),
            Err(e) => Err(e),
        }),
{
    vstd::bytes::lemma_auto_spec_u16_to_from_le_bytes();
    lemma_record_bytes_len(kind, payload);
    let rec = record_bytes(kind, payload);
    let b = rec + rest;
    assert(b.len() >= 4);
    assert(b.subrange(0, 2) =~= vstd::bytes::spec_u16_to_le_bytes(kind));
    assert(b.subrange(2, 4) =~= vstd::bytes::spec_u16_to_le_bytes(payload.len() as u16));
    let declared = vstd::bytes::spec_u16_from_le_bytes(b.subrange(2, 4));
    assert(declared == payload.len() as u16);
    assert(declared as int == payload.len());
    assert(b.subrange(4, 4 + payload.len() as int) =~= payload);
    let step = record_len(payload.len()) as int;
    assert(step == rec.len());
    assert(step <= b.len());
    assert(b.skip(step) =~= rest);
}

/// Decoding maps every emittable canonical attribute's record back to itself.
pub proof fn lemma_parse_attr_value_round_trip(a: SpecLinkStateAttr)
    requires
        spec_attr_canonical(a),
        spec_attr_emittable(a),
    ensures
        spec_parse_attr_value(spec_attr_kind(a), spec_attr_payload(a)) == Ok::<
            SpecLinkStateAttr,
            SpecDecodeError,
        >(a),
{
    assert(NLA_KIND_MASK == 0x7fff && NLA_F_NESTED == 0x8000);
    match a {
        SpecLinkStateAttr::Header(hs) => {
            assert((1u16 | 0x8000u16) & 0x7fffu16 == 1u16) by (bit_vector);
            lemma_parse_headers_round_trip(hs);
        },
        SpecLinkStateAttr::Other(_, _) => {},
        _ => {
            assert(false);
        },
    }
}

/// Round trip of the codec: decoding the encoding of any sequence of
/// emittable canonical attributes yields exactly that sequence.  The
/// reported-only variants have no emission in this protocol direction, so the
/// law covers the header and the generic fallback, the values this code can
/// send.
pub proof fn lemma_link_state_round_trip(s: Seq<SpecLinkStateAttr>)
    requires
        forall|i: int|
            0 <= i < s.len() ==> spec_attr_canonical(#[trigger] s[i]) && spec_attr_emittable(s[i]),
    ensures
        spec_parse_attrs(spec_attrs_encoding(s)) == Ok::<Seq<SpecLinkStateAttr>, SpecDecodeError>(
            s,
        ),
    decreases s.len(),
{
    if s.len() == 0 {
        assert(s =~= Seq::<SpecLinkStateAttr>::empty());
    } else {
        let a = s[0];
        let t = s.skip(1);
        lemma_wf_attr_payload_len(a);
        lemma_parse_attr_value_round_trip(a);
        lemma_parse_attrs_step(spec_attr_kind(a), spec_attr_payload(a), spec_attrs_encoding(t));
        assert forall|i: int|
            0 <= i < t.len() implies spec_attr_canonical(#[trigger] t[i]) && spec_attr_emittable(
            t[i],
        ) by {
            assert(t[i] == s[i + 1]);
        }
        lemma_link_state_round_trip(t);
        assert(seq![a] + t =~= s);
    }
}

} // verus!
