//! The request builder for the link-state query family: from an optional
//! interface name to the outer attribute set of a query, and the handle type
//! the builder hangs off.  Building a request performs no transport work: the
//! request is a value describing intent, and the caller submits its encoded
//! payload through the transport it manages.

use vstd::prelude::*;
use vstd::string::StringSliceAdditionalSpecFns;

use crate::attr::EthtoolLinkStateAttr;
use crate::attr::SpecLinkStateAttr;
use crate::attr::emit_link_state_nlas;
use crate::attr::spec_attr_emittable;
use crate::attr::spec_attr_wf;
use crate::attr::spec_attrs_encoding;
use crate::header::EthtoolHeader;
use crate::header::SpecHeaderAttr;

verus! {

/// Handle to an open transport connection for this protocol.  The connection
/// itself, with the numeric family identifier it was registered under, lives
/// with the caller that drives the transport; the handle is the token the
/// per-family handles are built from.
#[derive(Clone, Copy, Debug)]
pub struct EthtoolHandle {}

impl EthtoolHandle {
    /// A handle for a connection the caller manages.
    pub fn new() -> (r: Self) {
        EthtoolHandle {}
    }
}

/// Handle for link-state queries.
pub struct EthtoolLinkStateHandle(EthtoolHandle);

/// Mathematical model of a link-state query: the outer attribute sequence it
/// carries and whether it asks for all interfaces.
pub struct SpecGetRequest {
    pub attrs: Seq<SpecLinkStateAttr>,
    pub dump: bool,
}

/// The outer attribute sequence of a query for `name`: a single header
/// attribute, holding the interface name when one is given and left
/// unpopulated to request a dump of all interfaces.
pub open spec fn spec_get_attrs(name: Option<Seq<u8>>) -> Seq<SpecLinkStateAttr> {
    match name {
        Some(b) => seq![SpecLinkStateAttr::Header(seq![SpecHeaderAttr::DevName(b)])],
        None => seq![SpecLinkStateAttr::Header(Seq::empty())],
    }
}

/// Whether every attribute of the query can be emitted as it stands.
pub open spec fn spec_request_emittable(rq: SpecGetRequest) -> bool {
    forall|i: int|
        0 <= i < rq.attrs.len() ==> spec_attr_wf(#[trigger] rq.attrs[i]) && spec_attr_emittable(
            rq.attrs[i],
        )
}

/// A link-state query, ready for submission: a value describing intent, built
/// without transport work.
pub struct EthtoolLinkStateGetRequest {
    handle: EthtoolHandle,
    attrs: Vec<EthtoolLinkStateAttr>,
    dump: bool,
}

impl View for EthtoolLinkStateGetRequest {
    type V = SpecGetRequest;

    closed spec fn view(&self) -> SpecGetRequest {
        SpecGetRequest { attrs: self.attrs.deep_view(), dump: self.dump }
    }
}

impl EthtoolLinkStateHandle {
    /// A link-state handle over an open connection.
    pub fn new(handle: EthtoolHandle) -> (r: Self) {
        EthtoolLinkStateHandle(handle)
    }

    /// Builds the query for the current link state of an interface, or of all
    /// interfaces when no name is given.
    pub fn get(&mut self, iface_name: Option<&str>) -> (r: EthtoolLinkStateGetRequest)
        ensures
            r@.attrs == spec_get_attrs(
                match iface_name {
                    Some(s) => Some(s.spec_bytes()),
                    None => None,
                },
            ),
            r@.dump == (iface_name is None),
    {
        EthtoolLinkStateGetRequest::new(self.0, iface_name)
    }
}

impl EthtoolLinkStateGetRequest {
    /// Builds the query: one header attribute, holding the interface name's
    /// bytes when a name is given and left unpopulated to request a dump.
    pub fn new(handle: EthtoolHandle, iface_name: Option<&str>) -> (r: Self)
        ensures
            r@.attrs == spec_get_attrs(
                match iface_name {
                    Some(s) => Some(s.spec_bytes()),
                    None => None,
                },
            ),
            r@.dump == (iface_name is None),
    {
        let mut hdrs: Vec<EthtoolHeader> = Vec::new();
        let dump: bool = match iface_name {
            Some(s) => {
                let name = vstd::slice::slice_to_vec(s.as_bytes());
                proof {
                    assert(name@ == s.spec_bytes());
                }
                hdrs.push(EthtoolHeader::DevName(name));
                proof {
                    assert(hdrs.deep_view() =~= seq![SpecHeaderAttr::DevName(s.spec_bytes())]);
                }
                false
            },
            None => {
                proof {
                    assert(hdrs.deep_view() =~= Seq::<SpecHeaderAttr>::empty());
                }
                true
            },
        };
        let ghost hview = hdrs.deep_view();
        let mut attrs: Vec<EthtoolLinkStateAttr> = Vec::new();
        attrs.push(EthtoolLinkStateAttr::Header(hdrs));
        proof {
            assert(attrs.deep_view() =~= seq![SpecLinkStateAttr::Header(hview)]);
        }
        let r = EthtoolLinkStateGetRequest { handle, attrs, dump };
        proof {
            match iface_name {
                Some(s) => {
                    assert(r@.attrs =~= spec_get_attrs(Some(s.spec_bytes())));
                },
                None => {
                    assert(r@.attrs =~= spec_get_attrs(None));
                },
            }
        }
        r
    }

    /// The outer attributes the query carries.
    pub fn attrs(&self) -> (r: &Vec<EthtoolLinkStateAttr>)
        ensures
            r.deep_view() == self@.attrs,
    {
        &self.attrs
    }

    /// Whether the query asks for all interfaces.
    pub fn is_dump(&self) -> (r: bool)
        ensures
            r == self@.dump,
    {
        self.dump
    }

    /// The encoded query payload, ready for submission, or nothing when an
    /// attribute cannot be emitted (an interface name too long for the 16-bit
    /// length field).  Names of ordinary length always encode.
    pub fn payload(&self) -> (r: Option<Vec<u8>>)
        ensures
            match r {
                Some(v) => spec_request_emittable(self@) && v@ == spec_attrs_encoding(self@.attrs),
                None => !spec_request_emittable(self@),
            },
    {
        let mut i: usize = 0;
        while i < self.attrs.len()
            invariant
                i <= self.attrs.len(),
                forall|j: int|
                    0 <= j < i ==> spec_attr_wf(#[trigger] self.attrs.deep_view()[j])
                        && spec_attr_emittable(self.attrs.deep_view()[j]),
            decreases self.attrs.len() - i,
        {
            if !self.attrs[i].check_emittable() {
                proof {
                    assert(self@.attrs[i as int] == self.attrs@[i as int]@);
                    assert(!(spec_attr_wf(self@.attrs[i as int]) && spec_attr_emittable(
                        self@.attrs[i as int],
                    )));
                }
                return None;
            }
            proof {
                assert(self.attrs.deep_view()[i as int] == self.attrs@[i as int]@);
            }
            i = i + 1;
        }
        proof {
            assert forall|j: int|
                0 <= j < self.attrs@.len() implies spec_attr_wf(#[trigger] self.attrs@[j]@)
                && spec_attr_emittable(self.attrs@[j]@) by {
                assert(self.attrs@[j]@ == self.attrs.deep_view()[j]);
            }
            assert(spec_request_emittable(self@));
        }
        Some(emit_link_state_nlas(&self.attrs))
    }
}

} // verus!
