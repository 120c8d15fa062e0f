//! Previous Node Block (RFC 9171 §4.4.1).

use vstd::prelude::*;

use crate::cbor::{Decoder, Encoder, ToCbor};

use crate::bpv7::eid::{lemma_eid_roundtrip, spec_encode_eid, spec_parse_eid, Eid, EidView};
use crate::bpv7::error::Error;

use super::Extension;

verus! {

/// Previous Node Block (RFC 9171 §4.4.1), block type 6.
#[derive(Debug, Clone, PartialEq, Eq)]
pub struct PreviousNode {
    pub node_id: Eid,
}

impl View for PreviousNode {
    type V = EidView;

    open spec fn view(&self) -> EidView {
        self.node_id@
    }
}

/// Parsing previous node data: one endpoint ID. Bytes after it are ignored.
pub open spec fn spec_parse_previous_node(s: Seq<u8>) -> Result<EidView, Error> {
    match spec_parse_eid(s) {
        Ok((e, _)) => Ok(e),
        Err(e) => Err(e),
    }
}

impl Extension for PreviousNode {
    const BLOCK_TYPE: u64 = 6;

    open spec fn spec_parse(data: Seq<u8>) -> Result<EidView, Error> {
        spec_parse_previous_node(data)
    }

    open spec fn spec_encode(v: EidView) -> Seq<u8> {
        spec_encode_eid(v)
    }

    fn parse(data: &[u8]) -> (r: Result<Self, Error>) {
        let mut dec = Decoder::new(data);
        proof {
            assert(dec.rest() =~= data@);
        }
        let node_id = Eid::decode_buf(&mut dec)?;
        Ok(PreviousNode { node_id })
    }

    fn encode_data(&self) -> (r: Vec<u8>) {
        let mut enc = Encoder::new();
        self.node_id.encode(&mut enc);
        proof {
            assert(enc@ =~= spec_encode_eid(self@));
        }
        enc.into_bytes()
    }
}

/// Parsing the data of a previous node block gives back the endpoint
/// encoded, whatever follows it.
pub proof fn lemma_previous_node_roundtrip(e: EidView, rest: Seq<u8>)
    requires
        e.wf(),
    ensures
        spec_parse_previous_node(spec_encode_eid(e) + rest) == Ok::<EidView, Error>(e),
{
    lemma_eid_roundtrip(e, rest);
}

} // verus!
