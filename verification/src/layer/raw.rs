//! Raw payload layer: bytes that no other layer describes.
use crate::layer::{Layer, LayerError, PacketLayer, SpecLayer};
use vstd::prelude::*;

verus! {

/// Opaque payload bytes.
#[derive(Debug, Clone, PartialEq, Eq)]
pub struct Raw {
    pub data: Vec<u8>,
}

impl View for Raw {
    type V = Seq<u8>;

    open spec fn view(&self) -> Seq<u8> {
        self.data@
    }
}

/// A raw layer takes all of its input.
pub open spec fn spec_parse_raw(s: Seq<u8>) -> Result<(Seq<u8>, nat), LayerError> {
    Ok((s, s.len()))
}

impl Default for Raw {
    fn default() -> (r: Self)
        ensures
            r@ == Seq::<u8>::empty(),
    {
        Raw { data: Vec::new() }
    }
}

impl Raw {
    /// Construct a raw layer holding a copy of `payload`.
    pub fn new(payload: &[u8]) -> (r: Self)
        ensures
            r@ == payload@,
    {
        Raw { data: vstd::slice::slice_to_vec(payload) }
    }

    /// The payload bytes.
    pub fn payload(&self) -> (r: &[u8])
        ensures
            r@ == self@,
    {
        self.data.as_slice()
    }
}


impl PacketLayer for Raw {
    open spec fn spec_parse(input: Seq<u8>) -> Result<(Seq<u8>, nat), LayerError> {
        spec_parse_raw(input)
    }

    open spec fn spec_to_bytes(v: Seq<u8>) -> Result<Seq<u8>, LayerError> {
        Ok(v)
    }

    open spec fn spec_finalize(v: Seq<u8>, prev: Seq<SpecLayer>, next: Seq<SpecLayer>) -> (
        Seq<u8>,
        Result<(), LayerError>,
    ) {
        (v, Ok(()))
    }

    open spec fn spec_name() -> Seq<char> {
        "Raw"@
    }

    /// Parse a raw layer: it takes the whole input.
    fn parse(input: &[u8]) -> (r: Result<(&[u8], Raw), LayerError>)
    {
        let rest = vstd::slice::slice_subrange(input, input.len(), input.len());
        assert(rest@ =~= input@.skip(input@.len() as int));
        Ok((rest, Raw::new(input)))
    }

    /// The payload bytes, as a new vector.
    fn to_bytes(&self) -> (r: Result<Vec<u8>, LayerError>)
    {
        Ok(vstd::slice::slice_to_vec(self.data.as_slice()))
    }

    /// Nothing in a raw payload depends on the other layers.
    fn finalize(&mut self, prev: &[Layer], next: &[Layer]) -> (r: Result<(), LayerError>) {
        Ok(())
    }

    fn name(&self) -> (r: &'static str) {
        proof {
            reveal_strlit("Raw");
        }
        "Raw"
    }
}

} // verus!
