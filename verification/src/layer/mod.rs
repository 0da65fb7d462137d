//! Layer parsing and construction.
//!
//! A layer is one protocol's slice of a packet. Every layer can be parsed from the front of a
//! byte string, serialized back to bytes, and finalized against the layers around it.
pub mod bytes;
pub mod checksum;
pub mod error;
pub mod ether;
pub mod raw;
pub mod tcp;

pub use error::LayerError;

use ether::Ether;
use raw::Raw;
use tcp::{SpecTcp, Tcp};
use vstd::prelude::*;

verus! {

/// A packet layer that can be parsed, finalized and serialized.
pub trait PacketLayer: Sized + View {
    /// Parsing: the layer at the front of `input` and the number of bytes it occupies.
    spec fn spec_parse(input: Seq<u8>) -> Result<(Self::V, nat), LayerError>;

    /// Serialization.
    spec fn spec_to_bytes(v: Self::V) -> Result<Seq<u8>, LayerError>;

    /// Finalizing against the layers before and after: the new layer and the outcome.
    spec fn spec_finalize(v: Self::V, prev: Seq<SpecLayer>, next: Seq<SpecLayer>) -> (
        Self::V,
        Result<(), LayerError>,
    );

    /// Short display name.
    spec fn spec_name() -> Seq<char>;

    /// Parse a layer from the front of `input`; returns the remaining bytes and the layer.
    fn parse(input: &[u8]) -> (r: Result<(&[u8], Self), LayerError>)
        ensures
            match r {
                Ok((rest, l)) => Self::spec_parse(input@) matches Ok((v, n)) && l@ == v && rest@
                    == input@.skip(n as int),
                Err(e) => Self::spec_parse(input@) == Err::<(Self::V, nat), LayerError>(e),
            },
    ;

    /// Serialize the layer to bytes.
    fn to_bytes(&self) -> (r: Result<Vec<u8>, LayerError>)
        ensures
            match r {
                Ok(b) => Self::spec_to_bytes(self@) == Ok::<Seq<u8>, LayerError>(b@),
                Err(e) => Self::spec_to_bytes(self@) == Err::<Seq<u8>, LayerError>(e),
            },
    ;

    /// Update fields that depend on the previous and next layers, such as lengths and
    /// checksums.
    fn finalize(&mut self, prev: &[Layer], next: &[Layer]) -> (r: Result<(), LayerError>)
        ensures
            (final(self)@, r) == Self::spec_finalize(
                old(self)@,
                layers_view(prev@),
                layers_view(next@),
            ),
    ;

    /// Return a short display name for this layer.
    fn name(&self) -> (r: &'static str)
        ensures
            r@ == Self::spec_name(),
    ;

    /// Return the serialized length in bytes of the layer.
    fn length(&self) -> (r: Result<usize, LayerError>)
        ensures
            match r {
                Ok(n) => Self::spec_to_bytes(self@) matches Ok(b) && b.len() == n,
                Err(e) => Self::spec_to_bytes(self@) == Err::<Seq<u8>, LayerError>(e),
            },
    {
        match self.to_bytes() {
            Ok(b) => Ok(b.len()),
            Err(e) => Err(e),
        }
    }
}

/// The protocol of a layer.
#[derive(Debug, Clone, Copy, PartialEq, Eq, Structural)]
pub enum LayerKind {
    Ether,
    Tcp,
    Raw,
}

/// A layer of one of the protocols that this crate implements.
#[derive(Debug, Clone, PartialEq)]
pub enum Layer {
    Ether(Ether),
    Tcp(Tcp),
    Raw(Raw),
}

/// The mathematical value of a [`Layer`].
pub enum SpecLayer {
    Ether(Ether),
    Tcp(SpecTcp),
    Raw(Seq<u8>),
}

impl View for Layer {
    type V = SpecLayer;

    open spec fn view(&self) -> SpecLayer {
        match self {
            Layer::Ether(e) => SpecLayer::Ether(*e),
            Layer::Tcp(t) => SpecLayer::Tcp(t@),
            Layer::Raw(r) => SpecLayer::Raw(r@),
        }
    }
}

/// The views of a sequence of layers.
pub open spec fn layers_view(ls: Seq<Layer>) -> Seq<SpecLayer> {
    ls.map_values(|l: Layer| l@)
}

/// The protocol of a layer value.
pub open spec fn kind_of(l: SpecLayer) -> LayerKind {
    match l {
        SpecLayer::Ether(_) => LayerKind::Ether,
        SpecLayer::Tcp(_) => LayerKind::Tcp,
        SpecLayer::Raw(_) => LayerKind::Raw,
    }
}

/// The display name of a protocol.
pub open spec fn kind_name(k: LayerKind) -> Seq<char> {
    match k {
        LayerKind::Ether => <Ether as PacketLayer>::spec_name(),
        LayerKind::Tcp => <Tcp as PacketLayer>::spec_name(),
        LayerKind::Raw => <Raw as PacketLayer>::spec_name(),
    }
}

/// Serialization of a layer value.
pub open spec fn spec_layer_bytes(l: SpecLayer) -> Result<Seq<u8>, LayerError> {
    match l {
        SpecLayer::Ether(e) => <Ether as PacketLayer>::spec_to_bytes(e),
        SpecLayer::Tcp(t) => <Tcp as PacketLayer>::spec_to_bytes(t),
        SpecLayer::Raw(r) => <Raw as PacketLayer>::spec_to_bytes(r),
    }
}

/// Parsing a layer of protocol `k` from the front of `s`.
pub open spec fn spec_layer_parse(k: LayerKind, s: Seq<u8>) -> Result<(SpecLayer, nat), LayerError> {
    match k {
        LayerKind::Ether => match <Ether as PacketLayer>::spec_parse(s) {
            Ok((v, n)) => Ok((SpecLayer::Ether(v), n)),
            Err(e) => Err(e),
        },
        LayerKind::Tcp => match <Tcp as PacketLayer>::spec_parse(s) {
            Ok((v, n)) => Ok((SpecLayer::Tcp(v), n)),
            Err(e) => Err(e),
        },
        LayerKind::Raw => match <Raw as PacketLayer>::spec_parse(s) {
            Ok((v, n)) => Ok((SpecLayer::Raw(v), n)),
            Err(e) => Err(e),
        },
    }
}

/// Finalizing a layer value against the layers before and after it.
pub open spec fn spec_layer_finalize(l: SpecLayer, prev: Seq<SpecLayer>, next: Seq<SpecLayer>) -> (
    SpecLayer,
    Result<(), LayerError>,
) {
    match l {
        SpecLayer::Ether(e) => {
            let (v, r) = <Ether as PacketLayer>::spec_finalize(e, prev, next);
            (SpecLayer::Ether(v), r)
        },
        SpecLayer::Tcp(t) => {
            let (v, r) = <Tcp as PacketLayer>::spec_finalize(t, prev, next);
            (SpecLayer::Tcp(v), r)
        },
        SpecLayer::Raw(d) => {
            let (v, r) = <Raw as PacketLayer>::spec_finalize(d, prev, next);
            (SpecLayer::Raw(v), r)
        },
    }
}

/// Serialization of a sequence of layers: their bytes one after the other, or the first error.
pub open spec fn spec_layers_bytes(ls: Seq<SpecLayer>) -> Result<Seq<u8>, LayerError>
    decreases ls.len(),
{
    if ls.len() == 0 {
        Ok(Seq::empty())
    } else {
        match spec_layers_bytes(ls.drop_last()) {
            Err(e) => Err(e),
            Ok(b) => match spec_layer_bytes(ls.last()) {
                Err(e) => Err(e),
                Ok(c) => Ok(b + c),
            },
        }
    }
}

impl Layer {
    /// The protocol of this layer.
    pub fn kind(&self) -> (r: LayerKind)
        ensures
            r == kind_of(self@),
    {
        match self {
            Layer::Ether(_) => LayerKind::Ether,
            Layer::Tcp(_) => LayerKind::Tcp,
            Layer::Raw(_) => LayerKind::Raw,
        }
    }

    /// Short display name of this layer.
    pub fn name(&self) -> (r: &'static str)
        ensures
            r@ == kind_name(kind_of(self@)),
    {
        match self {
            Layer::Ether(e) => e.name(),
            Layer::Tcp(t) => t.name(),
            Layer::Raw(r) => r.name(),
        }
    }

    /// Serialize this layer.
    pub fn to_bytes(&self) -> (r: Result<Vec<u8>, LayerError>)
        ensures
            match r {
                Ok(b) => spec_layer_bytes(self@) == Ok::<Seq<u8>, LayerError>(b@),
                Err(e) => spec_layer_bytes(self@) == Err::<Seq<u8>, LayerError>(e),
            },
    {
        match self {
            Layer::Ether(e) => e.to_bytes(),
            Layer::Tcp(t) => t.to_bytes(),
            Layer::Raw(r) => r.to_bytes(),
        }
    }

    /// Parse a layer of protocol `kind` from the front of `input`.
    pub fn parse(kind: LayerKind, input: &[u8]) -> (r: Result<(&[u8], Layer), LayerError>)
        ensures
            match r {
                Ok((rest, l)) => spec_layer_parse(kind, input@) matches Ok((v, n)) && l@ == v
                    && rest@ == input@.skip(n as int),
                Err(e) => spec_layer_parse(kind, input@) == Err::<(SpecLayer, nat), LayerError>(e),
            },
    {
        match kind {
            LayerKind::Ether => match Ether::parse(input) {
                Ok((rest, v)) => Ok((rest, Layer::Ether(v))),
                Err(e) => Err(e),
            },
            LayerKind::Tcp => match Tcp::parse(input) {
                Ok((rest, v)) => Ok((rest, Layer::Tcp(v))),
                Err(e) => Err(e),
            },
            LayerKind::Raw => match Raw::parse(input) {
                Ok((rest, v)) => Ok((rest, Layer::Raw(v))),
                Err(e) => Err(e),
            },
        }
    }

    /// Finalize this layer against the layers before and after it.
    pub fn finalize(&mut self, prev: &[Layer], next: &[Layer]) -> (r: Result<(), LayerError>)
        ensures
            (final(self)@, r) == spec_layer_finalize(
                old(self)@,
                layers_view(prev@),
                layers_view(next@),
            ),
    {
        match self {
            Layer::Ether(e) => e.finalize(prev, next),
            Layer::Tcp(t) => t.finalize(prev, next),
            Layer::Raw(d) => d.finalize(prev, next),
        }
    }
}

/// Serialize layers one after the other.
pub fn layers_to_bytes(layers: &[Layer]) -> (r: Result<Vec<u8>, LayerError>)
    ensures
        match r {
            Ok(b) => spec_layers_bytes(layers_view(layers@)) == Ok::<Seq<u8>, LayerError>(b@),
            Err(e) => spec_layers_bytes(layers_view(layers@)) == Err::<Seq<u8>, LayerError>(e),
        },
{
    let mut out: Vec<u8> = Vec::new();
    let mut i: usize = 0;
    while i < layers.len()
        invariant
            i <= layers@.len(),
            spec_layers_bytes(layers_view(layers@).take(i as int)) == Ok::<Seq<u8>, LayerError>(
                out@,
            ),
        decreases layers@.len() - i,
    {
        let ghost prefix = layers_view(layers@).take(i as int);
        let ghost next = layers_view(layers@).take(i + 1);
        assert(next.drop_last() =~= prefix);
        match layers[i].to_bytes() {
            Ok(mut b) => {
                out.append(&mut b);
            },
            Err(e) => {
                proof {
                    lemma_layers_bytes_err_prefix(layers_view(layers@), i as int + 1);
                }
                return Err(e);
            },
        }
        i = i + 1;
    }
    assert(layers_view(layers@).take(layers@.len() as int) =~= layers_view(layers@));
    Ok(out)
}

/// Once serializing a prefix fails, serializing the whole sequence fails the same way.
pub proof fn lemma_layers_bytes_err_prefix(ls: Seq<SpecLayer>, k: int)
    requires
        0 <= k <= ls.len(),
        spec_layers_bytes(ls.take(k)) is Err,
    ensures
        spec_layers_bytes(ls) == spec_layers_bytes(ls.take(k)),
    decreases ls.len() - k,
{
    if k < ls.len() {
        assert(ls.take(k + 1).drop_last() =~= ls.take(k));
        lemma_layers_bytes_err_prefix(ls, k + 1);
    } else {
        assert(ls.take(k) =~= ls);
    }
}

/// Convert a value into a [`Layer`].
pub trait IntoLayer: Sized {
    /// The layer this value converts into.
    spec fn spec_into_layer(self) -> Layer;

    /// Convert this value into a layer.
    fn into_layer(self) -> (r: Layer)
        ensures
            r == self.spec_into_layer(),
    ;
}

impl IntoLayer for Layer {
    open spec fn spec_into_layer(self) -> Layer {
        self
    }

    fn into_layer(self) -> (r: Layer) {
        self
    }
}

impl IntoLayer for Ether {
    open spec fn spec_into_layer(self) -> Layer {
        Layer::Ether(self)
    }

    fn into_layer(self) -> (r: Layer) {
        Layer::Ether(self)
    }
}

impl IntoLayer for Tcp {
    open spec fn spec_into_layer(self) -> Layer {
        Layer::Tcp(self)
    }

    fn into_layer(self) -> (r: Layer) {
        Layer::Tcp(self)
    }
}

impl IntoLayer for Raw {
    open spec fn spec_into_layer(self) -> Layer {
        Layer::Raw(self)
    }

    fn into_layer(self) -> (r: Layer) {
        Layer::Raw(self)
    }
}

} // verus!
