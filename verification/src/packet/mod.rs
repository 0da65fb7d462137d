//! Packet parsing and construction.
pub mod error;
pub mod parser;

pub use error::PacketError;
pub use parser::{PacketParser, Parser};

use crate::layer::raw::Raw;
use crate::layer::{
    kind_name, kind_of, layers_to_bytes, layers_view, spec_layer_finalize, spec_layers_bytes,
    IntoLayer, Layer, LayerKind, SpecLayer,
};
use vstd::prelude::*;

verus! {

/// Layer `i` is the first layer of protocol `k`.
pub open spec fn is_first_of_kind(ls: Seq<SpecLayer>, k: LayerKind, i: int) -> bool {
    &&& 0 <= i < ls.len()
    &&& kind_of(ls[i]) == k
    &&& forall|j: int| 0 <= j < i ==> kind_of(#[trigger] ls[j]) != k
}

/// Some layer is of protocol `k`.
pub open spec fn has_kind(ls: Seq<SpecLayer>, k: LayerKind) -> bool {
    exists|i: int| 0 <= i < ls.len() && kind_of(#[trigger] ls[i]) == k
}

/// The layers of protocol `k`, in order.
pub open spec fn of_kind(ls: Seq<Layer>, k: LayerKind) -> Seq<Layer> {
    ls.filter(|l: Layer| kind_of(l@) == k)
}

/// The names of the layers joined by `" / "`.
pub open spec fn summary_text(ls: Seq<SpecLayer>) -> Seq<char>
    decreases ls.len(),
{
    if ls.len() == 0 {
        Seq::empty()
    } else if ls.len() == 1 {
        kind_name(kind_of(ls[0]))
    } else {
        summary_text(ls.drop_last()) + " / "@ + kind_name(kind_of(ls.last()))
    }
}

/// Finalizing layers `i..` in order, each against the layers before it (already finalized)
/// and after it; stops at the first error.
pub open spec fn finalize_from(ls: Seq<SpecLayer>, i: nat) -> (Seq<SpecLayer>, Result<(), PacketError>)
    decreases ls.len() - i,
{
    if i >= ls.len() {
        (ls, Ok(()))
    } else {
        let (l, r) = spec_layer_finalize(ls[i as int], ls.take(i as int), ls.skip((i + 1) as int));
        let ls2 = ls.update(i as int, l);
        match r {
            Err(e) => (ls2, Err(PacketError::Layer(e))),
            Ok(()) => finalize_from(ls2, i + 1),
        }
    }
}

/// Finalizing a whole packet.
pub open spec fn spec_packet_finalize(ls: Seq<SpecLayer>) -> (Seq<SpecLayer>, Result<(), PacketError>) {
    finalize_from(ls, 0)
}

/// Serializing a packet: the bytes of its layers one after the other.
pub open spec fn spec_packet_bytes(ls: Seq<SpecLayer>) -> Result<Seq<u8>, PacketError> {
    match spec_layers_bytes(ls) {
        Ok(b) => Ok(b),
        Err(e) => Err(PacketError::Layer(e)),
    }
}

/// Finalizing, then serializing.
pub open spec fn spec_finalized_bytes(ls: Seq<SpecLayer>) -> (Seq<SpecLayer>, Result<
    Seq<u8>,
    PacketError,
>) {
    let (f, r) = spec_packet_finalize(ls);
    match r {
        Err(e) => (f, Err(e)),
        Ok(()) => (f, spec_packet_bytes(f)),
    }
}

fn first_of_kind(layers: &[Layer], k: LayerKind) -> (r: Option<usize>)
    ensures
        r is None <==> !has_kind(layers_view(layers@), k),
        r matches Some(i) ==> is_first_of_kind(layers_view(layers@), k, i as int),
{
    let ghost v = layers_view(layers@);
    let mut i: usize = 0;
    while i < layers.len()
        invariant
            i <= layers@.len(),
            v == layers_view(layers@),
            forall|j: int| 0 <= j < i ==> kind_of(#[trigger] v[j]) != k,
        decreases layers@.len() - i,
    {
        if layers[i].kind() == k {
            assert(is_first_of_kind(v, k, i as int));
            return Some(i);
        }
        i = i + 1;
    }
    assert forall|j: int| 0 <= j < v.len() implies kind_of(#[trigger] v[j]) != k by {}
    None
}

fn all_of_kind<'a>(layers: &'a [Layer], k: LayerKind) -> (r: Vec<&'a Layer>)
    ensures
        r@.map_values(|l: &Layer| *l) == of_kind(layers@, k),
{
    let mut out: Vec<&'a Layer> = Vec::new();
    let mut i: usize = 0;
    while i < layers.len()
        invariant
            i <= layers@.len(),
            out@.map_values(|l: &Layer| *l) == of_kind(layers@.take(i as int), k),
        decreases layers@.len() - i,
    {
        let ghost before = out@;
        proof {
            reveal_with_fuel(Seq::<_>::filter, 1);
            assert(layers@.take(i + 1).drop_last() =~= layers@.take(i as int));
        }
        if layers[i].kind() == k {
            out.push(&layers[i]);
            assert(out@.map_values(|l: &Layer| *l) =~= before.map_values(|l: &Layer| *l).push(
                layers@[i as int],
            ));
        }
        i = i + 1;
    }
    assert(layers@.take(layers@.len() as int) =~= layers@);
    out
}

fn summary_of(layers: &[Layer]) -> (r: String)
    ensures
        r@ == summary_text(layers_view(layers@)),
{
    let ghost v = layers_view(layers@);
    let mut out = String::new();
    let mut i: usize = 0;
    while i < layers.len()
        invariant
            i <= layers@.len(),
            v == layers_view(layers@),
            out@ == summary_text(v.take(i as int)),
        decreases layers@.len() - i,
    {
        proof {
            reveal_strlit(" / ");
            assert(v.take(i + 1).drop_last() =~= v.take(i as int));
        }
        if i != 0 {
            out.append(" / ");
        }
        out.append(layers[i].name());
        proof {
            if i == 0 {
                assert(out@ =~= summary_text(v.take(1)));
            } else {
                assert(out@ =~= summary_text(v.take(i + 1)));
            }
        }
        i = i + 1;
    }
    assert(v.take(layers@.len() as int) =~= v);
    out
}

/// A read-only view of the layers of an existing packet.
#[derive(Clone, Copy)]
pub struct PacketRef<'a> {
    layers: &'a [Layer],
}

impl<'a> PacketRef<'a> {
    /// The layers this view borrows.
    pub closed spec fn layer_seq(self) -> Seq<Layer> {
        self.layers@
    }

    /// Create a view borrowed from a packet.
    pub fn from_packet(packet: &'a Packet) -> (r: Self)
        ensures
            r.layer_seq() == packet.layer_seq(),
    {
        PacketRef { layers: packet.layers.as_slice() }
    }

    /// Return the number of layers in the packet.
    pub fn len(&self) -> (r: usize)
        ensures
            r == self.layer_seq().len(),
    {
        self.layers.len()
    }

    /// Return whether the packet contains no layers.
    pub fn is_empty(&self) -> (r: bool)
        ensures
            r == (self.layer_seq().len() == 0),
    {
        self.layers.len() == 0
    }

    /// The packet's layers, in order.
    pub fn iter(&self) -> (r: core::slice::Iter<'a, Layer>)
        ensures
            vstd::std_specs::slice::into_iter_elts(r) == self.layer_seq(),
            vstd::std_specs::iter::IteratorSpec::decrease(&r) is Some,
            vstd::std_specs::iter::IteratorSpec::initial_value_relation(&r, &r),
    {
        broadcast use vstd::std_specs::slice::group_slice_axioms;

        self.layers.iter()
    }

    /// Return the first layer of protocol `kind`.
    pub fn get(&self, kind: LayerKind) -> (r: Option<&'a Layer>)
        ensures
            r is None <==> !has_kind(layers_view(self.layer_seq()), kind),
            r matches Some(l) ==> exists|i: int|
                is_first_of_kind(layers_view(self.layer_seq()), kind, i) && *l
                    == self.layer_seq()[i],
    {
        match first_of_kind(self.layers, kind) {
            Some(i) => {
                assert(is_first_of_kind(layers_view(self.layer_seq()), kind, i as int));
                Some(&self.layers[i])
            },
            None => None,
        }
    }

    /// Return all layers of protocol `kind`, in order.
    pub fn get_all(&self, kind: LayerKind) -> (r: Vec<&'a Layer>)
        ensures
            r@.map_values(|l: &Layer| *l) == of_kind(self.layer_seq(), kind),
            (r@.len() > 0) == has_kind(layers_view(self.layer_seq()), kind),
            r@.len() > 0 ==> exists|i: int|
                is_first_of_kind(layers_view(self.layer_seq()), kind, i) && *r@[0]
                    == self.layer_seq()[i],
    {
        let r = all_of_kind(self.layers, kind);
        proof {
            lemma_lookups_agree(self.layer_seq(), kind);
            assert(r@.map_values(|l: &Layer| *l).len() == r@.len());
            if r@.len() > 0 {
                assert(r@.map_values(|l: &Layer| *l)[0] == *r@[0]);
            }
        }
        r
    }

    /// Return whether the packet contains a layer of protocol `kind`.
    pub fn has(&self, kind: LayerKind) -> (r: bool)
        ensures
            r == has_kind(layers_view(self.layer_seq()), kind),
    {
        first_of_kind(self.layers, kind).is_some()
    }

    /// Return a compact, slash-separated layer summary.
    pub fn summary(&self) -> (r: String)
        ensures
            r@ == summary_text(layers_view(self.layer_seq())),
    {
        summary_of(self.layers)
    }

    /// The packet as text: its summary.
    pub fn to_string(&self) -> (r: String)
        ensures
            r@ == summary_text(layers_view(self.layer_seq())),
    {
        self.summary()
    }
}

/// A packet: an ordered collection of layers.
#[derive(Debug, Clone)]
pub struct Packet {
    layers: Vec<Layer>,
}

impl View for Packet {
    type V = Seq<SpecLayer>;

    open spec fn view(&self) -> Seq<SpecLayer> {
        layers_view(self.layer_seq())
    }
}

impl Default for Packet {
    fn default() -> (r: Self)
        ensures
            r.layer_seq() == Seq::<Layer>::empty(),
    {
        Packet { layers: Vec::new() }
    }
}

impl Packet {
    /// The layers of the packet, in order.
    pub closed spec fn layer_seq(self) -> Seq<Layer> {
        self.layers@
    }

    /// Create an empty packet.
    pub fn new() -> (r: Self)
        ensures
            r.layer_seq() == Seq::<Layer>::empty(),
    {
        Packet { layers: Vec::new() }
    }

    /// Start building a packet.
    pub fn builder() -> (r: PacketBuilder)
        ensures
            r.packet.layer_seq() == Seq::<Layer>::empty(),
    {
        PacketBuilder { packet: Packet::new() }
    }

    /// Construct a packet containing one layer.
    pub fn from_layer<L: IntoLayer>(layer: L) -> (r: Self)
        ensures
            r.layer_seq() == seq![layer.spec_into_layer()],
    {
        let mut layers: Vec<Layer> = Vec::new();
        layers.push(layer.into_layer());
        assert(layers@ =~= seq![layer.spec_into_layer()]);
        Packet { layers }
    }

    /// Construct a packet from its layers, in order.
    pub fn from_layers(layers: Vec<Layer>) -> (r: Self)
        ensures
            r.layer_seq() == layers@,
    {
        Packet { layers }
    }

    /// Append a layer to the packet.
    pub fn push<L: IntoLayer>(&mut self, layer: L) -> (r: &mut Self)
        ensures
            r.layer_seq() == old(self).layer_seq().push(layer.spec_into_layer()),
            *final(self) == *final(r),
    {
        self.layers.push(layer.into_layer());
        self
    }

    /// Finalize every layer in order, each against the layers before it (already finalized)
    /// and after it; stops at the first layer that fails.
    pub fn finalize(&mut self) -> (r: Result<(), PacketError>)
        ensures
            (final(self)@, r) == spec_packet_finalize(old(self)@),
    {
        let n = self.layers.len();
        let mut i: usize = 0;
        while i < n
            invariant
                n == self.layers@.len(),
                i <= n,
                spec_packet_finalize(old(self)@) == finalize_from(self@, i as nat),
            decreases n - i,
        {
            let ghost cur = self@;
            let slice = self.layers.as_mut_slice();
            let (prev, rest) = slice.split_at_mut(i);
            let (current, next) = rest.split_at_mut(1);
            let r = current[0].finalize(prev, next);
            assert(layers_view(prev@) =~= cur.take(i as int));
            assert(layers_view(next@) =~= cur.skip(i + 1));
            assert(self@ =~= cur.update(i as int, self@[i as int]));
            match r {
                Err(e) => return Err(PacketError::Layer(e)),
                Ok(()) => {},
            }
            i = i + 1;
        }
        Ok(())
    }

    /// Borrow this packet through a [`PacketRef`].
    pub fn as_ref(&self) -> (r: PacketRef<'_>)
        ensures
            r.layer_seq() == self.layer_seq(),
    {
        PacketRef::from_packet(self)
    }

    /// The packet's layers, in order, as a slice.
    pub fn layers(&self) -> (r: &[Layer])
        ensures
            r@ == self.layer_seq(),
    {
        self.layers.as_slice()
    }

    /// The packet's layers, in order.
    pub fn iter(&self) -> (r: core::slice::Iter<'_, Layer>)
        ensures
            vstd::std_specs::slice::into_iter_elts(r) == self.layer_seq(),
            vstd::std_specs::iter::IteratorSpec::decrease(&r) is Some,
            vstd::std_specs::iter::IteratorSpec::initial_value_relation(&r, &r),
    {
        broadcast use vstd::std_specs::slice::group_slice_axioms;

        self.layers.iter()
    }

    /// Return the first layer of protocol `kind`.
    pub fn get(&self, kind: LayerKind) -> (r: Option<&Layer>)
        ensures
            r is None <==> !has_kind(self@, kind),
            r matches Some(l) ==> exists|i: int|
                is_first_of_kind(self@, kind, i) && *l == self.layer_seq()[i],
    {
        match first_of_kind(self.layers.as_slice(), kind) {
            Some(i) => {
                assert(is_first_of_kind(self@, kind, i as int));
                Some(&self.layers[i])
            },
            None => None,
        }
    }

    /// Return a mutable reference to the first layer of protocol `kind`.
    pub fn get_mut(&mut self, kind: LayerKind) -> (r: Option<&mut Layer>)
        ensures
            r is None <==> !has_kind(old(self)@, kind),
            r is None ==> final(self).layer_seq() == old(self).layer_seq(),
            r matches Some(l) ==> exists|i: int|
                {
                    &&& is_first_of_kind(old(self)@, kind, i)
                    &&& *l == old(self).layer_seq()[i]
                    &&& final(self).layer_seq() == old(self).layer_seq().update(i, *final(l))
                },
    {
        let ghost v = self@;
        let mut i: usize = 0;
        while i < self.layers.len()
            invariant
                i <= self.layers@.len(),
                v == self@,
                self == old(self),
                forall|j: int| 0 <= j < i ==> kind_of(#[trigger] v[j]) != kind,
            decreases self.layers@.len() - i,
        {
            if self.layers[i].kind() == kind {
                assert(is_first_of_kind(v, kind, i as int));
                return Some(&mut self.layers[i]);
            }
            i = i + 1;
        }
        assert forall|j: int| 0 <= j < v.len() implies kind_of(#[trigger] v[j]) != kind by {}
        None
    }

    /// Return all layers of protocol `kind`, in order.
    pub fn get_all(&self, kind: LayerKind) -> (r: Vec<&Layer>)
        ensures
            r@.map_values(|l: &Layer| *l) == of_kind(self.layer_seq(), kind),
            (r@.len() > 0) == has_kind(self@, kind),
            r@.len() > 0 ==> exists|i: int|
                is_first_of_kind(self@, kind, i) && *r@[0] == self.layer_seq()[i],
    {
        let r = all_of_kind(self.layers.as_slice(), kind);
        proof {
            lemma_lookups_agree(self.layer_seq(), kind);
            assert(r@.map_values(|l: &Layer| *l).len() == r@.len());
            if r@.len() > 0 {
                assert(r@.map_values(|l: &Layer| *l)[0] == *r@[0]);
            }
        }
        r
    }

    /// Return whether the packet contains a layer of protocol `kind`.
    pub fn has(&self, kind: LayerKind) -> (r: bool)
        ensures
            r == has_kind(self@, kind),
    {
        first_of_kind(self.layers.as_slice(), kind).is_some()
    }

    /// Return a compact, slash-separated layer summary.
    pub fn summary(&self) -> (r: String)
        ensures
            r@ == summary_text(self@),
    {
        self.as_ref().summary()
    }

    /// The packet as text: its summary.
    pub fn to_string(&self) -> (r: String)
        ensures
            r@ == summary_text(self@),
    {
        self.summary()
    }

    /// Serialize the layers one after the other, without finalizing.
    pub fn serialize(&self) -> (r: Result<Vec<u8>, PacketError>)
        ensures
            match r {
                Ok(b) => spec_packet_bytes(self@) == Ok::<Seq<u8>, PacketError>(b@),
                Err(e) => spec_packet_bytes(self@) == Err::<Seq<u8>, PacketError>(e),
            },
    {
        match layers_to_bytes(self.layers.as_slice()) {
            Ok(b) => Ok(b),
            Err(e) => Err(PacketError::Layer(e)),
        }
    }

    /// Finalize the packet and serialize it to bytes.
    pub fn bytes(&mut self) -> (r: Result<Vec<u8>, PacketError>)
        ensures
            ({
                let (f, res) = spec_finalized_bytes(old(self)@);
                &&& final(self)@ == f
                &&& match r {
                    Ok(b) => res == Ok::<Seq<u8>, PacketError>(b@),
                    Err(e) => res == Err::<Seq<u8>, PacketError>(e),
                }
            }),
    {
        match self.finalize() {
            Err(e) => return Err(e),
            Ok(()) => {},
        }
        self.serialize()
    }

    /// Finalize the packet and serialize it, consuming the packet.
    pub fn into_bytes(self) -> (r: Result<Vec<u8>, PacketError>)
        ensures
            match r {
                Ok(b) => spec_finalized_bytes(self@).1 == Ok::<Seq<u8>, PacketError>(b@),
                Err(e) => spec_finalized_bytes(self@).1 == Err::<Seq<u8>, PacketError>(e),
            },
    {
        let mut p = self;
        p.bytes()
    }
}

/// A fluent packet builder.
#[derive(Debug, Default)]
pub struct PacketBuilder {
    pub packet: Packet,
}

impl PacketBuilder {
    /// Append a layer to the packet being built.
    pub fn layer<L: IntoLayer>(self, layer: L) -> (r: Self)
        ensures
            r.packet.layer_seq() == self.packet.layer_seq().push(layer.spec_into_layer()),
    {
        let mut b = self;
        b.packet.push(layer);
        b
    }

    /// Append a raw payload layer.
    pub fn payload(self, payload: &[u8]) -> (r: Self)
        ensures
            r.packet@ == self.packet@.push(SpecLayer::Raw(payload@)),
    {
        let mut b = self;
        b.packet.push(Raw::new(payload));
        b
    }

    /// Finalize and return the completed packet.
    pub fn build(self) -> (r: Result<Packet, PacketError>)
        ensures
            match r {
                Ok(p) => spec_packet_finalize(self.packet@).1 is Ok && spec_packet_finalize(
                    self.packet@,
                ).0 == p@,
                Err(e) => spec_packet_finalize(self.packet@).1 == Err::<(), PacketError>(e),
            },
    {
        let mut p = self.packet;
        match p.finalize() {
            Ok(()) => {
                assert(spec_packet_finalize(self.packet@).0 == p@);
                Ok(p)
            },
            Err(e) => Err(e),
        }
    }
}

/// `packet / layer` appends a layer, as in Scapy.
impl<L: IntoLayer> core::ops::Div<L> for Packet {
    type Output = Packet;

    fn div(self, layer: L) -> (r: Packet)
        ensures
            r.layer_seq() == self.layer_seq().push(layer.spec_into_layer()),
    {
        let mut p = self;
        p.push(layer);
        p
    }
}

impl<L: IntoLayer> vstd::std_specs::ops::DivSpecImpl<L> for Packet {
    /// `div` is described by its own contract, which gives the appended layer; `div_spec` picks
    /// some packet with those layers, so `div` is not claimed to return that very one.
    open spec fn obeys_div_spec() -> bool {
        false
    }

    open spec fn div_req(self, layer: L) -> bool {
        true
    }

    /// A packet whose layers are this packet's with `layer` appended.
    open spec fn div_spec(self, layer: L) -> Packet {
        choose|p: Packet| p.layer_seq() == self.layer_seq().push(layer.spec_into_layer())
    }
}

/// Convert one layer into a packet, so that more layers can be appended.
pub trait IntoPacket: Sized {
    /// The packet this value converts into.
    spec fn spec_into_packet(self) -> Seq<Layer>;

    /// Convert this value into a packet.
    fn into_packet(self) -> (r: Packet)
        ensures
            r.layer_seq() == self.spec_into_packet(),
    ;
}

impl<L: IntoLayer> IntoPacket for L {
    open spec fn spec_into_packet(self) -> Seq<Layer> {
        seq![self.spec_into_layer()]
    }

    fn into_packet(self) -> (r: Packet) {
        Packet::from_layer(self)
    }
}

/// A packet has at most one first layer of a protocol.
pub proof fn lemma_first_of_kind_unique(ls: Seq<SpecLayer>, k: LayerKind, i: int, j: int)
    requires
        is_first_of_kind(ls, k, i),
        is_first_of_kind(ls, k, j),
    ensures
        i == j,
{
    if i < j {
        assert(kind_of(ls[i]) != k);
    } else if j < i {
        assert(kind_of(ls[j]) != k);
    }
}

/// Looking layers up by protocol agrees three ways: some layer has the protocol exactly when
/// the layers of that protocol are not none, and then there is a first such layer, which is
/// the first of the layers of that protocol.
pub proof fn lemma_lookups_agree(ls: Seq<Layer>, k: LayerKind)
    ensures
        has_kind(layers_view(ls), k) == (of_kind(ls, k).len() > 0),
        has_kind(layers_view(ls), k) ==> exists|i: int|
            is_first_of_kind(layers_view(ls), k, i) && #[trigger] ls[i] == of_kind(ls, k)[0],
    decreases ls.len(),
{
    let v = layers_view(ls);
    if ls.len() > 0 {
        let front = ls.drop_last();
        let fv = layers_view(front);
        lemma_lookups_agree(front, k);
        assert(fv =~= v.drop_last());
        assert(of_kind(ls, k) == if kind_of(ls.last()@) == k {
            of_kind(front, k).push(ls.last())
        } else {
            of_kind(front, k)
        }) by {
            reveal(Seq::filter);
        }
        if has_kind(fv, k) {
            let i = choose|i: int| is_first_of_kind(fv, k, i) && #[trigger] front[i] == of_kind(front, k)[0];
            assert forall|j: int| 0 <= j <= i implies #[trigger] v[j] == fv[j] by {}
            assert(is_first_of_kind(v, k, i));
            assert(ls[i] == front[i]);
            let m = choose|m: int| 0 <= m < fv.len() && kind_of(#[trigger] fv[m]) == k;
            assert(v[m] == fv[m]);
        } else {
            assert forall|j: int| 0 <= j < ls.len() - 1 implies kind_of(#[trigger] v[j]) != k by {
                assert(v[j] == fv[j]);
            }
            if kind_of(ls.last()@) == k {
                let n = ls.len() - 1;
                assert(v[n] == ls[n]@);
                assert(is_first_of_kind(v, k, n));
                assert(of_kind(ls, k)[0] == ls[n]);
            } else {
                if has_kind(v, k) {
                    let m = choose|m: int| 0 <= m < v.len() && kind_of(#[trigger] v[m]) == k;
                    assert(v[ls.len() - 1] == ls.last()@);
                }
            }
        }
    } else {
        assert(of_kind(ls, k) =~= Seq::<Layer>::empty());
    }
}

/// Appending a layer keeps the layers before it, and the layers of each protocol gain it
/// exactly when it is of that protocol.
pub proof fn lemma_push_layer(ls: Seq<Layer>, l: Layer, k: LayerKind)
    ensures
        layers_view(ls.push(l)) == layers_view(ls).push(l@),
        of_kind(ls.push(l), k) == if kind_of(l@) == k {
            of_kind(ls, k).push(l)
        } else {
            of_kind(ls, k)
        },
        has_kind(layers_view(ls.push(l)), k) == (has_kind(layers_view(ls), k) || kind_of(l@) == k),
{
    let v = layers_view(ls);
    let w = layers_view(ls.push(l));
    reveal(Seq::filter);
    assert(w =~= v.push(l@));
    assert(ls.push(l).drop_last() =~= ls);
    if has_kind(v, k) {
        let m = choose|m: int| 0 <= m < v.len() && kind_of(#[trigger] v[m]) == k;
        assert(w[m] == v[m]);
    }
    if kind_of(l@) == k {
        assert(w[ls.len() as int] == l@);
    }
    if has_kind(w, k) {
        let m = choose|m: int| 0 <= m < w.len() && kind_of(#[trigger] w[m]) == k;
        if m < ls.len() {
            assert(v[m] == w[m]);
        }
    }
}

/// A packet without layers has an empty summary and no layer of any protocol.
pub proof fn lemma_no_layers(ls: Seq<Layer>, k: LayerKind)
    requires
        ls.len() == 0,
    ensures
        summary_text(layers_view(ls)) == Seq::<char>::empty(),
        !has_kind(layers_view(ls), k),
        of_kind(ls, k).len() == 0,
{
    lemma_lookups_agree(ls, k);
}

/// Turning a packet into bytes finalizes it, then serializes the finalized layers; a failure
/// to finalize is the result.
pub proof fn lemma_bytes_after_finalize(ls: Seq<SpecLayer>)
    ensures
        spec_finalized_bytes(ls).0 == spec_packet_finalize(ls).0,
        spec_finalized_bytes(ls).1 == match spec_packet_finalize(ls).1 {
            Err(e) => Err(e),
            Ok(()) => spec_packet_bytes(spec_packet_finalize(ls).0),
        },
{
}


/// Iterating over the layers of a packet yields them in order, one by one, as references to
/// the packet's own layers; it yields nothing exactly when the packet has no layers.
pub proof fn lemma_iter_yields_layers<'a>(it: core::slice::Iter<'a, Layer>, ls: Seq<Layer>)
    requires
        vstd::std_specs::slice::into_iter_elts(it) == ls,
        vstd::std_specs::iter::IteratorSpec::initial_value_relation(&it, &it),
    ensures
        vstd::std_specs::iter::IteratorSpec::remaining(&it).len() == ls.len(),
        forall|i: int|
            0 <= i < ls.len() ==> *#[trigger] vstd::std_specs::iter::IteratorSpec::remaining(&it)[i]
                == ls[i],
        (vstd::std_specs::iter::IteratorSpec::remaining(&it).len() == 0) == (ls.len() == 0),
{
    let r = vstd::std_specs::iter::IteratorSpec::remaining(&it);
    assert forall|i: int| 0 <= i < ls.len() implies *#[trigger] r[i] == ls[i] by {
        assert(r.unref()[i] == *r[i]);
    }
}

} // verus!
