//! Packet parser driven by layer bindings.
//!
//! A layer binding says which layer to parse next, given the current parsed layer and the
//! remaining bytes. For each protocol, bindings are tried from the most recently added to the
//! first; the first one whose condition holds decides the next layer.
use crate::layer::ether::EtherType;
use crate::layer::ether::lemma_ether_parse_serialize;
use crate::layer::tcp::lemma_tcp_parse_serialize;
use crate::layer::{kind_of, layers_view, spec_layer_bytes, spec_layer_parse, spec_layers_bytes, Layer, LayerKind, SpecLayer};
use crate::packet::{Packet, PacketError};
use vstd::prelude::*;

verus! {

/// When a binding applies to the current layer and the remaining bytes.
#[derive(Debug, Clone, Copy, PartialEq, Eq, Structural)]
pub enum BindCondition {
    /// Always.
    Always,
    /// Never.
    Never,
    /// The current layer is TCP with this source port.
    SrcPort(u16),
    /// The current layer is TCP with this destination port.
    DstPort(u16),
    /// The current layer is Ethernet with this ether type.
    EtherType(EtherType),
}

/// A binding: parse a layer of protocol `to` next when `when` holds.
#[derive(Debug, Clone, Copy, PartialEq, Eq, Structural)]
pub struct Binding {
    pub to: LayerKind,
    pub when: BindCondition,
}

/// Whether a binding condition holds for the current layer and the remaining bytes.
pub open spec fn cond_holds(c: BindCondition, cur: SpecLayer, rest: Seq<u8>) -> bool {
    match c {
        BindCondition::Always => true,
        BindCondition::Never => false,
        BindCondition::SrcPort(p) => cur matches SpecLayer::Tcp(t) && t.sport == p,
        BindCondition::DstPort(p) => cur matches SpecLayer::Tcp(t) && t.dport == p,
        BindCondition::EtherType(e) => cur matches SpecLayer::Ether(h) && h.ether_type == e,
    }
}

/// The protocol to parse next: the target of the most recently added binding whose condition
/// holds, if any.
pub open spec fn next_kind(bs: Seq<Binding>, cur: SpecLayer, rest: Seq<u8>) -> Option<LayerKind>
    decreases bs.len(),
{
    if bs.len() == 0 {
        None
    } else if cond_holds(bs.last().when, cur, rest) {
        Some(bs.last().to)
    } else {
        next_kind(bs.drop_last(), cur, rest)
    }
}

/// The key under which the bindings of a protocol are kept.
pub open spec fn kind_key(k: LayerKind) -> u64 {
    match k {
        LayerKind::Ether => 0,
        LayerKind::Tcp => 1,
        LayerKind::Raw => 2,
    }
}

/// The bindings kept for a protocol, oldest first.
pub open spec fn bindings_for(table: Map<u64, Seq<Binding>>, k: LayerKind) -> Seq<Binding> {
    if table.contains_key(kind_key(k)) {
        table[kind_key(k)]
    } else {
        Seq::empty()
    }
}

/// A layer parsed from a non-empty input takes at least one byte and no more than the input.
pub proof fn lemma_layer_parse_progress(k: LayerKind, s: Seq<u8>)
    requires
        spec_layer_parse(k, s) is Ok,
    ensures
        spec_layer_parse(k, s)->Ok_0.1 <= s.len(),
        s.len() > 0 ==> spec_layer_parse(k, s)->Ok_0.1 >= 1,
{
    match k {
        LayerKind::Tcp => {
            lemma_tcp_parse_serialize(s);
        },
        _ => {},
    }
}

/// Parse the layers that follow `cur`, given the bytes after it: the layers from `cur` on and
/// the bytes left unparsed.
pub open spec fn parse_chain(table: Map<u64, Seq<Binding>>, cur: SpecLayer, rest: Seq<u8>) -> Result<
    (Seq<SpecLayer>, Seq<u8>),
    PacketError,
>
    decreases rest.len(),
{
    if rest.len() == 0 {
        Ok((seq![cur], rest))
    } else {
        match next_kind(bindings_for(table, kind_of(cur)), cur, rest) {
            None => Ok((seq![cur], rest)),
            Some(k) => match spec_layer_parse(k, rest) {
                Err(e) => Err(PacketError::Layer(e)),
                Ok((l, n)) => {
                    proof {
                        lemma_layer_parse_progress(k, rest);
                    }
                    match parse_chain(table, l, rest.skip(n as int)) {
                        Err(e) => Err(e),
                        Ok((ls, r)) => Ok((seq![cur] + ls, r)),
                    }
                },
            },
        }
    }
}

/// Parse a packet whose first layer has protocol `first`: its layers and the bytes left over.
pub open spec fn spec_parse_partial(
    table: Map<u64, Seq<Binding>>,
    first: LayerKind,
    input: Seq<u8>,
) -> Result<(Seq<SpecLayer>, Seq<u8>), PacketError> {
    match spec_layer_parse(first, input) {
        Err(e) => Err(PacketError::Layer(e)),
        Ok((l, n)) => parse_chain(table, l, input.skip(n as int)),
    }
}

/// Parse a packet that must take the whole input.
pub open spec fn spec_parse(
    table: Map<u64, Seq<Binding>>,
    first: LayerKind,
    input: Seq<u8>,
) -> Result<Seq<SpecLayer>, PacketError> {
    match spec_parse_partial(table, first, input) {
        Err(e) => Err(e),
        Ok((ls, r)) => if r.len() == 0 {
            Ok(ls)
        } else {
            Err(PacketError::TrailingData(r.len() as usize))
        },
    }
}

/// The bindings of a parser, kept per protocol.
#[verifier::external_body]
pub struct BindingTable {
    map: hashbrown::HashMap<u64, Vec<Binding>>,
}

/// The bindings that a table holds: for each protocol key, the bindings in the order added.
pub uninterp spec fn table_contents(t: BindingTable) -> Map<u64, Seq<Binding>>;

/// `hashbrown::HashMap::new`: an empty map.
#[verifier::external_body]
fn table_new() -> (r: BindingTable)
    ensures
        table_contents(r).is_empty(),
{
    BindingTable { map: hashbrown::HashMap::new() }
}

/// `hashbrown::HashMap::get`: the value under `key`, if any.
#[verifier::external_body]
fn table_get(t: &BindingTable, key: u64) -> (r: Option<&Vec<Binding>>)
    ensures
        match r {
            Some(v) => table_contents(*t).contains_key(key) && table_contents(*t)[key] == v@,
            None => !table_contents(*t).contains_key(key),
        },
{
    t.map.get(&key)
}

/// `hashbrown::HashMap::remove`: take out the value under `key`, if any.
#[verifier::external_body]
fn table_remove(t: &mut BindingTable, key: u64) -> (r: Option<Vec<Binding>>)
    ensures
        table_contents(*final(t)) == table_contents(*old(t)).remove(key),
        match r {
            Some(v) => table_contents(*old(t)).contains_key(key) && table_contents(*old(t))[key]
                == v@,
            None => !table_contents(*old(t)).contains_key(key),
        },
{
    t.map.remove(&key)
}

/// `hashbrown::HashMap::insert`: set the value under `key`.
#[verifier::external_body]
fn table_insert(t: &mut BindingTable, key: u64, v: Vec<Binding>)
    ensures
        table_contents(*final(t)) == table_contents(*old(t)).insert(key, v@),
{
    t.map.insert(key, v);
}

/// `hashbrown::HashMap::len`: the number of keys.
#[verifier::external_body]
fn table_len(t: &BindingTable) -> (r: usize)
    ensures
        r == table_contents(*t).len(),
{
    t.map.len()
}

fn key_of(k: LayerKind) -> (r: u64)
    ensures
        r == kind_key(k),
{
    match k {
        LayerKind::Ether => 0,
        LayerKind::Tcp => 1,
        LayerKind::Raw => 2,
    }
}

/// Parses packets according to layer bindings.
pub struct PacketParser {
    layer_bindings: BindingTable,
}

impl Default for PacketParser {
    /// A packet parser with the default bindings.
    fn default() -> (r: Self)
        ensures
            r.bindings() == default_bindings(),
    {
        PacketParser::new()
    }
}

/// Short name for [`PacketParser`].
pub type Parser = PacketParser;

/// The bindings of a parser built with [`PacketParser::new`]: Ethernet and TCP are followed by a
/// raw payload. Ethernet payloads fall back to raw data because this crate has no IP layer.
pub open spec fn default_bindings() -> Map<u64, Seq<Binding>> {
    Map::<u64, Seq<Binding>>::empty().insert(
        kind_key(LayerKind::Ether),
        seq![Binding { to: LayerKind::Raw, when: BindCondition::Always }],
    ).insert(
        kind_key(LayerKind::Tcp),
        seq![Binding { to: LayerKind::Raw, when: BindCondition::Always }],
    )
}

fn choose_next(bs: &Vec<Binding>, cur: &Layer, rest: &[u8]) -> (r: Option<LayerKind>)
    ensures
        r == next_kind(bs@, cur@, rest@),
{
    let mut i = bs.len();
    assert(bs@.take(i as int) =~= bs@);
    while i > 0
        invariant
            i <= bs@.len(),
            next_kind(bs@, cur@, rest@) == next_kind(bs@.take(i as int), cur@, rest@),
        decreases i,
    {
        let b = bs[i - 1];
        assert(bs@.take(i as int).drop_last() =~= bs@.take(i - 1));
        let holds = match b.when {
            BindCondition::Always => true,
            BindCondition::Never => false,
            BindCondition::SrcPort(p) => match cur {
                Layer::Tcp(t) => t.sport == p,
                _ => false,
            },
            BindCondition::DstPort(p) => match cur {
                Layer::Tcp(t) => t.dport == p,
                _ => false,
            },
            BindCondition::EtherType(e) => match cur {
                Layer::Ether(h) => h.ether_type == e,
                _ => false,
            },
        };
        if holds {
            return Some(b.to);
        }
        i = i - 1;
    }
    None
}

impl PacketParser {
    /// The bindings this parser holds, per protocol key.
    pub closed spec fn bindings(&self) -> Map<u64, Seq<Binding>> {
        table_contents(self.layer_bindings)
    }

    /// Create a packet parser with the default bindings.
    pub fn new() -> (r: Self)
        ensures
            r.bindings() == default_bindings(),
    {
        let mut p = PacketParser::without_bindings();
        p.bind_layer(LayerKind::Ether, BindCondition::Always, LayerKind::Raw);
        p.bind_layer(LayerKind::Tcp, BindCondition::Always, LayerKind::Raw);
        assert(p.bindings() =~= default_bindings());
        p
    }

    /// Create a packet parser without any bindings.
    pub fn without_bindings() -> (r: Self)
        ensures
            r.bindings() == Map::<u64, Seq<Binding>>::empty(),
    {
        PacketParser { layer_bindings: table_new() }
    }

    /// Add a binding from `from` to `to`, taken when `when` holds; chainable. Bindings added
    /// later take precedence over earlier bindings for the same protocol.
    pub fn bind(self, from: LayerKind, to: LayerKind, when: BindCondition) -> (r: Self)
        ensures
            r.bindings() == self.bindings().insert(
                kind_key(from),
                bindings_for(self.bindings(), from).push(Binding { to, when }),
            ),
    {
        let mut p = self;
        p.bind_layer(from, when, to);
        p
    }

    /// Add a binding from `from` to `to`, taken when `when` holds.
    pub fn bind_layer(&mut self, from: LayerKind, when: BindCondition, to: LayerKind)
        ensures
            final(self).bindings() == old(self).bindings().insert(
                kind_key(from),
                bindings_for(old(self).bindings(), from).push(Binding { to, when }),
            ),
    {
        let key = key_of(from);
        let mut list = match table_remove(&mut self.layer_bindings, key) {
            Some(v) => v,
            None => Vec::new(),
        };
        list.push(Binding { to, when });
        table_insert(&mut self.layer_bindings, key, list);
        assert(table_contents(self.layer_bindings) =~= old(self).bindings().insert(
            kind_key(from),
            bindings_for(old(self).bindings(), from).push(Binding { to, when }),
        ));
    }

    /// The number of protocols that have bindings.
    pub fn bound_kind_count(&self) -> (r: usize)
        ensures
            r == self.bindings().len(),
    {
        table_len(&self.layer_bindings)
    }

    /// The number of bindings for protocol `from`.
    pub fn binding_count(&self, from: LayerKind) -> (r: usize)
        ensures
            r == bindings_for(self.bindings(), from).len(),
    {
        match table_get(&self.layer_bindings, key_of(from)) {
            Some(v) => v.len(),
            None => 0,
        }
    }

    /// Parse a complete packet whose first layer has protocol `first`; fails with
    /// [`PacketError::TrailingData`] if bytes remain when parsing stops.
    pub fn parse(&self, first: LayerKind, input: &[u8]) -> (r: Result<Packet, PacketError>)
        ensures
            match r {
                Ok(p) => spec_parse(self.bindings(), first, input@) == Ok::<
                    Seq<SpecLayer>,
                    PacketError,
                >(p@),
                Err(e) => spec_parse(self.bindings(), first, input@) == Err::<
                    Seq<SpecLayer>,
                    PacketError,
                >(e),
            },
    {
        let (rest, packet) = match self.parse_partial(first, input) {
            Ok(v) => v,
            Err(e) => return Err(e),
        };
        if rest.len() == 0 {
            Ok(packet)
        } else {
            Err(PacketError::TrailingData(rest.len()))
        }
    }

    /// Parse a packet whose first layer has protocol `first`, returning the bytes left over.
    pub fn parse_partial<'a>(&self, first: LayerKind, input: &'a [u8]) -> (r: Result<
        (&'a [u8], Packet),
        PacketError,
    >)
        ensures
            match r {
                Ok((rest, p)) => spec_parse_partial(self.bindings(), first, input@) == Ok::<
                    (Seq<SpecLayer>, Seq<u8>),
                    PacketError,
                >((p@, rest@)),
                Err(e) => spec_parse_partial(self.bindings(), first, input@) == Err::<
                    (Seq<SpecLayer>, Seq<u8>),
                    PacketError,
                >(e),
            },
    {
        let ghost table = self.bindings();
        let (mut rest, mut current) = match Layer::parse(first, input) {
            Ok(v) => v,
            Err(e) => return Err(PacketError::Layer(e)),
        };
        let mut layers: Vec<Layer> = Vec::new();
        loop
            invariant
                table == self.bindings(),
                spec_parse_partial(table, first, input@) == match parse_chain(
                    table,
                    current@,
                    rest@,
                ) {
                    Ok((ls, r)) => Ok((layers_view(layers@) + ls, r)),
                    Err(e) => Err::<(Seq<SpecLayer>, Seq<u8>), PacketError>(e),
                },
            ensures
                spec_parse_partial(table, first, input@) == Ok::<
                    (Seq<SpecLayer>, Seq<u8>),
                    PacketError,
                >((layers_view(layers@) + seq![current@], rest@)),
            decreases rest@.len(),
        {
            if rest.len() == 0 {
                assert(parse_chain(table, current@, rest@) == Ok::<
                    (Seq<SpecLayer>, Seq<u8>),
                    PacketError,
                >((seq![current@], rest@)));
                break;
            }
            let next = match table_get(&self.layer_bindings, key_of(current.kind())) {
                Some(bs) => choose_next(bs, &current, rest),
                None => None,
            };
            assert(next == next_kind(bindings_for(table, kind_of(current@)), current@, rest@));
            match next {
                None => {
                    assert(parse_chain(table, current@, rest@) == Ok::<
                        (Seq<SpecLayer>, Seq<u8>),
                        PacketError,
                    >((seq![current@], rest@)));
                    break;
                },
                Some(k) => {
                    let (new_rest, next_layer) = match Layer::parse(k, rest) {
                        Ok(v) => v,
                        Err(e) => return Err(PacketError::Layer(e)),
                    };
                    proof {
                        lemma_layer_parse_progress(k, rest@);
                        let ghost l = next_layer@;
                        match parse_chain(table, next_layer@, new_rest@) {
                            Ok((ls, r)) => {
                                assert(layers_view(layers@.push(current)) =~= layers_view(layers@)
                                    + seq![current@]);
                                assert(layers_view(layers@) + (seq![current@] + ls)
                                    =~= layers_view(layers@.push(current)) + ls);
                            },
                            Err(e) => {},
                        }
                    }
                    rest = new_rest;
                    layers.push(current);
                    current = next_layer;
                },
            }
        }
        let ghost before = layers_view(layers@);
        layers.push(current);
        assert(layers_view(layers@) =~= before + seq![current@]);
        let packet = Packet::from_layers(layers);
        assert(packet@ =~= before + seq![current@]);
        Ok((rest, packet))
    }
}

/// Bindings added later take precedence: a binding whose condition holds, added last, decides
/// the next layer.
pub proof fn lemma_latest_binding_wins(bs: Seq<Binding>, b: Binding, cur: SpecLayer, rest: Seq<u8>)
    requires
        cond_holds(b.when, cur, rest),
    ensures
        next_kind(bs.push(b), cur, rest) == Some(b.to),
{
}

/// A binding whose condition does not hold is passed over.
pub proof fn lemma_failing_binding_ignored(
    bs: Seq<Binding>,
    b: Binding,
    cur: SpecLayer,
    rest: Seq<u8>,
)
    requires
        !cond_holds(b.when, cur, rest),
    ensures
        next_kind(bs.push(b), cur, rest) == next_kind(bs, cur, rest),
{
    assert(bs.push(b).drop_last() =~= bs);
}

/// A layer parsed from the front of `s` serializes to exactly the bytes it was parsed from.
pub proof fn lemma_layer_parse_serialize(k: LayerKind, s: Seq<u8>)
    requires
        spec_layer_parse(k, s) is Ok,
    ensures
        spec_layer_bytes(spec_layer_parse(k, s)->Ok_0.0) == Ok::<Seq<u8>, crate::layer::LayerError>(
            s.take(spec_layer_parse(k, s)->Ok_0.1 as int),
        ),
{
    match k {
        LayerKind::Ether => {
            lemma_ether_parse_serialize(s);
            assert(s.take(14) =~= s.subrange(0, 14));
        },
        LayerKind::Tcp => {
            lemma_tcp_parse_serialize(s);
        },
        LayerKind::Raw => {
            assert(s.take(s.len() as int) =~= s);
        },
    }
}

/// Serializing a layer followed by layers: its bytes, then theirs.
pub proof fn lemma_layers_bytes_prepend(a: SpecLayer, ls: Seq<SpecLayer>)
    requires
        spec_layer_bytes(a) is Ok,
        spec_layers_bytes(ls) is Ok,
    ensures
        spec_layers_bytes(seq![a] + ls) == Ok::<Seq<u8>, crate::layer::LayerError>(
            spec_layer_bytes(a)->Ok_0 + spec_layers_bytes(ls)->Ok_0,
        ),
    decreases ls.len(),
{
    let empty_bytes = spec_layers_bytes(Seq::<SpecLayer>::empty());
    assert(empty_bytes == Ok::<Seq<u8>, crate::layer::LayerError>(Seq::<u8>::empty()));
    if ls.len() == 0 {
        assert(seq![a] + ls =~= seq![a]);
        assert(seq![a].drop_last() =~= Seq::<SpecLayer>::empty());
        assert(spec_layer_bytes(a)->Ok_0 + Seq::<u8>::empty() =~= spec_layer_bytes(a)->Ok_0);
    } else {
        lemma_layers_bytes_prepend(a, ls.drop_last());
        assert((seq![a] + ls).drop_last() =~= seq![a] + ls.drop_last());
        assert((seq![a] + ls).last() == ls.last());
        assert(spec_layer_bytes(a)->Ok_0 + spec_layers_bytes(ls.drop_last())->Ok_0 + spec_layer_bytes(
            ls.last(),
        )->Ok_0 =~= spec_layer_bytes(a)->Ok_0 + spec_layers_bytes(ls)->Ok_0);
    }
}

/// The layers parsed after `cur` serialize, together with `cur`, to `cur`'s bytes followed by
/// the bytes of `rest` that were consumed; what is left over is a suffix of `rest`.
pub proof fn lemma_chain_serialize(
    table: Map<u64, Seq<Binding>>,
    cur: SpecLayer,
    rest: Seq<u8>,
)
    requires
        spec_layer_bytes(cur) is Ok,
        parse_chain(table, cur, rest) is Ok,
    ensures
        ({
            let (ls, r) = parse_chain(table, cur, rest)->Ok_0;
            &&& r.len() <= rest.len()
            &&& r == rest.skip(rest.len() - r.len())
            &&& spec_layers_bytes(ls) == Ok::<Seq<u8>, crate::layer::LayerError>(
                spec_layer_bytes(cur)->Ok_0 + rest.take(rest.len() - r.len()),
            )
        }),
    decreases rest.len(),
{
    let cb = spec_layer_bytes(cur)->Ok_0;
    let single = seq![cur];
    assert(single.drop_last() =~= Seq::<SpecLayer>::empty());
    let empty_bytes = spec_layers_bytes(Seq::<SpecLayer>::empty());
    assert(empty_bytes == Ok::<Seq<u8>, crate::layer::LayerError>(Seq::<u8>::empty()));
    assert(spec_layers_bytes(single) == Ok::<Seq<u8>, crate::layer::LayerError>(
        Seq::<u8>::empty() + cb,
    ));
    assert(Seq::<u8>::empty() + cb =~= cb);
    if rest.len() == 0 {
        assert(rest.take(0) =~= Seq::<u8>::empty());
        assert(cb + rest.take(0) =~= cb);
        assert(rest.skip(0) =~= rest);
    } else {
        match next_kind(bindings_for(table, kind_of(cur)), cur, rest) {
            None => {
                assert(rest.take(0) =~= Seq::<u8>::empty());
                assert(cb + rest.take(0) =~= cb);
                assert(rest.skip(0) =~= rest);
            },
            Some(k) => {
                let (l, n) = spec_layer_parse(k, rest)->Ok_0;
                lemma_layer_parse_progress(k, rest);
                lemma_layer_parse_serialize(k, rest);
                let rest2 = rest.skip(n as int);
                lemma_chain_serialize(table, l, rest2);
                let (ls2, r) = parse_chain(table, l, rest2)->Ok_0;
                lemma_layers_bytes_prepend(cur, ls2);
                let consumed2 = rest2.take(rest2.len() - r.len());
                assert(rest.take(n as int) + consumed2 =~= rest.take(rest.len() - r.len()));
                assert(r =~= rest.skip(rest.len() - r.len()));
                assert(cb + (spec_layer_bytes(l)->Ok_0 + consumed2) =~= cb + rest.take(rest.len()
                    - r.len()));
            },
        }
    }
}

/// Symmetric serialization of a whole packet: the layers parsed from `input` serialize to
/// exactly the bytes they were parsed from, and the bytes left over are the rest of `input`.
pub proof fn lemma_parse_partial_serialize(
    table: Map<u64, Seq<Binding>>,
    first: LayerKind,
    input: Seq<u8>,
)
    requires
        spec_parse_partial(table, first, input) is Ok,
    ensures
        ({
            let (ls, r) = spec_parse_partial(table, first, input)->Ok_0;
            &&& r.len() <= input.len()
            &&& r == input.skip(input.len() - r.len())
            &&& spec_layers_bytes(ls) == Ok::<Seq<u8>, crate::layer::LayerError>(
                input.take(input.len() - r.len()),
            )
        }),
{
    let (l, n) = spec_layer_parse(first, input)->Ok_0;
    lemma_layer_parse_progress(first, input);
    lemma_layer_parse_serialize(first, input);
    let rest = input.skip(n as int);
    lemma_chain_serialize(table, l, rest);
    let (ls, r) = parse_chain(table, l, rest)->Ok_0;
    assert(input.take(n as int) + rest.take(rest.len() - r.len()) =~= input.take(input.len()
        - r.len()));
    assert(r =~= input.skip(input.len() - r.len()));
}

/// Symmetric serialization of a complete parse: the layers of a packet parsed from all of
/// `input` serialize to exactly `input`.
pub proof fn lemma_parse_serialize(table: Map<u64, Seq<Binding>>, first: LayerKind, input: Seq<u8>)
    requires
        spec_parse(table, first, input) is Ok,
    ensures
        spec_layers_bytes(spec_parse(table, first, input)->Ok_0) == Ok::<
            Seq<u8>,
            crate::layer::LayerError,
        >(input),
{
    lemma_parse_partial_serialize(table, first, input);
    assert(input.take(input.len() as int) =~= input);
}

} // verus!
