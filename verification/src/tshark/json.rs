//! JSON values as TShark writes them, and the flat field maps that the comparison works on.
use crate::tshark::fields::ignored_field;
use crate::tshark::fields::is_ignored_tshark_field;
use crate::text::{chars_eq, chars_of};
use vstd::prelude::*;

verus! {

/// A JSON value. Object members are in the order in which they were read.
#[derive(Debug)]
pub enum Json {
    Null,
    Bool(bool),
    /// A number, as JSON text.
    Number(String),
    Str(String),
    Array(Vec<Json>),
    Object(Vec<(String, Json)>),
}

/// The value of one field: the texts TShark gives for it.
pub type FieldValues = Seq<Seq<char>>;

/// A map from field names to their values, kept as the sequence of insertions: a later entry
/// for a name replaces an earlier one.
#[derive(Debug, Clone)]
pub struct FieldMap {
    pub entries: Vec<(String, Vec<String>)>,
}

/// The value of a list of texts.
pub open spec fn texts_view(v: Seq<String>) -> FieldValues {
    v.map_values(|s: String| s@)
}

/// The map that a sequence of insertions builds.
pub open spec fn insertions_map(es: Seq<(String, Vec<String>)>) -> Map<Seq<char>, FieldValues>
    decreases es.len(),
{
    if es.len() == 0 {
        Map::empty()
    } else {
        insertions_map(es.drop_last()).insert(es.last().0@, texts_view(es.last().1@))
    }
}

impl View for FieldMap {
    type V = Map<Seq<char>, FieldValues>;

    open spec fn view(&self) -> Map<Seq<char>, FieldValues> {
        insertions_map(self.entries@)
    }
}

impl FieldMap {
    /// An empty map.
    pub fn new() -> (r: Self)
        ensures
            r@ == Map::<Seq<char>, FieldValues>::empty(),
    {
        FieldMap { entries: Vec::new() }
    }

    /// Set field `name` to `values`.
    pub fn insert(&mut self, name: String, values: Vec<String>)
        ensures
            final(self)@ == old(self)@.insert(name@, texts_view(values@)),
    {
        let ghost before = self.entries@;
        self.entries.push((name, values));
        assert(self.entries@.drop_last() =~= before);
    }
}

/// The text TShark gives for a scalar JSON value: strings as they are, numbers as written,
/// `true`, `false` and `null` as words; arrays and objects have none.
pub open spec fn spec_field_text(v: Json) -> Option<Seq<char>> {
    match v {
        Json::Str(s) => Some(s@),
        Json::Number(n) => Some(n@),
        Json::Bool(b) => Some(if b { "true"@ } else { "false"@ }),
        Json::Null => Some("null"@),
        _ => None,
    }
}

/// The text of a scalar JSON value, or `None` for an array or an object.
pub fn json_field_value(v: &Json) -> (r: Option<String>)
    ensures
        match r {
            Some(s) => spec_field_text(*v) == Some(s@),
            None => spec_field_text(*v) is None,
        },
{
    match v {
        Json::Str(s) => Some(s.clone()),
        Json::Number(n) => Some(n.clone()),
        Json::Bool(b) => Some(if *b { "true".to_owned() } else { "false".to_owned() }),
        Json::Null => Some("null".to_owned()),
        _ => None,
    }
}

/// Why a protocol tree could not be flattened.
#[derive(Debug, Clone, Copy, PartialEq, Eq, Structural)]
pub enum FlattenErrorKind {
    /// A tree that is neither an object nor an array of objects.
    NotAnObject,
    /// A field whose values are not all scalars.
    NotScalar,
}

/// A protocol tree could not be flattened: why, and where the offending value is, as the
/// indexes of object members and array elements that lead to it from the tree.
#[derive(Debug, Clone)]
pub struct FlattenError {
    pub kind: FlattenErrorKind,
    pub path: Vec<usize>,
}

/// The outcome of flattening: the field map, or what failed and where.
pub type FlattenResult = Result<Map<Seq<char>, FieldValues>, (FlattenErrorKind, Seq<usize>)>;

/// Whether every value is an object.
pub open spec fn all_objects(vs: Seq<Json>) -> bool {
    forall|i: int| 0 <= i < vs.len() ==> (#[trigger] vs[i]) is Object
}

/// The texts of scalar values, or the index of the first value that is not a scalar.
pub open spec fn scalar_texts(vs: Seq<Json>) -> Result<FieldValues, usize>
    decreases vs.len(),
{
    if vs.len() == 0 {
        Ok(Seq::empty())
    } else {
        match scalar_texts(vs.drop_last()) {
            Err(j) => Err(j),
            Ok(ts) => match spec_field_text(vs.last()) {
                None => Err((vs.len() - 1) as usize),
                Some(t) => Ok(ts.push(t)),
            },
        }
    }
}

/// An error found under index `i` is found at `i` followed by its path.
pub open spec fn under(i: usize, r: FlattenResult) -> FlattenResult {
    match r {
        Err((k, p)) => Err((k, seq![i] + p)),
        Ok(m) => Ok(m),
    }
}

/// Flatten a protocol tree into `m`: an object's fields go in member by member; an array of
/// objects goes in object by object; anything else is refused.
pub open spec fn tree_flatten(v: Json, m: Map<Seq<char>, FieldValues>) -> FlattenResult
    decreases v,
{
    match v {
        Json::Object(ms) => {
            proof {
                assert(decreases_to!(v => ms));
            }
            members_flatten(ms@, m)
        },
        Json::Array(vs) => if all_objects(vs@) {
            proof {
                assert(decreases_to!(v => vs));
            }
            elements_flatten(vs@, m)
        } else {
            Err((FlattenErrorKind::NotAnObject, Seq::empty()))
        },
        _ => Err((FlattenErrorKind::NotAnObject, Seq::empty())),
    }
}

/// Flatten the members of an object in order. A member whose name is ignored is skipped; an
/// object is flattened; an array of objects is flattened object by object; an array of
/// scalars sets the field to their texts; a scalar sets the field to its text.
pub open spec fn members_flatten(ms: Seq<(String, Json)>, m: Map<Seq<char>, FieldValues>) -> FlattenResult
    decreases ms,
{
    if ms.len() == 0 {
        Ok(m)
    } else {
        match members_flatten(ms.drop_last(), m) {
            Err(e) => Err(e),
            Ok(m2) => {
                let i = (ms.len() - 1) as usize;
                let name = ms.last().0;
                let v = ms.last().1;
                if ignored_field(name@) {
                    Ok(m2)
                } else {
                    match v {
                        Json::Object(_) => under(i, tree_flatten(v, m2)),
                        Json::Array(vs) => if all_objects(vs@) {
                            under(i, elements_flatten(vs@, m2))
                        } else {
                            match scalar_texts(vs@) {
                                Err(j) => Err((FlattenErrorKind::NotScalar, seq![i, j])),
                                Ok(ts) => Ok(m2.insert(name@, ts)),
                            }
                        },
                        _ => Ok(m2.insert(name@, seq![spec_field_text(v)->Some_0])),
                    }
                }
            },
        }
    }
}

/// Flatten the elements of an array, each a protocol tree, in order.
pub open spec fn elements_flatten(vs: Seq<Json>, m: Map<Seq<char>, FieldValues>) -> FlattenResult
    decreases vs,
{
    if vs.len() == 0 {
        Ok(m)
    } else {
        match elements_flatten(vs.drop_last(), m) {
            Err(e) => Err(e),
            Ok(m2) => under((vs.len() - 1) as usize, tree_flatten(vs.last(), m2)),
        }
    }
}

/// Whether an exec outcome of flattening agrees with the specified one; on failure the
/// fields may hold what was put in before the failure.
pub open spec fn flatten_agrees(
    spec: FlattenResult,
    r: Result<(), FlattenError>,
    fields: Map<Seq<char>, FieldValues>,
) -> bool {
    match spec {
        Ok(m) => r is Ok && fields == m,
        Err((k, p)) => r matches Err(e) && e.kind == k && e.path@ == p,
    }
}

proof fn lemma_members_error(ms: Seq<(String, Json)>, k: int, m: Map<Seq<char>, FieldValues>)
    requires
        0 <= k <= ms.len(),
        members_flatten(ms.take(k), m) is Err,
    ensures
        members_flatten(ms, m) == members_flatten(ms.take(k), m),
    decreases ms.len() - k,
{
    if k < ms.len() {
        assert(ms.take(k + 1).drop_last() =~= ms.take(k));
        lemma_members_error(ms, k + 1, m);
    } else {
        assert(ms.take(k) =~= ms);
    }
}

proof fn lemma_elements_error(vs: Seq<Json>, k: int, m: Map<Seq<char>, FieldValues>)
    requires
        0 <= k <= vs.len(),
        elements_flatten(vs.take(k), m) is Err,
    ensures
        elements_flatten(vs, m) == elements_flatten(vs.take(k), m),
    decreases vs.len() - k,
{
    if k < vs.len() {
        assert(vs.take(k + 1).drop_last() =~= vs.take(k));
        lemma_elements_error(vs, k + 1, m);
    } else {
        assert(vs.take(k) =~= vs);
    }
}

proof fn lemma_scalars_error(vs: Seq<Json>, k: int)
    requires
        0 <= k <= vs.len(),
        scalar_texts(vs.take(k)) is Err,
    ensures
        scalar_texts(vs) == scalar_texts(vs.take(k)),
    decreases vs.len() - k,
{
    if k < vs.len() {
        assert(vs.take(k + 1).drop_last() =~= vs.take(k));
        lemma_scalars_error(vs, k + 1);
    } else {
        assert(vs.take(k) =~= vs);
    }
}

fn is_object(v: &Json) -> (r: bool)
    ensures
        r == (*v is Object),
{
    match v {
        Json::Object(_) => true,
        _ => false,
    }
}

fn are_all_objects(vs: &Vec<Json>) -> (r: bool)
    ensures
        r == all_objects(vs@),
{
    let mut i: usize = 0;
    while i < vs.len()
        invariant
            i <= vs@.len(),
            forall|j: int| 0 <= j < i ==> (#[trigger] vs@[j]) is Object,
        decreases vs@.len() - i,
    {
        if !is_object(&vs[i]) {
            return false;
        }
        i = i + 1;
    }
    true
}

fn texts_of(vs: &Vec<Json>) -> (r: Result<Vec<String>, usize>)
    ensures
        match r {
            Ok(ts) => scalar_texts(vs@) == Ok::<FieldValues, usize>(texts_view(ts@)),
            Err(j) => scalar_texts(vs@) == Err::<FieldValues, usize>(j),
        },
{
    let mut out: Vec<String> = Vec::new();
    let mut i: usize = 0;
    assert(vs@.take(0) =~= Seq::<Json>::empty());
    assert(texts_view(out@) =~= Seq::<Seq<char>>::empty());
    while i < vs.len()
        invariant
            i <= vs@.len(),
            scalar_texts(vs@.take(i as int)) == Ok::<FieldValues, usize>(texts_view(out@)),
        decreases vs@.len() - i,
    {
        proof {
            assert(vs@.take(i + 1).drop_last() =~= vs@.take(i as int));
        }
        match json_field_value(&vs[i]) {
            None => {
                proof {
                    lemma_scalars_error(vs@, i + 1);
                }
                return Err(i);
            },
            Some(t) => {
                let ghost prev = out@;
                out.push(t);
                assert(texts_view(out@) =~= texts_view(prev).push(t@));
            },
        }
        i = i + 1;
    }
    assert(vs@.take(vs@.len() as int) =~= vs@);
    Ok(out)
}

fn error_under(i: usize, e: FlattenError) -> (r: FlattenError)
    ensures
        r.kind == e.kind,
        r.path@ == seq![i] + e.path@,
{
    let mut path = vec![i];
    let mut rest = e.path;
    path.append(&mut rest);
    FlattenError { kind: e.kind, path }
}

/// Flatten a protocol tree into `fields`: the fields of an object, or of each object of an
/// array of objects; anything else is refused.
pub fn flatten_tshark_fields(v: &Json, fields: &mut FieldMap) -> (r: Result<(), FlattenError>)
    ensures
        flatten_agrees(tree_flatten(*v, old(fields)@), r, final(fields)@),
    decreases *v,
{
    match v {
        Json::Object(ms) => flatten_members(ms, fields),
        Json::Array(vs) => {
            if are_all_objects(vs) {
                flatten_elements(vs, fields)
            } else {
                Err(FlattenError { kind: FlattenErrorKind::NotAnObject, path: Vec::new() })
            }
        },
        _ => Err(FlattenError { kind: FlattenErrorKind::NotAnObject, path: Vec::new() }),
    }
}

fn flatten_members(ms: &Vec<(String, Json)>, fields: &mut FieldMap) -> (r: Result<(), FlattenError>)
    ensures
        flatten_agrees(members_flatten(ms@, old(fields)@), r, final(fields)@),
    decreases *ms,
{
    let ghost m0 = fields@;
    let mut i: usize = 0;
    while i < ms.len()
        invariant
            i <= ms@.len(),
            m0 == old(fields)@,
            members_flatten(ms@.take(i as int), m0) == FlattenResult::Ok(fields@),
        decreases ms@.len() - i,
    {
        proof {
            assert(ms@.take(i + 1).drop_last() =~= ms@.take(i as int));
            assert(ms@.take(i + 1).last() == ms@[i as int]);
        }
        let ghost m2 = fields@;
        let name = &ms[i].0;
        let v = &ms[i].1;
        let ghost step = members_flatten(ms@.take(i + 1), m0);
        assert(step == if ignored_field(name@) {
            FlattenResult::Ok(m2)
        } else {
            match *v {
                Json::Object(_) => under(i, tree_flatten(*v, m2)),
                Json::Array(vs) => if all_objects(vs@) {
                    under(i, elements_flatten(vs@, m2))
                } else {
                    match scalar_texts(vs@) {
                        Err(j) => Err((FlattenErrorKind::NotScalar, seq![i, j])),
                        Ok(ts) => Ok(m2.insert(name@, ts)),
                    }
                },
                _ => Ok(m2.insert(name@, seq![spec_field_text(*v)->Some_0])),
            }
        });
        if !is_ignored_tshark_field(name.as_str()) {
            match v {
                Json::Object(_) => {
                    proof {
                        assert(decreases_to!(*ms => ms@[i as int]));
                    }
                    match flatten_tshark_fields(v, fields) {
                        Ok(()) => {},
                        Err(e) => {
                            let e2 = error_under(i, e);
                            proof {
                                lemma_members_error(ms@, i + 1, m0);
                            }
                            return Err(e2);
                        },
                    }
                },
                Json::Array(vs) => {
                    if are_all_objects(vs) {
                        proof {
                            assert(decreases_to!(*ms => ms@[i as int]));
                        }
                        match flatten_elements(vs, fields) {
                            Ok(()) => {},
                            Err(e) => {
                                let e2 = error_under(i, e);
                                proof {
                                    lemma_members_error(ms@, i + 1, m0);
                                }
                                return Err(e2);
                            },
                        }
                    } else {
                        match texts_of(vs) {
                            Err(j) => {
                                proof {
                                    lemma_members_error(ms@, i + 1, m0);
                                }
                                return Err(
                                    FlattenError { kind: FlattenErrorKind::NotScalar, path: vec![i, j] },
                                );
                            },
                            Ok(ts) => {
                                fields.insert(name.clone(), ts);
                                assert(step == FlattenResult::Ok(fields@));
                            },
                        }
                    }
                },
                _ => {
                    let t = match json_field_value(v) {
                        Some(t) => t,
                        None => {
                            assert(false);
                            String::new()
                        },
                    };
                    let one = vec![t];
                    assert(one@ =~= seq![t]);
                    assert(texts_view(one@) =~= seq![t@]);
                    fields.insert(name.clone(), one);
                    assert(step == FlattenResult::Ok(fields@));
                },
            }
        }
        i = i + 1;
    }
    assert(ms@.take(ms@.len() as int) =~= ms@);
    Ok(())
}

fn flatten_elements(vs: &Vec<Json>, fields: &mut FieldMap) -> (r: Result<(), FlattenError>)
    ensures
        flatten_agrees(elements_flatten(vs@, old(fields)@), r, final(fields)@),
    decreases *vs,
{
    let ghost m0 = fields@;
    let mut i: usize = 0;
    while i < vs.len()
        invariant
            i <= vs@.len(),
            m0 == old(fields)@,
            elements_flatten(vs@.take(i as int), m0) == FlattenResult::Ok(fields@),
        decreases vs@.len() - i,
    {
        proof {
            assert(vs@.take(i + 1).drop_last() =~= vs@.take(i as int));
            assert(vs@.take(i + 1).last() == vs@[i as int]);
            assert(decreases_to!(*vs => vs@[i as int]));
        }
        match flatten_tshark_fields(&vs[i], fields) {
            Ok(()) => {},
            Err(e) => {
                let e2 = error_under(i, e);
                proof {
                    lemma_elements_error(vs@, i + 1, m0);
                }
                return Err(e2);
            },
        }
        i = i + 1;
    }
    assert(vs@.take(vs@.len() as int) =~= vs@);
    Ok(())
}

/// The protocol trees of TShark's output that are compared: those of the protocols that
/// parsed packets describe.
pub open spec fn compared_layers() -> Seq<&'static str> {
    seq!["frame", "eth", "ip", "ipv6", "tcp", "udp", "icmp"]
}

/// Whether the protocol tree named `name` is compared.
pub open spec fn is_compared_layer(name: Seq<char>) -> bool {
    exists|i: int| 0 <= i < compared_layers().len() && (#[trigger] compared_layers()[i])@ == name
}

/// The protocol trees compared are exactly those of the frame, Ethernet, IPv4, IPv6, TCP, UDP
/// and ICMP; the fields of any other tree are left out.
pub proof fn lemma_compared_layers(name: Seq<char>)
    ensures
        is_compared_layer(name) <==> (name == "frame"@ || name == "eth"@ || name == "ip"@ || name
            == "ipv6"@ || name == "tcp"@ || name == "udp"@ || name == "icmp"@),
{
    let c = compared_layers();
    assert(c[0] == "frame" && c[1] == "eth" && c[2] == "ip" && c[3] == "ipv6");
    assert(c[4] == "tcp" && c[5] == "udp" && c[6] == "icmp" && c.len() == 7);
}

/// The value of the first member named `key`.
pub open spec fn first_member(ms: Seq<(String, Json)>, key: Seq<char>) -> Option<Json>
    decreases ms.len(),
{
    if ms.len() == 0 {
        None
    } else if ms[0].0@ == key {
        Some(ms[0].1)
    } else {
        first_member(ms.drop_first(), key)
    }
}

/// The member `key` of an object; nothing for other values.
pub open spec fn member(v: Json, key: Seq<char>) -> Option<Json> {
    match v {
        Json::Object(ms) => first_member(ms@, key),
        _ => None,
    }
}

/// The protocol trees of a packet of TShark's output: the members of its `_source.layers`
/// object.
pub open spec fn packet_layers(p: Json) -> Option<Seq<(String, Json)>> {
    match member(p, "_source"@) {
        Some(source) => match member(source, "layers"@) {
            Some(Json::Object(ls)) => Some(ls@),
            _ => None,
        },
        None => None,
    }
}

/// Flatten the compared protocol trees of a packet, in order: the fields, or the index of the
/// tree that failed with why and where.
pub open spec fn layers_flatten(ls: Seq<(String, Json)>, m: Map<Seq<char>, FieldValues>) -> Result<
    Map<Seq<char>, FieldValues>,
    (usize, FlattenErrorKind, Seq<usize>),
>
    decreases ls.len(),
{
    if ls.len() == 0 {
        Ok(m)
    } else {
        match layers_flatten(ls.drop_last(), m) {
            Err(e) => Err(e),
            Ok(m2) => if is_compared_layer(ls.last().0@) {
                match tree_flatten(ls.last().1, m2) {
                    Err((k, p)) => Err(((ls.len() - 1) as usize, k, p)),
                    Ok(m3) => Ok(m3),
                }
            } else {
                Ok(m2)
            },
        }
    }
}

/// Why TShark's JSON output could not be brought to field maps.
#[derive(Debug, Clone)]
pub enum NormalizeError {
    /// The document is not an array of packets.
    RootNotArray,
    /// A packet, counted from one, has no `_source.layers` object.
    NoLayers(usize),
    /// A protocol tree could not be flattened: the packet (counted from one), the index of the
    /// tree among the packet's layers, and the failure within the tree.
    Flatten { packet: usize, layer: usize, error: FlattenError },
}

/// The mathematical value of a [`NormalizeError`].
pub enum SpecNormalizeError {
    RootNotArray,
    NoLayers(usize),
    Flatten(usize, usize, FlattenErrorKind, Seq<usize>),
}

impl View for NormalizeError {
    type V = SpecNormalizeError;

    open spec fn view(&self) -> SpecNormalizeError {
        match self {
            NormalizeError::RootNotArray => SpecNormalizeError::RootNotArray,
            NormalizeError::NoLayers(n) => SpecNormalizeError::NoLayers(*n),
            NormalizeError::Flatten { packet, layer, error } => SpecNormalizeError::Flatten(
                *packet,
                *layer,
                error.kind,
                error.path@,
            ),
        }
    }
}

/// The field maps of the packets, in order.
pub open spec fn packets_normalize(ps: Seq<Json>) -> Result<
    Seq<Map<Seq<char>, FieldValues>>,
    SpecNormalizeError,
>
    decreases ps.len(),
{
    if ps.len() == 0 {
        Ok(Seq::empty())
    } else {
        match packets_normalize(ps.drop_last()) {
            Err(e) => Err(e),
            Ok(ms) => match packet_layers(ps.last()) {
                None => Err(SpecNormalizeError::NoLayers(ps.len() as usize)),
                Some(ls) => match layers_flatten(ls, Map::empty()) {
                    Err((l, k, p)) => Err(SpecNormalizeError::Flatten(ps.len() as usize, l, k, p)),
                    Ok(m) => Ok(ms.push(m)),
                },
            },
        }
    }
}

/// TShark's JSON output as one field map per packet: the fields of the compared protocol trees
/// of each packet, flattened.
pub open spec fn spec_normalize(v: Json) -> Result<Seq<Map<Seq<char>, FieldValues>>, SpecNormalizeError> {
    match v {
        Json::Array(ps) => packets_normalize(ps@),
        _ => Err(SpecNormalizeError::RootNotArray),
    }
}

/// The views of field maps.
pub open spec fn field_maps_view(fs: Seq<FieldMap>) -> Seq<Map<Seq<char>, FieldValues>> {
    fs.map_values(|f: FieldMap| f@)
}

fn find_member<'a>(ms: &'a Vec<(String, Json)>, key: &str) -> (r: Option<&'a Json>)
    ensures
        match r {
            Some(x) => first_member(ms@, key@) == Some(*x),
            None => first_member(ms@, key@) is None,
        },
{
    let k = chars_of(key);
    let mut i: usize = 0;
    assert(ms@.subrange(0, ms@.len() as int) =~= ms@);
    while i < ms.len()
        invariant
            i <= ms@.len(),
            k@ == key@,
            first_member(ms@, key@) == first_member(ms@.subrange(i as int, ms@.len() as int), key@),
        decreases ms@.len() - i,
    {
        let ghost rest = ms@.subrange(i as int, ms@.len() as int);
        assert(rest.drop_first() =~= ms@.subrange(i + 1, ms@.len() as int));
        assert(rest[0] == ms@[i as int]);
        let name = chars_of(ms[i].0.as_str());
        if chars_eq(&name, &k) {
            return Some(&ms[i].1);
        }
        i = i + 1;
    }
    None
}

fn find_in<'a>(v: &'a Json, key: &str) -> (r: Option<&'a Json>)
    ensures
        match r {
            Some(x) => member(*v, key@) == Some(*x),
            None => member(*v, key@) is None,
        },
{
    match v {
        Json::Object(ms) => find_member(ms, key),
        _ => None,
    }
}

fn layers_of(p: &Json) -> (r: Option<&Vec<(String, Json)>>)
    ensures
        match r {
            Some(ls) => packet_layers(*p) == Some(ls@),
            None => packet_layers(*p) is None,
        },
{
    match find_in(p, "_source") {
        None => None,
        Some(source) => match find_in(source, "layers") {
            Some(Json::Object(ls)) => Some(ls),
            _ => None,
        },
    }
}

fn compared_layer(name: &str) -> (r: bool)
    ensures
        r == is_compared_layer(name@),
{
    let names = vec!["frame", "eth", "ip", "ipv6", "tcp", "udp", "icmp"];
    assert(names@ =~= compared_layers());
    let n = chars_of(name);
    let mut i: usize = 0;
    while i < names.len()
        invariant
            names@ == compared_layers(),
            n@ == name@,
            i <= names@.len(),
            forall|j: int| 0 <= j < i ==> (#[trigger] names@[j])@ != name@,
        decreases names@.len() - i,
    {
        let c = chars_of(names[i]);
        if chars_eq(&c, &n) {
            return true;
        }
        i = i + 1;
    }
    false
}

proof fn lemma_layers_error(ls: Seq<(String, Json)>, k: int, m: Map<Seq<char>, FieldValues>)
    requires
        0 <= k <= ls.len(),
        layers_flatten(ls.take(k), m) is Err,
    ensures
        layers_flatten(ls, m) == layers_flatten(ls.take(k), m),
    decreases ls.len() - k,
{
    if k < ls.len() {
        assert(ls.take(k + 1).drop_last() =~= ls.take(k));
        lemma_layers_error(ls, k + 1, m);
    } else {
        assert(ls.take(k) =~= ls);
    }
}

proof fn lemma_packets_error(ps: Seq<Json>, k: int)
    requires
        0 <= k <= ps.len(),
        packets_normalize(ps.take(k)) is Err,
    ensures
        packets_normalize(ps) == packets_normalize(ps.take(k)),
    decreases ps.len() - k,
{
    if k < ps.len() {
        assert(ps.take(k + 1).drop_last() =~= ps.take(k));
        lemma_packets_error(ps, k + 1);
    } else {
        assert(ps.take(k) =~= ps);
    }
}

/// Bring TShark's JSON output to one field map per packet: the fields of the compared protocol
/// trees under each packet's `_source.layers`, flattened.
pub fn normalize_tshark_json(v: &Json) -> (r: Result<Vec<FieldMap>, NormalizeError>)
    ensures
        match r {
            Ok(fs) => spec_normalize(*v) == Ok::<
                Seq<Map<Seq<char>, FieldValues>>,
                SpecNormalizeError,
            >(field_maps_view(fs@)),
            Err(e) => spec_normalize(*v) == Err::<
                Seq<Map<Seq<char>, FieldValues>>,
                SpecNormalizeError,
            >(e@),
        },
{
    let packets = match v {
        Json::Array(ps) => ps,
        _ => return Err(NormalizeError::RootNotArray),
    };
    let mut out: Vec<FieldMap> = Vec::new();
    let mut i: usize = 0;
    assert(packets@.take(0) =~= Seq::<Json>::empty());
    assert(field_maps_view(out@) =~= Seq::<Map<Seq<char>, FieldValues>>::empty());
    assert(spec_normalize(*v) == packets_normalize(packets@));
    while i < packets.len()
        invariant
            i <= packets@.len(),
            spec_normalize(*v) == packets_normalize(packets@),
            packets_normalize(packets@.take(i as int)) == Ok::<
                Seq<Map<Seq<char>, FieldValues>>,
                SpecNormalizeError,
            >(field_maps_view(out@)),
        decreases packets@.len() - i,
    {
        proof {
            assert(packets@.take(i + 1).drop_last() =~= packets@.take(i as int));
            assert(packets@.take(i + 1).last() == packets@[i as int]);
        }
        let number = i + 1;
        let layers = match layers_of(&packets[i]) {
            Some(ls) => ls,
            None => {
                proof {
                    lemma_packets_error(packets@, i + 1);
                }
                return Err(NormalizeError::NoLayers(number));
            },
        };
        let mut fields = FieldMap::new();
        let mut k: usize = 0;
        assert(layers@.take(0) =~= Seq::<(String, Json)>::empty());
        while k < layers.len()
            invariant
                i < packets@.len(),
                number == i + 1,
                spec_normalize(*v) == packets_normalize(packets@),
                packets_normalize(packets@.take(i as int)) == Ok::<
                    Seq<Map<Seq<char>, FieldValues>>,
                    SpecNormalizeError,
                >(field_maps_view(out@)),
                packets@.take(i + 1).drop_last() == packets@.take(i as int),
                packets@.take(i + 1).last() == packets@[i as int],
                packet_layers(packets@[i as int]) == Some(layers@),
                k <= layers@.len(),
                layers_flatten(layers@.take(k as int), Map::empty()) == Ok::<
                    Map<Seq<char>, FieldValues>,
                    (usize, FlattenErrorKind, Seq<usize>),
                >(fields@),
            decreases layers@.len() - k,
        {
            proof {
                assert(layers@.take(k + 1).drop_last() =~= layers@.take(k as int));
                assert(layers@.take(k + 1).last() == layers@[k as int]);
            }
            if compared_layer(layers[k].0.as_str()) {
                match flatten_tshark_fields(&layers[k].1, &mut fields) {
                    Ok(()) => {},
                    Err(error) => {
                        proof {
                            lemma_layers_error(layers@, k + 1, Map::empty());
                        }
                        let e = NormalizeError::Flatten { packet: number, layer: k, error };
                        proof {
                            lemma_packets_error(packets@, i + 1);
                        }
                        return Err(e);
                    },
                }
            }
            k = k + 1;
        }
        assert(layers@.take(layers@.len() as int) =~= layers@);
        let ghost prev = out@;
        out.push(fields);
        assert(field_maps_view(out@) =~= field_maps_view(prev).push(fields@));
        i = i + 1;
    }
    assert(packets@.take(packets@.len() as int) =~= packets@);
    Ok(out)
}

/// A JSON document as `serde_json` represents it.
#[verifier::external_type_specification]
#[verifier::external_body]
pub struct ExJsonValue(serde_json::Value);

/// The JSON document that bytes hold, as `serde_json::from_slice` reads it, if they hold one.
pub uninterp spec fn json_of_bytes(b: Seq<u8>) -> Option<Json>;

/// A `serde_json::Value` as a [`Json`], member for member and element for element; numbers
/// keep their JSON text.
#[verifier::external_body]
fn json_from_value(v: &serde_json::Value) -> Json {
    match v {
        serde_json::Value::Null => Json::Null,
        serde_json::Value::Bool(b) => Json::Bool(*b),
        serde_json::Value::Number(n) => Json::Number(n.to_string()),
        serde_json::Value::String(t) => Json::Str(t.clone()),
        serde_json::Value::Array(vs) => Json::Array(vs.iter().map(json_from_value).collect()),
        serde_json::Value::Object(ms) => Json::Object(
            ms.iter().map(|(k, v)| (k.clone(), json_from_value(v))).collect(),
        ),
    }
}

/// `serde_json::from_slice`: the JSON document that `b` holds, or `None` when it holds none.
/// The claim is only that the result is a function of the bytes, named [`json_of_bytes`].
#[verifier::external_body]
fn parse_json_bytes(b: &[u8]) -> (r: Option<Json>)
    ensures
        r == json_of_bytes(b@),
{
    match serde_json::from_slice::<serde_json::Value>(b) {
        Ok(v) => Some(json_from_value(&v)),
        Err(_) => None,
    }
}

/// Why TShark's output could not be brought to field maps.
#[derive(Debug, Clone)]
pub enum TsharkOutputError {
    /// The output is not a JSON document.
    Json,
    /// The document is not in TShark's shape.
    Normalize(NormalizeError),
}

/// TShark's JSON output, as bytes, brought to one field map per packet.
pub fn normalize_tshark_output(b: &[u8]) -> (r: Result<Vec<FieldMap>, TsharkOutputError>)
    ensures
        match json_of_bytes(b@) {
            None => r matches Err(TsharkOutputError::Json),
            Some(v) => match r {
                Ok(fs) => spec_normalize(v) == Ok::<
                    Seq<Map<Seq<char>, FieldValues>>,
                    SpecNormalizeError,
                >(field_maps_view(fs@)),
                Err(TsharkOutputError::Normalize(e)) => spec_normalize(v) == Err::<
                    Seq<Map<Seq<char>, FieldValues>>,
                    SpecNormalizeError,
                >(e@),
                Err(TsharkOutputError::Json) => false,
            },
        },
{
    match parse_json_bytes(b) {
        None => Err(TsharkOutputError::Json),
        Some(v) => match normalize_tshark_json(&v) {
            Ok(fs) => Ok(fs),
            Err(e) => Err(TsharkOutputError::Normalize(e)),
        },
    }
}

} // verus!
