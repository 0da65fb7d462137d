//! The differences between two renderings of a capture as field maps.
use crate::text::{
    chars_eq, chars_lt, chars_of, lemma_text_lt_irreflexive, lemma_text_lt_total,
    lemma_text_lt_transitive, text_lt,
};
use crate::tshark::json::{insertions_map, texts_view, FieldMap, FieldValues};
use vstd::prelude::*;

verus! {

/// A field whose values differ between the two sides: its name and its values on each side,
/// if it has any.
#[derive(Debug, Clone)]
pub struct FieldDifference {
    pub field: String,
    pub nata: Option<Vec<String>>,
    pub tshark: Option<Vec<String>>,
}

/// The value of a field on one side, if the side has the field.
pub open spec fn field_value(m: Map<Seq<char>, FieldValues>, k: Seq<char>) -> Option<FieldValues> {
    if m.contains_key(k) {
        Some(m[k])
    } else {
        None
    }
}

/// The fields on which two field maps differ, with the values on each side.
pub open spec fn field_differences(a: Map<Seq<char>, FieldValues>, b: Map<Seq<char>, FieldValues>) -> Map<
    Seq<char>,
    (Option<FieldValues>, Option<FieldValues>),
> {
    Map::new(
        |k: Seq<char>| field_value(a, k) != field_value(b, k),
        |k: Seq<char>| (field_value(a, k), field_value(b, k)),
    )
}

/// The value of optional texts.
pub open spec fn opt_texts_view(o: Option<Vec<String>>) -> Option<FieldValues> {
    match o {
        Some(v) => Some(texts_view(v@)),
        None => None,
    }
}

/// The map of field differences that a list of them records; a later record for a field
/// replaces an earlier one.
pub open spec fn differences_map(ds: Seq<FieldDifference>) -> Map<
    Seq<char>,
    (Option<FieldValues>, Option<FieldValues>),
>
    decreases ds.len(),
{
    if ds.len() == 0 {
        Map::empty()
    } else {
        differences_map(ds.drop_last()).insert(
            ds.last().field@,
            (opt_texts_view(ds.last().nata), opt_texts_view(ds.last().tshark)),
        )
    }
}

/// The last insertion of `k` among the first `j` entries decides its value.
proof fn lemma_insertions_tail(es: Seq<(String, Vec<String>)>, j: int, k: Seq<char>)
    requires
        0 <= j <= es.len(),
        forall|i: int| j <= i < es.len() ==> (#[trigger] es[i]).0@ != k,
    ensures
        insertions_map(es).contains_key(k) == insertions_map(es.take(j)).contains_key(k),
        insertions_map(es).contains_key(k) ==> insertions_map(es)[k] == insertions_map(
            es.take(j),
        )[k],
    decreases es.len() - j,
{
    if j < es.len() {
        assert(es.drop_last().take(j) =~= es.take(j));
        assert forall|i: int| j <= i < es.drop_last().len() implies (
        #[trigger] es.drop_last()[i]).0@ != k by {
            assert(es.drop_last()[i] == es[i]);
        }
        lemma_insertions_tail(es.drop_last(), j, k);
        assert(es[es.len() - 1].0@ != k);
    } else {
        assert(es.take(j) =~= es);
    }
}

fn texts_eq(a: &Vec<String>, b: &Vec<String>) -> (r: bool)
    ensures
        r == (texts_view(a@) == texts_view(b@)),
{
    if a.len() != b.len() {
        assert(texts_view(a@).len() != texts_view(b@).len());
        return false;
    }
    let mut i: usize = 0;
    while i < a.len()
        invariant
            a@.len() == b@.len(),
            i <= a@.len(),
            forall|j: int| 0 <= j < i ==> a@[j]@ == b@[j]@,
        decreases a@.len() - i,
    {
        if a[i] != b[i] {
            assert(texts_view(a@)[i as int] != texts_view(b@)[i as int]);
            return false;
        }
        i = i + 1;
    }
    assert(texts_view(a@) =~= texts_view(b@));
    true
}

/// The values of field `name` in `f`, if it has the field.
fn lookup<'a>(f: &'a FieldMap, name: &String) -> (r: Option<&'a Vec<String>>)
    ensures
        opt_texts_view(
            match r {
                Some(v) => Some(*v),
                None => None,
            },
        ) == field_value(f@, name@),
{
    let mut j: usize = f.entries.len();
    while j > 0
        invariant
            j <= f.entries@.len(),
            forall|i: int| j <= i < f.entries@.len() ==> (#[trigger] f.entries@[i]).0@ != name@,
        decreases j,
    {
        if f.entries[j - 1].0 == *name {
            proof {
                lemma_insertions_tail(f.entries@, j as int, name@);
                assert(f.entries@.take(j as int).drop_last() =~= f.entries@.take(j - 1));
                assert(f.entries@.take(j as int).last() == f.entries@[j - 1]);
            }
            return Some(&f.entries[j - 1].1);
        }
        j = j - 1;
    }
    proof {
        lemma_insertions_tail(f.entries@, 0, name@);
        assert(f.entries@.take(0) =~= Seq::<(String, Vec<String>)>::empty());
    }
    None
}

fn copy_texts(o: Option<&Vec<String>>) -> (r: Option<Vec<String>>)
    ensures
        opt_texts_view(r) == opt_texts_view(
            match o {
                Some(v) => Some(*v),
                None => None,
            },
        ),
{
    match o {
        None => None,
        Some(v) => {
            let mut out: Vec<String> = Vec::new();
            let mut i: usize = 0;
            while i < v.len()
                invariant
                    i <= v@.len(),
                    texts_view(out@) == texts_view(v@).take(i as int),
                decreases v@.len() - i,
            {
                let ghost prev = out@;
                out.push(v[i].clone());
                assert(texts_view(out@) =~= texts_view(prev).push(v@[i as int]@));
                i = i + 1;
                assert(texts_view(out@) =~= texts_view(v@).take(i as int));
            }
            assert(texts_view(v@).take(v@.len() as int) =~= texts_view(v@));
            Some(out)
        },
    }
}

fn values_differ(a: Option<&Vec<String>>, b: Option<&Vec<String>>) -> (r: bool)
    ensures
        r == (opt_texts_view(
            match a {
                Some(v) => Some(*v),
                None => None,
            },
        ) != opt_texts_view(
            match b {
                Some(v) => Some(*v),
                None => None,
            },
        )),
{
    match (a, b) {
        (None, None) => false,
        (Some(x), Some(y)) => !texts_eq(x, y),
        _ => true,
    }
}

/// The records are in strictly increasing order of field name, so each field is listed once.
pub open spec fn fields_sorted(ds: Seq<FieldDifference>) -> bool {
    forall|i: int, j: int|
        0 <= i < j < ds.len() ==> text_lt(#[trigger] ds[i].field@, #[trigger] ds[j].field@)
}

/// The values on each side that a record gives.
pub open spec fn record_entry(d: FieldDifference) -> (Option<FieldValues>, Option<FieldValues>) {
    (opt_texts_view(d.nata), opt_texts_view(d.tshark))
}

/// Whether some record is about field `k`.
pub open spec fn has_field(ds: Seq<FieldDifference>, k: Seq<char>) -> bool {
    exists|m: int| 0 <= m < ds.len() && (#[trigger] ds[m]).field@ == k
}

/// Every record agrees with the map of differences `target`.
pub open spec fn records_agree(
    ds: Seq<FieldDifference>,
    target: Map<Seq<char>, (Option<FieldValues>, Option<FieldValues>)>,
) -> bool {
    forall|m: int|
        0 <= m < ds.len() ==> target.contains_key((#[trigger] ds[m]).field@) && record_entry(ds[m])
            == target[ds[m].field@]
}

proof fn lemma_records_map(
    ds: Seq<FieldDifference>,
    target: Map<Seq<char>, (Option<FieldValues>, Option<FieldValues>)>,
    k: Seq<char>,
)
    requires
        records_agree(ds, target),
    ensures
        differences_map(ds).contains_key(k) == has_field(ds, k),
        differences_map(ds).contains_key(k) ==> differences_map(ds)[k] == target[k],
    decreases ds.len(),
{
    if ds.len() > 0 {
        let front = ds.drop_last();
        assert forall|m: int| 0 <= m < front.len() implies target.contains_key(
            (#[trigger] front[m]).field@,
        ) && record_entry(front[m]) == target[front[m].field@] by {
            assert(front[m] == ds[m]);
        }
        lemma_records_map(front, target, k);
        assert(ds[ds.len() - 1] == ds.last());
        if has_field(front, k) {
            let m = choose|m: int| 0 <= m < front.len() && (#[trigger] front[m]).field@ == k;
            assert(ds[m] == front[m]);
        }
        if has_field(ds, k) && ds.last().field@ != k {
            let m = choose|m: int| 0 <= m < ds.len() && (#[trigger] ds[m]).field@ == k;
            assert(front[m] == ds[m]);
        }
    }
}

/// Put a record into a list sorted by field name, unless a record for its field is there.
fn insert_sorted(out: &mut Vec<FieldDifference>, d: FieldDifference)
    requires
        fields_sorted(old(out)@),
    ensures
        fields_sorted(final(out)@),
        forall|i: int|
            0 <= i < final(out)@.len() ==> #[trigger] final(out)@[i] == d || old(out)@.contains(
                final(out)@[i],
            ),
        forall|i: int| 0 <= i < old(out)@.len() ==> final(out)@.contains(#[trigger] old(out)@[i]),
        has_field(final(out)@, d.field@),
{
    let name = chars_of(d.field.as_str());
    let mut p: usize = 0;
    while p < out.len()
        invariant
            out@ == old(out)@,
            name@ == d.field@,
            p <= out@.len(),
            forall|i: int| 0 <= i < p ==> text_lt(#[trigger] out@[i].field@, d.field@),
        ensures
            p < out@.len() ==> !text_lt(out@[p as int].field@, d.field@),
        decreases out@.len() - p,
    {
        let f = chars_of(out[p].field.as_str());
        if chars_lt(f.as_slice(), name.as_slice()) {
            p = p + 1;
        } else {
            break;
        }
    }
    let ghost old_out = out@;
    if p < out.len() {
        let f = chars_of(out[p].field.as_str());
        if chars_eq(f.as_slice(), name.as_slice()) {
            assert(out@[p as int].field@ == d.field@);
            assert forall|i: int| 0 <= i < out@.len() implies out@.contains(#[trigger] out@[i]) by {}
            return;
        }
        proof {
            lemma_text_lt_total(out@[p as int].field@, d.field@);
        }
    }
    let ghost dd = d;
    out.insert(p, d);
    proof {
        let n = out@;
        assert(n[p as int] == dd);
        assert forall|i: int, j: int| 0 <= i < j < n.len() implies text_lt(
            #[trigger] n[i].field@,
            #[trigger] n[j].field@,
        ) by {
            if j < p {
                assert(n[i] == old_out[i] && n[j] == old_out[j]);
            } else if j == p {
                assert(n[i] == old_out[i]);
            } else if i == p {
                assert(n[j] == old_out[j - 1]);
                if j - 1 > p {
                    assert(text_lt(old_out[p as int].field@, old_out[j - 1].field@));
                    lemma_text_lt_transitive(dd.field@, old_out[p as int].field@, old_out[j - 1].field@);
                }
            } else if i < p {
                assert(n[i] == old_out[i] && n[j] == old_out[j - 1]);
                if p < old_out.len() {
                    if j - 1 > p {
                        lemma_text_lt_transitive(dd.field@, old_out[p as int].field@, old_out[j - 1].field@);
                    }
                    lemma_text_lt_transitive(n[i].field@, dd.field@, n[j].field@);
                }
            } else {
                assert(n[i] == old_out[i - 1] && n[j] == old_out[j - 1]);
            }
        }
        assert forall|i: int| 0 <= i < n.len() implies #[trigger] n[i] == dd || old_out.contains(n[i]) by {
            if i < p {
                assert(n[i] == old_out[i]);
            } else if i > p {
                assert(n[i] == old_out[i - 1]);
            }
        }
        assert forall|i: int| 0 <= i < old_out.len() implies n.contains(#[trigger] old_out[i]) by {
            if i < p {
                assert(n[i] == old_out[i]);
            } else {
                assert(n[i + 1] == old_out[i]);
            }
        }
        assert(n[p as int].field@ == dd.field@);
    }
}

proof fn lemma_has_field_kept(old_ds: Seq<FieldDifference>, new_ds: Seq<FieldDifference>, k: Seq<char>)
    requires
        forall|i: int| 0 <= i < old_ds.len() ==> new_ds.contains(#[trigger] old_ds[i]),
        has_field(old_ds, k),
    ensures
        has_field(new_ds, k),
{
    let m = choose|m: int| 0 <= m < old_ds.len() && (#[trigger] old_ds[m]).field@ == k;
    assert(new_ds.contains(old_ds[m]));
    let m2 = choose|m2: int| 0 <= m2 < new_ds.len() && new_ds[m2] == old_ds[m];
    assert(new_ds[m2].field@ == k);
}

/// Add the record for field `name` when its values differ between the two maps.
fn add_if_different(
    out: &mut Vec<FieldDifference>,
    nata: &FieldMap,
    tshark: &FieldMap,
    name: &String,
)
    requires
        fields_sorted(old(out)@),
        records_agree(old(out)@, field_differences(nata@, tshark@)),
    ensures
        fields_sorted(final(out)@),
        records_agree(final(out)@, field_differences(nata@, tshark@)),
        forall|k: Seq<char>| has_field(old(out)@, k) ==> #[trigger] has_field(final(out)@, k),
        field_differences(nata@, tshark@).contains_key(name@) ==> has_field(final(out)@, name@),
{
    let ghost target = field_differences(nata@, tshark@);
    let a = lookup(nata, name);
    let b = lookup(tshark, name);
    if values_differ(a, b) {
        let d = FieldDifference { field: name.clone(), nata: copy_texts(a), tshark: copy_texts(b) };
        assert(record_entry(d) == (field_value(nata@, name@), field_value(tshark@, name@)));
        assert(target.contains_key(name@));
        let ghost dd = d;
        let ghost before = out@;
        insert_sorted(out, d);
        proof {
            assert forall|m: int| 0 <= m < out@.len() implies target.contains_key(
                (#[trigger] out@[m]).field@,
            ) && record_entry(out@[m]) == target[out@[m].field@] by {
                if out@[m] != dd {
                    let q = choose|q: int| 0 <= q < before.len() && before[q] == out@[m];
                    assert(target.contains_key(before[q].field@));
                }
            }
            assert forall|k: Seq<char>| has_field(before, k) implies #[trigger] has_field(out@, k) by {
                lemma_has_field_kept(before, out@, k);
            }
        }
    } else {
        assert(!target.contains_key(name@));
    }
}

/// The fields on which two field maps differ, with each side's values, one record per field
/// in increasing order of field name.
pub fn fields_diff(nata: &FieldMap, tshark: &FieldMap) -> (r: Vec<FieldDifference>)
    ensures
        fields_sorted(r@),
        differences_map(r@) == field_differences(nata@, tshark@),
{
    let ghost target = field_differences(nata@, tshark@);
    let mut out: Vec<FieldDifference> = Vec::new();
    let mut i: usize = 0;
    while i < nata.entries.len()
        invariant
            i <= nata.entries@.len(),
            target == field_differences(nata@, tshark@),
            fields_sorted(out@),
            records_agree(out@, target),
            forall|j: int|
                0 <= j < i && target.contains_key((#[trigger] nata.entries@[j]).0@) ==> has_field(
                    out@,
                    nata.entries@[j].0@,
                ),
        decreases nata.entries@.len() - i,
    {
        add_if_different(&mut out, nata, tshark, &nata.entries[i].0);
        i = i + 1;
    }
    let mut i: usize = 0;
    while i < tshark.entries.len()
        invariant
            i <= tshark.entries@.len(),
            target == field_differences(nata@, tshark@),
            fields_sorted(out@),
            records_agree(out@, target),
            forall|j: int|
                0 <= j < nata.entries@.len() && target.contains_key(
                    (#[trigger] nata.entries@[j]).0@,
                ) ==> has_field(out@, nata.entries@[j].0@),
            forall|j: int|
                0 <= j < i && target.contains_key((#[trigger] tshark.entries@[j]).0@) ==> has_field(
                    out@,
                    tshark.entries@[j].0@,
                ),
        decreases tshark.entries@.len() - i,
    {
        add_if_different(&mut out, nata, tshark, &tshark.entries[i].0);
        i = i + 1;
    }
    proof {
        assert forall|k: Seq<char>| #[trigger] differences_map(out@).contains_key(k) == target.contains_key(k)
            by {
            lemma_records_map(out@, target, k);
            if target.contains_key(k) {
                if nata@.contains_key(k) {
                    lemma_key_has_entry(nata.entries@, k);
                } else {
                    lemma_key_has_entry(tshark.entries@, k);
                }
            }
            if has_field(out@, k) {
                let m = choose|m: int| 0 <= m < out@.len() && (#[trigger] out@[m]).field@ == k;
            }
        }
        assert forall|k: Seq<char>| #[trigger] differences_map(out@).contains_key(k) implies differences_map(
            out@,
        )[k] == target[k] by {
            lemma_records_map(out@, target, k);
        }
        assert(differences_map(out@) =~= target);
    }
    out
}

/// A key of the map that insertions build was inserted by one of them.
proof fn lemma_key_has_entry(es: Seq<(String, Vec<String>)>, k: Seq<char>)
    requires
        insertions_map(es).contains_key(k),
    ensures
        exists|j: int| 0 <= j < es.len() && (#[trigger] es[j]).0@ == k,
    decreases es.len(),
{
    if es.last().0@ != k {
        lemma_key_has_entry(es.drop_last(), k);
        let j = choose|j: int| 0 <= j < es.drop_last().len() && (#[trigger] es.drop_last()[j]).0@ == k;
        assert(es[j] == es.drop_last()[j]);
    } else {
        assert(es[es.len() - 1].0@ == k);
    }
}

/// The differences between two renderings of a capture as field maps.
#[derive(Debug, Clone)]
pub struct CaptureDiff {
    /// The packet counts of the two sides, when they differ.
    pub packet_count: Option<(usize, usize)>,
    /// For each packet present on both sides, its number (counted from one) and the fields on
    /// which the sides differ.
    pub packets: Vec<(usize, Vec<FieldDifference>)>,
}

/// Compare two renderings of a capture: their packet counts, and packet by packet, the fields
/// on which they differ.
pub fn json_value_diff(nata: &Vec<FieldMap>, tshark: &Vec<FieldMap>) -> (r: CaptureDiff)
    ensures
        r.packet_count == if nata@.len() != tshark@.len() {
            Some((nata@.len() as usize, tshark@.len() as usize))
        } else {
            None
        },
        r.packets@.len() == if nata@.len() < tshark@.len() {
            nata@.len()
        } else {
            tshark@.len()
        },
        forall|i: int|
            0 <= i < r.packets@.len() ==> (#[trigger] r.packets@[i]).0 == i + 1 && fields_sorted(
                r.packets@[i].1@,
            ) && differences_map(r.packets@[i].1@) == field_differences(nata@[i]@, tshark@[i]@),
{
    let packet_count = if nata.len() != tshark.len() {
        Some((nata.len(), tshark.len()))
    } else {
        None
    };
    let n = if nata.len() < tshark.len() {
        nata.len()
    } else {
        tshark.len()
    };
    let mut packets: Vec<(usize, Vec<FieldDifference>)> = Vec::new();
    let mut i: usize = 0;
    while i < n
        invariant
            n <= nata@.len(),
            n <= tshark@.len(),
            i <= n,
            packets@.len() == i,
            forall|j: int|
                0 <= j < i ==> (#[trigger] packets@[j]).0 == j + 1 && fields_sorted(
                    packets@[j].1@,
                ) && differences_map(packets@[j].1@) == field_differences(nata@[j]@, tshark@[j]@),
        decreases n - i,
    {
        let d = fields_diff(&nata[i], &tshark[i]);
        packets.push((i + 1, d));
        i = i + 1;
    }
    CaptureDiff { packet_count, packets }
}

/// Two field maps show no difference exactly when they are equal.
pub proof fn lemma_no_difference_iff_equal(a: Map<Seq<char>, FieldValues>, b: Map<Seq<char>, FieldValues>)
    ensures
        (field_differences(a, b) == Map::<Seq<char>, (Option<FieldValues>, Option<FieldValues>)>::empty())
            == (a == b),
{
    let d = field_differences(a, b);
    if a == b {
        assert(d =~= Map::<Seq<char>, (Option<FieldValues>, Option<FieldValues>)>::empty());
    }
    if d == Map::<Seq<char>, (Option<FieldValues>, Option<FieldValues>)>::empty() {
        assert forall|k: Seq<char>| #[trigger] a.contains_key(k) == b.contains_key(k) by {
            assert(!d.contains_key(k));
        }
        assert forall|k: Seq<char>| a.contains_key(k) implies #[trigger] a[k] == b[k] by {
            assert(!d.contains_key(k));
        }
        assert(a =~= b);
    }
}

/// The fields that a list of records covers are those of its map.
proof fn lemma_differences_map_dom(ds: Seq<FieldDifference>, k: Seq<char>)
    ensures
        differences_map(ds).contains_key(k) == has_field(ds, k),
    decreases ds.len(),
{
    if ds.len() > 0 {
        let front = ds.drop_last();
        lemma_differences_map_dom(front, k);
        assert(ds[ds.len() - 1] == ds.last());
        if has_field(front, k) {
            let m = choose|m: int| 0 <= m < front.len() && (#[trigger] front[m]).field@ == k;
            assert(ds[m] == front[m]);
        }
        if has_field(ds, k) && ds.last().field@ != k {
            let m = choose|m: int| 0 <= m < ds.len() && (#[trigger] ds[m]).field@ == k;
            assert(front[m] == ds[m]);
        }
    }
}

/// In a sorted list of records, the map gives each record's field the values of that record.
proof fn lemma_differences_map_at(ds: Seq<FieldDifference>, m: int)
    requires
        fields_sorted(ds),
        0 <= m < ds.len(),
    ensures
        differences_map(ds).contains_key(ds[m].field@),
        differences_map(ds)[ds[m].field@] == record_entry(ds[m]),
    decreases ds.len(),
{
    let front = ds.drop_last();
    if m < ds.len() - 1 {
        assert(front[m] == ds[m]);
        assert(text_lt(ds[m].field@, ds[ds.len() - 1].field@));
        if ds.last().field@ == ds[m].field@ {
            lemma_text_lt_irreflexive(ds[m].field@);
        }
        lemma_differences_map_at(front, m);
    }
}

/// Two lists of records, each sorted by field name, that cover the same fields list the
/// same fields in the same order.
proof fn lemma_sorted_fields_unique(r1: Seq<FieldDifference>, r2: Seq<FieldDifference>)
    requires
        fields_sorted(r1),
        fields_sorted(r2),
        forall|k: Seq<char>| #[trigger] has_field(r1, k) == has_field(r2, k),
    ensures
        r1.len() == r2.len(),
        forall|i: int| 0 <= i < r1.len() ==> (#[trigger] r1[i]).field@ == r2[i].field@,
    decreases r1.len() + r2.len(),
{
    if r1.len() == 0 || r2.len() == 0 {
        if r1.len() > 0 {
            assert(has_field(r1, r1[0].field@));
            assert(has_field(r2, r1[0].field@));
        }
        if r2.len() > 0 {
            assert(has_field(r2, r2[0].field@));
            assert(has_field(r1, r2[0].field@));
        }
    } else {
        let x = r1[0].field@;
        let y = r2[0].field@;
        assert(has_field(r1, x));
        assert(has_field(r2, y));
        if x != y {
            lemma_text_lt_total(x, y);
            assert(has_field(r2, x) && has_field(r1, y));
            if text_lt(x, y) {
                let m = choose|m: int| 0 <= m < r2.len() && (#[trigger] r2[m]).field@ == x;
                assert(m != 0);
                lemma_text_lt_transitive(x, y, r2[m].field@);
                lemma_text_lt_irreflexive(x);
            } else {
                let m = choose|m: int| 0 <= m < r1.len() && (#[trigger] r1[m]).field@ == y;
                assert(m != 0);
                lemma_text_lt_transitive(y, x, r1[m].field@);
                lemma_text_lt_irreflexive(y);
            }
        }
        let t1 = r1.drop_first();
        let t2 = r2.drop_first();
        assert forall|k: Seq<char>| #[trigger] has_field(t1, k) == has_field(t2, k) by {
            lemma_has_field_rest(r1, k);
            lemma_has_field_rest(r2, k);
        }
        lemma_sorted_fields_unique(t1, t2);
        assert(t1.len() == t2.len());
        assert forall|i: int| 0 <= i < r1.len() implies (#[trigger] r1[i]).field@ == r2[i].field@ by {
            if i > 0 {
                assert(t1[i - 1] == r1[i] && t2[i - 1] == r2[i]);
            }
        }
    }
}

/// Past its first record, a sorted list covers its fields but the first.
proof fn lemma_has_field_rest(ds: Seq<FieldDifference>, k: Seq<char>)
    requires
        fields_sorted(ds),
        ds.len() > 0,
    ensures
        fields_sorted(ds.drop_first()),
        has_field(ds.drop_first(), k) == (has_field(ds, k) && k != ds[0].field@),
{
    let t = ds.drop_first();
    assert forall|i: int, j: int| 0 <= i < j < t.len() implies text_lt(
        #[trigger] t[i].field@,
        #[trigger] t[j].field@,
    ) by {
        assert(t[i] == ds[i + 1] && t[j] == ds[j + 1]);
    }
    if has_field(t, k) {
        let m = choose|m: int| 0 <= m < t.len() && (#[trigger] t[m]).field@ == k;
        assert(ds[m + 1] == t[m]);
        assert(text_lt(ds[0].field@, ds[m + 1].field@));
        if k == ds[0].field@ {
            lemma_text_lt_irreflexive(k);
        }
    }
    if has_field(ds, k) && k != ds[0].field@ {
        let m = choose|m: int| 0 <= m < ds.len() && (#[trigger] ds[m]).field@ == k;
        assert(t[m - 1] == ds[m]);
    }
}

/// Comparing the other way round lists the same fields in the same order, with the values
/// of the two sides exchanged in every record.
pub proof fn lemma_fields_diff_swap(
    a: Map<Seq<char>, FieldValues>,
    b: Map<Seq<char>, FieldValues>,
    ab: Seq<FieldDifference>,
    ba: Seq<FieldDifference>,
)
    requires
        fields_sorted(ab),
        differences_map(ab) == field_differences(a, b),
        fields_sorted(ba),
        differences_map(ba) == field_differences(b, a),
    ensures
        ab.len() == ba.len(),
        forall|i: int|
            0 <= i < ab.len() ==> (#[trigger] ba[i]).field@ == ab[i].field@ && record_entry(ba[i])
                == (record_entry(ab[i]).1, record_entry(ab[i]).0),
{
    assert forall|k: Seq<char>| #[trigger] has_field(ab, k) == has_field(ba, k) by {
        lemma_differences_map_dom(ab, k);
        lemma_differences_map_dom(ba, k);
    }
    lemma_sorted_fields_unique(ab, ba);
    assert forall|i: int| 0 <= i < ab.len() implies (#[trigger] ba[i]).field@ == ab[i].field@
        && record_entry(ba[i]) == (record_entry(ab[i]).1, record_entry(ab[i]).0) by {
        lemma_differences_map_at(ab, i);
        lemma_differences_map_at(ba, i);
    }
}

/// A list of the records on which two field maps differ is empty exactly when the maps are
/// equal.
pub proof fn lemma_fields_diff_empty_iff_equal(
    a: Map<Seq<char>, FieldValues>,
    b: Map<Seq<char>, FieldValues>,
    ds: Seq<FieldDifference>,
)
    requires
        differences_map(ds) == field_differences(a, b),
    ensures
        (ds.len() == 0) == (a == b),
{
    lemma_no_difference_iff_equal(a, b);
    if ds.len() == 0 {
        assert(differences_map(ds) =~= Map::<Seq<char>, (Option<FieldValues>, Option<FieldValues>)>::empty());
    } else {
        lemma_differences_map_dom(ds, ds[0].field@);
        assert(has_field(ds, ds[0].field@));
        assert(differences_map(ds).contains_key(ds[0].field@));
    }
}

} // verus!
