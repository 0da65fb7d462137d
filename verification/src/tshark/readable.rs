//! The readable form of a comparison's differences: one heading per difference, then a line
//! with each side's value as JSON text.
use crate::text::{chars_of, string_of};
use crate::tshark::diff::{CaptureDiff, FieldDifference};
use crate::tshark::json::{texts_view, FieldValues};
use crate::tshark::render::{decimal, decimal_text, digit_chars};
use vstd::prelude::*;

verus! {

/// What a difference is about.
#[derive(Debug, Clone)]
pub enum DiffHeading {
    /// A field of a packet (counted from one).
    Field { packet: usize, field: String },
    /// The number of packets.
    PacketCount,
    /// Anything else, by its label.
    Label(String),
}

/// A difference in readable form: what it is about and each side's value as JSON text.
#[derive(Debug, Clone)]
pub struct ReadableEntry {
    pub heading: DiffHeading,
    pub nata: String,
    pub tshark: String,
}

/// The heading line of a difference, without its line break.
pub open spec fn heading_text(h: DiffHeading) -> Seq<char> {
    match h {
        DiffHeading::Field { packet, field } => "@@ packet "@ + decimal(packet as nat) + ", field "@
            + field@ + " @@"@,
        DiffHeading::PacketCount => "@@ packet count @@"@,
        DiffHeading::Label(l) => "@@ "@ + l@ + " @@"@,
    }
}

/// A value line: its marker and side, then the value; in color, wrapped in the color's
/// escape sequence and the reset sequence.
pub open spec fn value_line(prefix: Seq<char>, value: Seq<char>, color: bool, code: Seq<char>) -> Seq<
    char,
> {
    if color {
        code + prefix + value + "\x1b[0m\n"@
    } else {
        prefix + value + "\n"@
    }
}

/// The lines of one difference: its heading, the Nata value in red, the TShark value in green.
pub open spec fn entry_text(e: ReadableEntry, color: bool) -> Seq<char> {
    heading_text(e.heading) + "\n"@ + value_line("- Nata  : "@, e.nata@, color, "\x1b[31m"@)
        + value_line("+ TShark: "@, e.tshark@, color, "\x1b[32m"@)
}

/// The lines of the differences, in order.
pub open spec fn entries_text(es: Seq<ReadableEntry>, color: bool) -> Seq<char>
    decreases es.len(),
{
    if es.len() == 0 {
        Seq::empty()
    } else {
        entries_text(es.drop_last(), color) + entry_text(es.last(), color)
    }
}

/// A readable section: its title between `===` marks, then the differences.
pub open spec fn readable_text(title: Seq<char>, es: Seq<ReadableEntry>, color: bool) -> Seq<char> {
    "=== "@ + title + " ===\n"@ + entries_text(es, color)
}

fn push_all(out: &mut Vec<char>, s: &[char])
    ensures
        final(out)@ == old(out)@ + s@,
{
    let mut i: usize = 0;
    while i < s.len()
        invariant
            i <= s@.len(),
            out@ == old(out)@ + s@.take(i as int),
        decreases s@.len() - i,
    {
        out.push(s[i]);
        i = i + 1;
        assert(out@ =~= old(out)@ + s@.take(i as int));
    }
    assert(s@.take(s@.len() as int) =~= s@);
}

fn push_str(out: &mut Vec<char>, s: &str)
    ensures
        final(out)@ == old(out)@ + s@,
{
    let v = chars_of(s);
    push_all(out, v.as_slice());
}

fn push_value_line(out: &mut Vec<char>, prefix: &str, value: &String, color: bool, code: &str)
    ensures
        final(out)@ == old(out)@ + value_line(prefix@, value@, color, code@),
{
    if color {
        push_str(out, code);
    }
    push_str(out, prefix);
    push_str(out, value.as_str());
    if color {
        push_str(out, "\x1b[0m\n");
    } else {
        push_str(out, "\n");
    }
    assert(out@ =~= old(out)@ + value_line(prefix@, value@, color, code@));
}

fn push_heading(out: &mut Vec<char>, h: &DiffHeading)
    ensures
        final(out)@ == old(out)@ + heading_text(*h),
{
    match h {
        DiffHeading::Field { packet, field } => {
            push_str(out, "@@ packet ");
            let n = decimal_text(*packet as u64);
            push_str(out, n.as_str());
            push_str(out, ", field ");
            push_str(out, field.as_str());
            push_str(out, " @@");
        },
        DiffHeading::PacketCount => {
            push_str(out, "@@ packet count @@");
        },
        DiffHeading::Label(l) => {
            push_str(out, "@@ ");
            push_str(out, l.as_str());
            push_str(out, " @@");
        },
    }
    assert(out@ =~= old(out)@ + heading_text(*h));
}

/// Render differences in readable form, under a title.
pub fn readable_diff(title: &str, entries: &[ReadableEntry], color: bool) -> (r: String)
    ensures
        r@ == readable_text(title@, entries@, color),
{
    let mut out: Vec<char> = Vec::new();
    push_str(&mut out, "=== ");
    push_str(&mut out, title);
    push_str(&mut out, " ===\n");
    let ghost head = out@;
    let mut i: usize = 0;
    while i < entries.len()
        invariant
            i <= entries@.len(),
            out@ == head + entries_text(entries@.take(i as int), color),
        decreases entries@.len() - i,
    {
        let e = &entries[i];
        let ghost before = out@;
        push_heading(&mut out, &e.heading);
        push_str(&mut out, "\n");
        push_value_line(&mut out, "- Nata  : ", &e.nata, color, "\x1b[31m");
        push_value_line(&mut out, "+ TShark: ", &e.tshark, color, "\x1b[32m");
        proof {
            assert(entries@.take(i + 1).drop_last() =~= entries@.take(i as int));
            assert(out@ =~= before + entry_text(entries@[i as int], color));
        }
        i = i + 1;
    }
    assert(entries@.take(entries@.len() as int) =~= entries@);
    assert(out@ =~= readable_text(title@, entries@, color));
    string_of(out.as_slice())
}

/// How `serde_json` writes a character inside a JSON string: a quote and a backslash behind
/// a backslash; backspace, tab, line feed, form feed and carriage return as `\b`, `\t`, `\n`,
/// `\f`, `\r`; the other control characters below 0x20 as `\u00` and two lower-case hex
/// digits; every other character as itself.
pub open spec fn json_escaped(c: char) -> Seq<char> {
    if c == '"' {
        seq!['\\', '"']
    } else if c == '\\' {
        seq!['\\', '\\']
    } else if c == '\u{8}' {
        seq!['\\', 'b']
    } else if c == '\t' {
        seq!['\\', 't']
    } else if c == '\n' {
        seq!['\\', 'n']
    } else if c == '\u{c}' {
        seq!['\\', 'f']
    } else if c == '\r' {
        seq!['\\', 'r']
    } else if (c as int) < 0x20 {
        seq!['\\', 'u', '0', '0', digit_chars()[(c as int) / 16], digit_chars()[(c as int) % 16]]
    } else {
        seq![c]
    }
}

/// The characters of `s`, each written as in a JSON string.
pub open spec fn json_escaped_text(s: Seq<char>) -> Seq<char>
    decreases s.len(),
{
    if s.len() == 0 {
        Seq::empty()
    } else {
        json_escaped_text(s.drop_last()) + json_escaped(s.last())
    }
}

/// A JSON string holding `s`, between quotes.
pub open spec fn json_string_text(s: Seq<char>) -> Seq<char> {
    seq!['"'] + json_escaped_text(s) + seq!['"']
}

/// The JSON strings of `vs`, separated by commas.
pub open spec fn json_items_text(vs: Seq<Seq<char>>) -> Seq<char>
    decreases vs.len(),
{
    if vs.len() == 0 {
        Seq::empty()
    } else if vs.len() == 1 {
        json_string_text(vs[0])
    } else {
        json_items_text(vs.drop_last()) + seq![','] + json_string_text(vs.last())
    }
}

/// The compact JSON text of an array of strings: `[`, the strings separated by commas, `]`.
pub open spec fn json_array_text(values: FieldValues) -> Seq<char> {
    seq!['['] + json_items_text(values) + seq![']']
}

/// `serde_json::to_string` on a JSON array of the strings. What is claimed: it gives the
/// compact text [`json_array_text`], with `serde_json`'s escapes; serializing an array of
/// strings into memory does not fail.
#[verifier::external_body]
fn json_strings_text(values: &Vec<String>) -> (r: Option<String>)
    ensures
        r is Some,
        r matches Some(t) ==> t@ == json_array_text(texts_view(values@)),
{
    let array = serde_json::Value::Array(values.iter().cloned().map(serde_json::Value::String).collect());
    serde_json::to_string(&array).ok()
}

/// The JSON text of a field's values on one side: `null` where the side lacks the field.
pub open spec fn side_text(v: Option<FieldValues>) -> Seq<char> {
    match v {
        None => "null"@,
        Some(vs) => json_array_text(vs),
    }
}

fn side_json(values: &Option<Vec<String>>) -> (r: String)
    ensures
        r@ == side_text(opt_view(values)),
{
    match values {
        None => string_of(chars_of("null").as_slice()),
        Some(v) => json_strings_text(v).unwrap(),
    }
}

/// The value of optional strings.
pub open spec fn opt_view(o: &Option<Vec<String>>) -> Option<FieldValues> {
    match o {
        Some(v) => Some(texts_view(v@)),
        None => None,
    }
}

/// The readable entry of a field difference of packet `packet`.
pub open spec fn field_entry_ok(packet: usize, d: FieldDifference, e: ReadableEntry) -> bool {
    &&& e.heading == DiffHeading::Field { packet, field: d.field }
    &&& side_text(opt_view(&d.nata)) == e.nata@
    &&& side_text(opt_view(&d.tshark)) == e.tshark@
}

/// `es` are the readable entries of the field differences `ds` of packet `packet`, in order.
pub open spec fn field_entries_ok(packet: usize, ds: Seq<FieldDifference>, es: Seq<ReadableEntry>) -> bool {
    &&& es.len() == ds.len()
    &&& forall|j: int| 0 <= j < ds.len() ==> field_entry_ok(packet, #[trigger] ds[j], es[j])
}

/// `es` are the readable entries of the field differences of the packets, packet after packet.
pub open spec fn packets_entries_ok(ps: Seq<(usize, Vec<FieldDifference>)>, es: Seq<ReadableEntry>) -> bool
    decreases ps.len(),
{
    if ps.len() == 0 {
        es.len() == 0
    } else {
        let n = ps.last().1@.len();
        &&& n <= es.len()
        &&& packets_entries_ok(ps.drop_last(), es.take(es.len() - n))
        &&& field_entries_ok(ps.last().0, ps.last().1@, es.skip(es.len() - n))
    }
}

/// The readable entries of a comparison: the packet counts first, where they differ, then
/// each packet's field differences in order.
pub fn capture_diff_entries(diff: &CaptureDiff) -> (es: Vec<ReadableEntry>)
    ensures
        match diff.packet_count {
            Some((a, b)) => {
                &&& es@.len() > 0
                &&& es@[0].heading == DiffHeading::PacketCount
                &&& es@[0].nata@ == decimal(a as nat)
                &&& es@[0].tshark@ == decimal(b as nat)
                &&& packets_entries_ok(diff.packets@, es@.skip(1))
            },
            None => packets_entries_ok(diff.packets@, es@),
        },
{
    let mut out: Vec<ReadableEntry> = Vec::new();
    if let Some((a, b)) = diff.packet_count {
        out.push(
            ReadableEntry {
                heading: DiffHeading::PacketCount,
                nata: decimal_text(a as u64),
                tshark: decimal_text(b as u64),
            },
        );
    }
    let ghost skip: int = if diff.packet_count is Some { 1 } else { 0 };
    let ghost first = out@;
    let mut i: usize = 0;
    while i < diff.packets.len()
        invariant
            i <= diff.packets@.len(),
            skip == (if diff.packet_count is Some { 1int } else { 0int }),
            first.len() == skip,
            skip <= out@.len(),
            out@.take(skip) == first,
            packets_entries_ok(diff.packets@.take(i as int), out@.skip(skip)),
        decreases diff.packets@.len() - i,
    {
        let packet = diff.packets[i].0;
        let fields = &diff.packets[i].1;
        let ghost before = out@;
        let mut j: usize = 0;
        while j < fields.len()
            invariant
                i < diff.packets@.len(),
                *fields == diff.packets@[i as int].1,
                packet == diff.packets@[i as int].0,
                j <= fields@.len(),
                before.len() <= out@.len(),
                out@.take(before.len() as int) == before,
                field_entries_ok(packet, fields@.take(j as int), out@.skip(before.len() as int)),
            decreases fields@.len() - j,
        {
            let d = &fields[j];
            let ghost prev = out@;
            let nata = side_json(&d.nata);
            let tshark = side_json(&d.tshark);
            let e = ReadableEntry {
                heading: DiffHeading::Field { packet, field: d.field.clone() },
                nata,
                tshark,
            };
            out.push(e);
            proof {
                assert(out@.take(before.len() as int) =~= before) by {
                    assert(prev.take(before.len() as int) == before);
                }
                let es = out@.skip(before.len() as int);
                let ds = fields@.take(j + 1);
                assert(es =~= prev.skip(before.len() as int).push(e));
                assert forall|jj: int| 0 <= jj < ds.len() implies field_entry_ok(packet, #[trigger] ds[jj], es[jj]) by {
                    if jj < j {
                        assert(ds[jj] == fields@.take(j as int)[jj]);
                    }
                }
            }
            j = j + 1;
        }
        proof {
            let ps = diff.packets@.take(i + 1);
            let es = out@.skip(skip);
            let n = fields@.len();
            assert(ps.drop_last() =~= diff.packets@.take(i as int));
            assert(ps.last() == diff.packets@[i as int]);
            assert(fields@.take(n as int) =~= fields@);
            assert(es.take(es.len() - n) =~= before.skip(skip)) by {
                assert(out@.take(before.len() as int) == before);
            }
            assert(es.skip(es.len() - n) =~= out@.skip(before.len() as int));
            assert(out@.take(skip) =~= first) by {
                assert(before.take(skip) == first);
                assert(out@.take(before.len() as int) == before);
            }
        }
        i = i + 1;
    }
    proof {
        assert(diff.packets@.take(diff.packets@.len() as int) =~= diff.packets@);
        if diff.packet_count is Some {
            assert(out@[0] == first[0]) by {
                assert(out@.take(1)[0] == out@[0]);
            }
        } else {
            assert(out@.skip(0) =~= out@);
        }
    }
    out
}

} // verus!
