//! TCP options: their wire format, parser and serializer.
use crate::layer::bytes::{
    be16, be32, get_u16, get_u32, lemma_be16_get_u16, lemma_be32_get_u32, lemma_get_u16_be16,
    lemma_get_u32_be32, push_u16, push_u32, read_u16, read_u32,
};
use crate::layer::LayerError;
use vstd::prelude::*;

verus! {

/// Timestamp option payload (RFC 7323).
#[derive(Debug, Clone, Copy, PartialEq, Eq, Structural)]
pub struct TimestampData {
    pub start: u32,
    pub end: u32,
}

/// One block of a selective acknowledgment option (RFC 2018).
#[derive(Debug, Clone, Copy, PartialEq, Eq, Structural)]
pub struct SAckData {
    pub begin: u32,
    pub end: u32,
}

/// A TCP option.
#[allow(inconsistent_fields)]
#[derive(Debug, Clone, PartialEq, Eq)]
pub enum TcpOption {
    /// End of option list (kind 0).
    EOL,
    /// No operation (kind 1).
    NOP,
    /// Maximum segment size (kind 2).
    MSS { length: u8, value: u16 },
    /// Window scale (kind 3).
    WindowScale { length: u8, value: u8 },
    /// Selective acknowledgment permitted (kind 4).
    SAckPermitted { length: u8 },
    /// Selective acknowledgment (kind 5).
    SAck { length: u8, value: Vec<SAckData> },
    /// Timestamps (kind 8).
    Timestamp { length: u8, value: TimestampData },
    /// Any other kind, kept as its raw value bytes.
    Unknown { kind: u8, length: u8, value: Vec<u8> },
}

/// The mathematical value of a [`TcpOption`].
#[allow(inconsistent_fields)]
pub enum SpecTcpOption {
    EOL,
    NOP,
    MSS { length: u8, value: u16 },
    WindowScale { length: u8, value: u8 },
    SAckPermitted { length: u8 },
    SAck { length: u8, value: Seq<SAckData> },
    Timestamp { length: u8, value: TimestampData },
    Unknown { kind: u8, length: u8, value: Seq<u8> },
}

impl View for TcpOption {
    type V = SpecTcpOption;

    open spec fn view(&self) -> SpecTcpOption {
        match self {
            TcpOption::EOL => SpecTcpOption::EOL,
            TcpOption::NOP => SpecTcpOption::NOP,
            TcpOption::MSS { length, value } => SpecTcpOption::MSS { length: *length, value: *value },
            TcpOption::WindowScale { length, value } => SpecTcpOption::WindowScale {
                length: *length,
                value: *value,
            },
            TcpOption::SAckPermitted { length } => SpecTcpOption::SAckPermitted { length: *length },
            TcpOption::SAck { length, value } => SpecTcpOption::SAck { length: *length, value: value@ },
            TcpOption::Timestamp { length, value } => SpecTcpOption::Timestamp {
                length: *length,
                value: *value,
            },
            TcpOption::Unknown { kind, length, value } => SpecTcpOption::Unknown {
                kind: *kind,
                length: *length,
                value: value@,
            },
        }
    }
}

/// The option kinds that have a format of their own.
pub open spec fn is_known_kind(k: u8) -> bool {
    k == 0 || k == 1 || k == 2 || k == 3 || k == 4 || k == 5 || k == 8
}

/// Number of selective acknowledgment blocks announced by a length field.
pub open spec fn sack_count(length: u8) -> nat {
    ((length - 2) / 8) as nat
}

/// Wire bytes of a list of selective acknowledgment blocks.
pub open spec fn sack_bytes(v: Seq<SAckData>) -> Seq<u8>
    decreases v.len(),
{
    if v.len() == 0 {
        Seq::empty()
    } else {
        be32(v[0].begin) + be32(v[0].end) + sack_bytes(v.drop_first())
    }
}

/// Wire bytes of one option.
pub open spec fn option_bytes(o: SpecTcpOption) -> Seq<u8> {
    match o {
        SpecTcpOption::EOL => seq![0u8],
        SpecTcpOption::NOP => seq![1u8],
        SpecTcpOption::MSS { length, value } => seq![2u8, length] + be16(value),
        SpecTcpOption::WindowScale { length, value } => seq![3u8, length, value],
        SpecTcpOption::SAckPermitted { length } => seq![4u8, length],
        SpecTcpOption::SAck { length, value } => seq![5u8, length] + sack_bytes(value),
        SpecTcpOption::Timestamp { length, value } => seq![8u8, length] + be32(value.start) + be32(
            value.end,
        ),
        SpecTcpOption::Unknown { kind, length, value } => seq![kind, length] + value,
    }
}

/// Wire bytes of a list of options, in order.
pub open spec fn options_bytes(os: Seq<SpecTcpOption>) -> Seq<u8>
    decreases os.len(),
{
    if os.len() == 0 {
        Seq::empty()
    } else {
        option_bytes(os[0]) + options_bytes(os.drop_first())
    }
}

/// An option whose length field agrees with its contents, so that its bytes parse back to it.
pub open spec fn option_wf(o: SpecTcpOption) -> bool {
    match o {
        SpecTcpOption::SAck { length, value } => length >= 2 && value.len() == sack_count(length),
        SpecTcpOption::Unknown { kind, length, value } => !is_known_kind(kind) && length >= 2
            && value.len() == length - 2,
        _ => true,
    }
}

pub open spec fn options_wf(os: Seq<SpecTcpOption>) -> bool {
    forall|i: int| 0 <= i < os.len() ==> option_wf(#[trigger] os[i])
}

/// The selective acknowledgment blocks stored in the first `c * 8` bytes of `s`.
pub open spec fn sack_entries(s: Seq<u8>, c: nat) -> Seq<SAckData> {
    Seq::new(c, |i: int| SAckData { begin: get_u32(s, 8 * i), end: get_u32(s, 8 * i + 4) })
}

/// Parse one option at the front of `s`: the option and the number of bytes it occupies.
#[verifier::opaque]
pub open spec fn parse_option(s: Seq<u8>) -> Result<(SpecTcpOption, nat), LayerError> {
    if s.len() < 1 {
        Err(LayerError::Incomplete(8))
    } else if s[0] == 0 {
        Ok((SpecTcpOption::EOL, 1))
    } else if s[0] == 1 {
        Ok((SpecTcpOption::NOP, 1))
    } else if s.len() < 2 {
        Err(LayerError::Incomplete(8))
    } else {
        let kind = s[0];
        let length = s[1];
        if kind == 2 {
            if s.len() < 4 {
                Err(LayerError::Incomplete(16))
            } else {
                Ok((SpecTcpOption::MSS { length, value: get_u16(s, 2) }, 4))
            }
        } else if kind == 3 {
            if s.len() < 3 {
                Err(LayerError::Incomplete(8))
            } else {
                Ok((SpecTcpOption::WindowScale { length, value: s[2] }, 3))
            }
        } else if kind == 4 {
            Ok((SpecTcpOption::SAckPermitted { length }, 2))
        } else if kind == 5 {
            if length < 2 {
                Err(LayerError::InvalidOptionLength)
            } else if s.len() < 2 + 8 * sack_count(length) {
                Err(LayerError::Incomplete(32))
            } else {
                Ok(
                    (
                        SpecTcpOption::SAck {
                            length,
                            value: sack_entries(s.skip(2), sack_count(length)),
                        },
                        2 + 8 * sack_count(length),
                    ),
                )
            }
        } else if kind == 8 {
            if s.len() < 10 {
                Err(LayerError::Incomplete(32))
            } else {
                Ok(
                    (
                        SpecTcpOption::Timestamp {
                            length,
                            value: TimestampData { start: get_u32(s, 2), end: get_u32(s, 6) },
                        },
                        10,
                    ),
                )
            }
        } else if length < 2 {
            Err(LayerError::InvalidOptionLength)
        } else if s.len() < length {
            Err(LayerError::Incomplete(8))
        } else {
            Ok(
                (
                    SpecTcpOption::Unknown { kind, length, value: s.subrange(2, length as int) },
                    length as nat,
                ),
            )
        }
    }
}

/// Parse the options that fill the first `limit` bytes of `s`.
///
/// An option may not cross the `limit` boundary.
pub open spec fn parse_options(s: Seq<u8>, limit: nat) -> Result<Seq<SpecTcpOption>, LayerError>
    decreases limit,
{
    if limit == 0 {
        Ok(Seq::empty())
    } else {
        match parse_option(s) {
            Err(e) => Err(e),
            Ok((o, n)) => if n == 0 || n > limit {
                Err(LayerError::OptionOverrun)
            } else {
                match parse_options(s.skip(n as int), (limit - n) as nat) {
                    Err(e) => Err(e),
                    Ok(rest) => Ok(seq![o] + rest),
                }
            },
        }
    }
}

/// The views of a vector of options.
pub open spec fn options_view(v: Seq<TcpOption>) -> Seq<SpecTcpOption> {
    v.map_values(|o: TcpOption| o@)
}

// ---------------------------------------------------------------------------
// Lemmas

pub proof fn lemma_sack_bytes_len(v: Seq<SAckData>)
    ensures
        sack_bytes(v).len() == 8 * v.len(),
    decreases v.len(),
{
    if v.len() > 0 {
        lemma_sack_bytes_len(v.drop_first());
    }
}

/// Block `i` of a list sits at bytes `8i .. 8i+8` of its encoding.
pub proof fn lemma_sack_bytes_index(v: Seq<SAckData>, i: int)
    requires
        0 <= i < v.len(),
    ensures
        sack_bytes(v).subrange(8 * i, 8 * i + 8) == be32(v[i].begin) + be32(v[i].end),
    decreases v.len(),
{
    lemma_sack_bytes_len(v);
    let head = be32(v[0].begin) + be32(v[0].end);
    let tail = sack_bytes(v.drop_first());
    assert(sack_bytes(v) == head + tail);
    if i == 0 {
        assert(sack_bytes(v).subrange(0, 8) =~= head);
    } else {
        lemma_sack_bytes_index(v.drop_first(), i - 1);
        assert(sack_bytes(v).subrange(8 * i, 8 * i + 8) =~= tail.subrange(
            8 * (i - 1),
            8 * (i - 1) + 8,
        ));
    }
}

/// Decoding the blocks of an encoding gives back the blocks.
pub proof fn lemma_sack_entries_of_bytes(v: Seq<SAckData>, rest: Seq<u8>)
    ensures
        sack_entries(sack_bytes(v) + rest, v.len()) == v,
{
    lemma_sack_bytes_len(v);
    let s = sack_bytes(v) + rest;
    assert forall|i: int| 0 <= i < v.len() implies #[trigger] sack_entries(s, v.len())[i]
        == v[i] by {
        lemma_sack_bytes_index(v, i);
        let w = s.subrange(8 * i, 8 * i + 8);
        assert(w =~= sack_bytes(v).subrange(8 * i, 8 * i + 8));
        assert(s.subrange(8 * i, 8 * i + 4) =~= w.subrange(0, 4));
        assert(s.subrange(8 * i + 4, 8 * i + 8) =~= w.subrange(4, 8));
        assert(w.subrange(0, 4) =~= be32(v[i].begin));
        assert(w.subrange(4, 8) =~= be32(v[i].end));
        lemma_get_u32_be32(v[i].begin, s, 8 * i);
        lemma_get_u32_be32(v[i].end, s, 8 * i + 4);
    }
    assert(sack_entries(s, v.len()) =~= v);
}

/// Encoding the blocks decoded from `s` gives back the bytes of `s`.
pub proof fn lemma_sack_bytes_of_entries(s: Seq<u8>, c: nat)
    requires
        8 * c <= s.len(),
    ensures
        sack_bytes(sack_entries(s, c)) == s.subrange(0, 8 * c as int),
    decreases c,
{
    if c > 0 {
        let e = sack_entries(s, c);
        let s2 = s.skip(8);
        assert(e.drop_first() =~= sack_entries(s2, (c - 1) as nat)) by {
            assert forall|i: int| 0 <= i < c - 1 implies #[trigger] e.drop_first()[i]
                == sack_entries(s2, (c - 1) as nat)[i] by {
                assert(get_u32(s, 8 * (i + 1)) == get_u32(s2, 8 * i));
                assert(get_u32(s, 8 * (i + 1) + 4) == get_u32(s2, 8 * i + 4));
            }
        }
        lemma_sack_bytes_of_entries(s2, (c - 1) as nat);
        lemma_be32_get_u32(s, 0);
        lemma_be32_get_u32(s, 4);
        assert(sack_bytes(e) =~= s.subrange(0, 8 * c as int));
    }
}

/// A well-formed option, followed by anything, parses back to itself.
pub proof fn lemma_parse_option_bytes(o: SpecTcpOption, rest: Seq<u8>)
    requires
        option_wf(o),
    ensures
        parse_option(option_bytes(o) + rest) == Ok::<(SpecTcpOption, nat), LayerError>(
            (o, option_bytes(o).len()),
        ),
{
    reveal(parse_option);
    let s = option_bytes(o) + rest;
    match o {
        SpecTcpOption::MSS { length, value } => {
            assert(s.subrange(2, 4) =~= be16(value));
            lemma_get_u16_be16(value, s, 2);
        },
        SpecTcpOption::SAck { length, value } => {
            lemma_sack_bytes_len(value);
            assert(s.skip(2) =~= sack_bytes(value) + rest);
            lemma_sack_entries_of_bytes(value, rest);
        },
        SpecTcpOption::Timestamp { length, value } => {
            assert(s.subrange(2, 6) =~= be32(value.start));
            assert(s.subrange(6, 10) =~= be32(value.end));
            lemma_get_u32_be32(value.start, s, 2);
            lemma_get_u32_be32(value.end, s, 6);
        },
        SpecTcpOption::Unknown { kind, length, value } => {
            assert(s.subrange(2, length as int) =~= value);
        },
        _ => {},
    }
}

/// A parsed option is well formed and its encoding is the bytes it was parsed from.
pub proof fn lemma_option_bytes_parse(s: Seq<u8>)
    requires
        parse_option(s) is Ok,
    ensures
        ({
            let (o, n) = parse_option(s)->Ok_0;
            &&& option_wf(o)
            &&& 1 <= n <= s.len()
            &&& option_bytes(o) == s.subrange(0, n as int)
        }),
{
    reveal(parse_option);
    let (o, n) = parse_option(s)->Ok_0;
    match o {
        SpecTcpOption::MSS { length, value } => {
            lemma_be16_get_u16(s, 2);
            assert(option_bytes(o) =~= s.subrange(0, n as int));
        },
        SpecTcpOption::SAck { length, value } => {
            lemma_sack_bytes_of_entries(s.skip(2), sack_count(length));
            assert(option_bytes(o) =~= s.subrange(0, n as int));
        },
        SpecTcpOption::Timestamp { length, value } => {
            lemma_be32_get_u32(s, 2);
            lemma_be32_get_u32(s, 6);
            assert(option_bytes(o) =~= s.subrange(0, n as int));
        },
        _ => {
            assert(option_bytes(o) =~= s.subrange(0, n as int));
        },
    }
}

pub proof fn lemma_options_bytes_len_pos(os: Seq<SpecTcpOption>, i: int)
    requires
        0 <= i < os.len(),
    ensures
        option_bytes(os[i]).len() >= 1,
{
    let o = os[i];
    match o {
        SpecTcpOption::SAck { length, value } => {
            lemma_sack_bytes_len(value);
        },
        _ => {},
    }
}

/// Well-formed options, followed by anything, parse back from the length of their encoding.
pub proof fn lemma_parse_options_bytes(os: Seq<SpecTcpOption>, rest: Seq<u8>)
    requires
        options_wf(os),
    ensures
        parse_options(options_bytes(os) + rest, options_bytes(os).len()) == Ok::<
            Seq<SpecTcpOption>,
            LayerError,
        >(os),
    decreases os.len(),
{
    if os.len() == 0 {
        assert(os =~= Seq::<SpecTcpOption>::empty());
    } else {
        let o = os[0];
        let tail = os.drop_first();
        let b = option_bytes(o);
        let tb = options_bytes(tail);
        assert(options_wf(tail)) by {
            assert forall|i: int| 0 <= i < tail.len() implies option_wf(#[trigger] tail[i]) by {
                assert(tail[i] == os[i + 1]);
            }
        }
        lemma_options_bytes_len_pos(os, 0);
        assert(options_bytes(os) + rest =~= b + (tb + rest));
        lemma_parse_option_bytes(o, tb + rest);
        assert((options_bytes(os) + rest).skip(b.len() as int) =~= tb + rest);
        lemma_parse_options_bytes(tail, rest);
        assert(seq![o] + tail =~= os);
    }
}

/// Options parsed from the first `limit` bytes are well formed and encode to exactly those bytes.
pub proof fn lemma_options_bytes_parse(s: Seq<u8>, limit: nat)
    requires
        parse_options(s, limit) is Ok,
    ensures
        limit <= s.len(),
        options_wf(parse_options(s, limit)->Ok_0),
        options_bytes(parse_options(s, limit)->Ok_0) == s.subrange(0, limit as int),
    decreases limit,
{
    if limit > 0 {
        let (o, n) = parse_option(s)->Ok_0;
        lemma_option_bytes_parse(s);
        let s2 = s.skip(n as int);
        lemma_options_bytes_parse(s2, (limit - n) as nat);
        let os = parse_options(s, limit)->Ok_0;
        let tail = parse_options(s2, (limit - n) as nat)->Ok_0;
        assert(os == seq![o] + tail);
        assert(os.drop_first() =~= tail);
        assert(os[0] == o);
        assert(options_bytes(os) =~= s.subrange(0, limit as int));
        assert forall|i: int| 0 <= i < os.len() implies option_wf(#[trigger] os[i]) by {
            if i > 0 {
                assert(os[i] == tail[i - 1]);
            }
        }
    }
}

/// Encoding the first `i + 1` options extends the encoding of the first `i` by option `i`.
pub proof fn lemma_options_bytes_take(os: Seq<SpecTcpOption>, i: int)
    requires
        0 <= i < os.len(),
    ensures
        options_bytes(os.take(i + 1)) == options_bytes(os.take(i)) + option_bytes(os[i]),
    decreases i,
{
    if i == 0 {
        assert(os.take(1).drop_first() =~= Seq::<SpecTcpOption>::empty());
        assert(os.take(1)[0] == os[0]);
        assert(options_bytes(Seq::<SpecTcpOption>::empty()) =~= Seq::<u8>::empty());
        assert(options_bytes(os.take(1)) =~= option_bytes(os[0]));
        assert(options_bytes(os.take(0)) =~= Seq::<u8>::empty());
    } else {
        let t = os.drop_first();
        lemma_options_bytes_take(t, i - 1);
        assert(os.take(i + 1).drop_first() =~= t.take(i));
        assert(os.take(i).drop_first() =~= t.take(i - 1));
        assert(t[i - 1] == os[i]);
        assert(options_bytes(os.take(i + 1)) =~= options_bytes(os.take(i)) + option_bytes(os[i]));
    }
}

/// Encoding appended options is appending their encodings.
pub proof fn lemma_options_bytes_append(a: Seq<SpecTcpOption>, b: Seq<SpecTcpOption>)
    ensures
        options_bytes(a + b) == options_bytes(a) + options_bytes(b),
    decreases a.len(),
{
    if a.len() == 0 {
        assert(a + b =~= b);
    } else {
        lemma_options_bytes_append(a.drop_first(), b);
        assert((a + b).drop_first() =~= a.drop_first() + b);
        assert(options_bytes(a + b) =~= options_bytes(a) + options_bytes(b));
    }
}

// ---------------------------------------------------------------------------
// Executable parser and serializer

/// Parse one option starting at `pos`.
pub fn parse_option_at(input: &[u8], pos: usize) -> (r: Result<(TcpOption, usize), LayerError>)
    requires
        pos <= input@.len(),
    ensures
        match r {
            Ok((o, n)) => parse_option(input@.skip(pos as int)) == Ok::<
                (SpecTcpOption, nat),
                LayerError,
            >((o@, n as nat)),
            Err(e) => parse_option(input@.skip(pos as int)) == Err::<
                (SpecTcpOption, nat),
                LayerError,
            >(e),
        },
{
    reveal(parse_option);
    let ghost s = input@.skip(pos as int);
    let avail = input.len() - pos;
    if avail < 1 {
        return Err(LayerError::Incomplete(8));
    }
    let kind = input[pos];
    if kind == 0 {
        return Ok((TcpOption::EOL, 1));
    }
    if kind == 1 {
        return Ok((TcpOption::NOP, 1));
    }
    if avail < 2 {
        return Err(LayerError::Incomplete(8));
    }
    let length = input[pos + 1];
    if kind == 2 {
        if avail < 4 {
            return Err(LayerError::Incomplete(16));
        }
        let value = read_u16(input, pos + 2);
        assert(get_u16(input@, pos + 2) == get_u16(s, 2));
        return Ok((TcpOption::MSS { length, value }, 4));
    }
    if kind == 3 {
        if avail < 3 {
            return Err(LayerError::Incomplete(8));
        }
        return Ok((TcpOption::WindowScale { length, value: input[pos + 2] }, 3));
    }
    if kind == 4 {
        return Ok((TcpOption::SAckPermitted { length }, 2));
    }
    if kind == 5 {
        if length < 2 {
            return Err(LayerError::InvalidOptionLength);
        }
        let count = ((length - 2) / 8) as usize;
        if avail < 2 + 8 * count {
            return Err(LayerError::Incomplete(32));
        }
        let mut value: Vec<SAckData> = Vec::new();
        let mut j: usize = 0;
        while j < count
            invariant
                count == sack_count(length),
                s == input@.skip(pos as int),
                pos + 2 + 8 * count <= input.len(),
                j <= count,
                value@ == sack_entries(s.skip(2), count as nat).take(j as int),
            decreases count - j,
        {
            let at = pos + 2 + 8 * j;
            let begin = read_u32(input, at);
            let end = read_u32(input, at + 4);
            assert(get_u32(input@, at as int) == get_u32(s.skip(2), 8 * j));
            assert(get_u32(input@, at + 4) == get_u32(s.skip(2), 8 * j + 4));
            value.push(SAckData { begin, end });
            j = j + 1;
            assert(value@ =~= sack_entries(s.skip(2), count as nat).take(j as int));
        }
        assert(value@ =~= sack_entries(s.skip(2), count as nat));
        return Ok((TcpOption::SAck { length, value }, 2 + 8 * count));
    }
    if kind == 8 {
        if avail < 10 {
            return Err(LayerError::Incomplete(32));
        }
        let start = read_u32(input, pos + 2);
        let end = read_u32(input, pos + 6);
        assert(get_u32(input@, pos + 2) == get_u32(s, 2));
        assert(get_u32(input@, pos + 6) == get_u32(s, 6));
        return Ok((TcpOption::Timestamp { length, value: TimestampData { start, end } }, 10));
    }
    if length < 2 {
        return Err(LayerError::InvalidOptionLength);
    }
    if avail < length as usize {
        return Err(LayerError::Incomplete(8));
    }
    let mut value: Vec<u8> = Vec::new();
    let mut j: usize = 2;
    while j < length as usize
        invariant
            s == input@.skip(pos as int),
            pos + length <= input.len(),
            2 <= j <= length,
            value@ == s.subrange(2, j as int),
        decreases length - j,
    {
        value.push(input[pos + j]);
        j = j + 1;
        assert(value@ =~= s.subrange(2, j as int));
    }
    Ok((TcpOption::Unknown { kind, length, value }, length as usize))
}

/// Parse the options that fill `limit` bytes starting at `start`.
pub fn parse_options_at(input: &[u8], start: usize, limit: usize) -> (r: Result<
    Vec<TcpOption>,
    LayerError,
>)
    requires
        start <= input@.len(),
    ensures
        match r {
            Ok(v) => parse_options(input@.skip(start as int), limit as nat) == Ok::<
                Seq<SpecTcpOption>,
                LayerError,
            >(options_view(v@)),
            Err(e) => parse_options(input@.skip(start as int), limit as nat) == Err::<
                Seq<SpecTcpOption>,
                LayerError,
            >(e),
        },
{
    let mut opts: Vec<TcpOption> = Vec::new();
    let mut used: usize = 0;
    let ghost whole = parse_options(input@.skip(start as int), limit as nat);
    while used < limit
        invariant
            start <= input@.len(),
            used <= limit,
            used <= input.len() - start,
            whole == parse_options(input@.skip(start as int), limit as nat),
            whole == match parse_options(input@.skip(start + used), (limit - used) as nat) {
                Ok(rest) => Ok(options_view(opts@) + rest),
                Err(e) => Err::<Seq<SpecTcpOption>, LayerError>(e),
            },
        decreases limit - used,
    {
        let ghost s = input@.skip(start + used);
        let (o, n) = match parse_option_at(input, start + used) {
            Ok(p) => p,
            Err(e) => {
                assert(input@.skip((start + used) as int) == s);
                return Err(e);
            },
        };
        assert(input@.skip((start + used) as int) == s);
        proof {
            lemma_option_bytes_parse(s);
        }
        if n > limit - used {
            return Err(LayerError::OptionOverrun);
        }
        let ghost before = options_view(opts@);
        opts.push(o);
        used = used + n;
        proof {
            assert(s.skip(n as int) =~= input@.skip(start + used));
            assert(options_view(opts@) =~= before + seq![o@]);
            match parse_options(input@.skip(start + used), (limit - used) as nat) {
                Ok(rest) => {
                    assert(before + (seq![o@] + rest) =~= options_view(opts@) + rest);
                },
                Err(e) => {},
            }
        }
    }
    assert(options_view(opts@) + Seq::<SpecTcpOption>::empty() =~= options_view(opts@));
    Ok(opts)
}

impl TcpOption {
    /// Append the wire bytes of this option.
    pub fn write(&self, out: &mut Vec<u8>)
        ensures
            final(out)@ == old(out)@ + option_bytes(self@),
    {
        let ghost start = out@;
        match self {
            TcpOption::EOL => {
                out.push(0);
            },
            TcpOption::NOP => {
                out.push(1);
            },
            TcpOption::MSS { length, value } => {
                out.push(2);
                out.push(*length);
                push_u16(out, *value);
            },
            TcpOption::WindowScale { length, value } => {
                out.push(3);
                out.push(*length);
                out.push(*value);
            },
            TcpOption::SAckPermitted { length } => {
                out.push(4);
                out.push(*length);
            },
            TcpOption::SAck { length, value } => {
                out.push(5);
                out.push(*length);
                let ghost head = out@;
                let mut j: usize = 0;
                while j < value.len()
                    invariant
                        j <= value@.len(),
                        out@ == head + sack_bytes(value@.take(j as int)),
                    decreases value@.len() - j,
                {
                    proof {
                        lemma_sack_bytes_take(value@, j as int);
                    }
                    push_u32(out, value[j].begin);
                    push_u32(out, value[j].end);
                    j = j + 1;
                }
                assert(value@.take(value@.len() as int) =~= value@);
            },
            TcpOption::Timestamp { length, value } => {
                out.push(8);
                out.push(*length);
                push_u32(out, value.start);
                push_u32(out, value.end);
            },
            TcpOption::Unknown { kind, length, value } => {
                out.push(*kind);
                out.push(*length);
                let ghost head = out@;
                let mut j: usize = 0;
                while j < value.len()
                    invariant
                        j <= value@.len(),
                        out@ == head + value@.take(j as int),
                    decreases value@.len() - j,
                {
                    out.push(value[j]);
                    j = j + 1;
                    assert(out@ =~= head + value@.take(j as int));
                }
                assert(value@.take(value@.len() as int) =~= value@);
            },
        }
        assert(out@ =~= start + option_bytes(self@));
    }
}

/// Encoding the first `j + 1` blocks extends the encoding of the first `j` by block `j`.
pub proof fn lemma_sack_bytes_take(v: Seq<SAckData>, j: int)
    requires
        0 <= j < v.len(),
    ensures
        sack_bytes(v.take(j + 1)) == sack_bytes(v.take(j)) + be32(v[j].begin) + be32(v[j].end),
    decreases j,
{
    if j == 0 {
        assert(v.take(1).drop_first() =~= Seq::<SAckData>::empty());
        assert(v.take(0) =~= Seq::<SAckData>::empty());
        assert(v.take(1)[0] == v[0]);
        assert(sack_bytes(Seq::<SAckData>::empty()) =~= Seq::<u8>::empty());
        assert(sack_bytes(v.take(1)) =~= be32(v[0].begin) + be32(v[0].end));
    } else {
        let t = v.drop_first();
        lemma_sack_bytes_take(t, j - 1);
        assert(v.take(j + 1).drop_first() =~= t.take(j));
        assert(v.take(j).drop_first() =~= t.take(j - 1));
        assert(sack_bytes(v.take(j + 1)) =~= sack_bytes(v.take(j)) + be32(v[j].begin) + be32(
            v[j].end,
        ));
    }
}

/// Append the wire bytes of a list of options.
pub fn write_options(opts: &Vec<TcpOption>, out: &mut Vec<u8>)
    ensures
        final(out)@ == old(out)@ + options_bytes(options_view(opts@)),
{
    let ghost head = out@;
    let ghost os = options_view(opts@);
    let mut i: usize = 0;
    while i < opts.len()
        invariant
            i <= opts@.len(),
            os == options_view(opts@),
            out@ == head + options_bytes(os.take(i as int)),
        decreases opts@.len() - i,
    {
        proof {
            lemma_options_bytes_take(os, i as int);
        }
        opts[i].write(out);
        i = i + 1;
        assert(out@ =~= head + options_bytes(os.take(i as int)));
    }
    assert(os.take(opts@.len() as int) =~= os);
}

} // verus!
