//! Text helpers: splitting, words and prefix tests over the characters of a string.
use vstd::prelude::*;

verus! {

/// The pieces of `s` between occurrences of `sep`, in order.
pub open spec fn split_char(s: Seq<char>, sep: char) -> Seq<Seq<char>>
    decreases s.len(),
{
    if s.len() == 0 {
        seq![Seq::empty()]
    } else {
        let p = split_char(s.drop_last(), sep);
        if s.last() == sep {
            p.push(Seq::empty())
        } else {
            p.update(p.len() - 1, p.last().push(s.last()))
        }
    }
}

pub proof fn lemma_split_char_nonempty(s: Seq<char>, sep: char)
    ensures
        split_char(s, sep).len() >= 1,
    decreases s.len(),
{
    if s.len() > 0 {
        lemma_split_char_nonempty(s.drop_last(), sep);
    }
}

/// Appending a separator and a piece free of separators adds that piece.
pub proof fn lemma_split_char_append(s: Seq<char>, t: Seq<char>, sep: char)
    requires
        forall|i: int| 0 <= i < t.len() ==> t[i] != sep,
    ensures
        split_char(s + seq![sep] + t, sep) == split_char(s, sep).push(t),
    decreases t.len(),
{
    lemma_split_char_nonempty(s, sep);
    let u = s + seq![sep] + t;
    if t.len() == 0 {
        assert(u =~= s.push(sep));
        assert(u.drop_last() =~= s);
        assert(t =~= Seq::<char>::empty());
    } else {
        let t0 = t.drop_last();
        assert forall|i: int| 0 <= i < t0.len() implies t0[i] != sep by {
            assert(t0[i] == t[i]);
        }
        lemma_split_char_append(s, t0, sep);
        assert(u.drop_last() =~= s + seq![sep] + t0);
        assert(t[t.len() - 1] != sep);
        assert(u.last() == t.last());
        let p = split_char(s, sep).push(t0);
        assert(p.last() == t0);
        assert(t0.push(t.last()) =~= t);
        assert(p.update(p.len() - 1, t) =~= split_char(s, sep).push(t));
    }
}

/// A piece free of separators splits into itself.
pub proof fn lemma_split_char_plain(t: Seq<char>, sep: char)
    requires
        forall|i: int| 0 <= i < t.len() ==> t[i] != sep,
    ensures
        split_char(t, sep) == seq![t],
    decreases t.len(),
{
    if t.len() == 0 {
        assert(t =~= Seq::<char>::empty());
    } else {
        let t0 = t.drop_last();
        assert forall|i: int| 0 <= i < t0.len() implies t0[i] != sep by {
            assert(t0[i] == t[i]);
        }
        lemma_split_char_plain(t0, sep);
        assert(t[t.len() - 1] != sep);
        let p = split_char(t0, sep);
        assert(p.last() == t0);
        assert(t0.push(t.last()) =~= t);
        assert(p.update(0, t) =~= seq![t]);
    }
}

/// Whether `c` is white space in the sense of Unicode's `White_Space` property.
pub open spec fn is_white(c: char) -> bool {
    ||| c == ' '
    ||| ('\t' <= c && c <= '\r')
    ||| c == '\u{85}'
    ||| c == '\u{a0}'
    ||| c == '\u{1680}'
    ||| ('\u{2000}' <= c && c <= '\u{200a}')
    ||| c == '\u{2028}'
    ||| c == '\u{2029}'
    ||| c == '\u{202f}'
    ||| c == '\u{205f}'
    ||| c == '\u{3000}'
}

/// Scanning `s` from the left: the words completed so far and the word being read.
pub open spec fn word_scan(s: Seq<char>) -> (Seq<Seq<char>>, Seq<char>)
    decreases s.len(),
{
    if s.len() == 0 {
        (Seq::empty(), Seq::empty())
    } else {
        let (ws, cur) = word_scan(s.drop_last());
        if is_white(s.last()) {
            if cur.len() > 0 {
                (ws.push(cur), Seq::empty())
            } else {
                (ws, cur)
            }
        } else {
            (ws, cur.push(s.last()))
        }
    }
}

/// The words of `s`: its maximal runs of characters that are not white space, in order.
pub open spec fn words(s: Seq<char>) -> Seq<Seq<char>> {
    let (ws, cur) = word_scan(s);
    if cur.len() > 0 {
        ws.push(cur)
    } else {
        ws
    }
}

/// Whether `s` begins with `prefix`.
pub open spec fn starts_with(s: Seq<char>, prefix: Seq<char>) -> bool {
    prefix.len() <= s.len() && s.subrange(0, prefix.len() as int) == prefix
}

/// Whether `s` ends with `suffix`.
pub open spec fn ends_with(s: Seq<char>, suffix: Seq<char>) -> bool {
    suffix.len() <= s.len() && s.subrange(s.len() - suffix.len(), s.len() as int) == suffix
}

/// Whether `c` is white space.
pub fn char_is_white(c: char) -> (r: bool)
    ensures
        r == is_white(c),
{
    c == ' ' || ('\t' <= c && c <= '\r') || c == '\u{85}' || c == '\u{a0}' || c == '\u{1680}' || (
    '\u{2000}' <= c && c <= '\u{200a}') || c == '\u{2028}' || c == '\u{2029}' || c == '\u{202f}'
        || c == '\u{205f}' || c == '\u{3000}'
}

/// The characters of a string.
pub fn chars_of(s: &str) -> (r: Vec<char>)
    ensures
        r@ == s@,
{
    broadcast use vstd::string::axiom_spec_iter;

    let mut out: Vec<char> = Vec::new();
    for c in it: s.chars()
        invariant
            it.seq() == s@,
            out@ == it.seq().take(it.index() as int),
    {
        out.push(c);
    }
    out
}

/// Whether the characters `v` begin with the characters of `prefix`, ignoring the last `drop`
/// characters of `prefix`.
pub fn chars_start_with(v: &[char], prefix: &[char], drop: usize) -> (r: bool)
    requires
        drop <= prefix@.len(),
    ensures
        r == starts_with(v@, prefix@.subrange(0, prefix@.len() - drop)),
{
    let m = prefix.len() - drop;
    if m > v.len() {
        return false;
    }
    let mut i: usize = 0;
    while i < m
        invariant
            m == prefix@.len() - drop,
            m <= v@.len(),
            i <= m,
            forall|j: int| 0 <= j < i ==> v@[j] == prefix@[j],
        decreases m - i,
    {
        if v[i] != prefix[i] {
            assert(v@.subrange(0, m as int)[i as int] != prefix@.subrange(0, m as int)[i as int]);
            return false;
        }
        i = i + 1;
    }
    assert(v@.subrange(0, m as int) =~= prefix@.subrange(0, prefix@.len() - drop));
    true
}

/// Whether the characters `v` end with the characters `suffix`.
pub fn chars_end_with(v: &[char], suffix: &[char]) -> (r: bool)
    ensures
        r == ends_with(v@, suffix@),
{
    let n = v.len();
    let m = suffix.len();
    if m > n {
        return false;
    }
    let start = n - m;
    let mut i: usize = 0;
    while i < m
        invariant
            n == v@.len(),
            m == suffix@.len(),
            m <= n,
            start == n - m,
            i <= m,
            forall|j: int| 0 <= j < i ==> v@[start + j] == suffix@[j],
        decreases m - i,
    {
        if v[start + i] != suffix[i] {
            assert(v@.subrange(start as int, n as int)[i as int] != suffix@[i as int]);
            return false;
        }
        i = i + 1;
    }
    assert(v@.subrange(start as int, n as int) =~= suffix@);
    true
}

/// Whether two character sequences are equal.
pub fn chars_eq(a: &[char], b: &[char]) -> (r: bool)
    ensures
        r == (a@ == b@),
{
    if a.len() != b.len() {
        return false;
    }
    let r = chars_start_with(a, b, 0);
    proof {
        assert(b@.subrange(0, b@.len() - 0) =~= b@);
        if r {
            assert(a@ =~= a@.subrange(0, b@.len() as int));
        }
    }
    r
}

/// The words of the characters `v`: its maximal runs of characters that are not white space.
pub fn words_of(v: &[char]) -> (r: Vec<Vec<char>>)
    ensures
        r@.map_values(|w: Vec<char>| w@) == words(v@),
{
    let mut done: Vec<Vec<char>> = Vec::new();
    let mut current: Vec<char> = Vec::new();
    let mut i: usize = 0;
    while i < v.len()
        invariant
            i <= v@.len(),
            (done@.map_values(|w: Vec<char>| w@), current@) == word_scan(v@.take(i as int)),
        decreases v@.len() - i,
    {
        let c = v[i];
        let ghost before = done@.map_values(|w: Vec<char>| w@);
        proof {
            assert(v@.take(i + 1).drop_last() =~= v@.take(i as int));
        }
        if char_is_white(c) {
            if current.len() > 0 {
                let finished = current;
                done.push(finished);
                current = Vec::new();
                assert(done@.map_values(|w: Vec<char>| w@) =~= before.push(finished@));
            }
        } else {
            current.push(c);
        }
        i = i + 1;
    }
    assert(v@.take(v@.len() as int) =~= v@);
    let ghost ws = done@.map_values(|w: Vec<char>| w@);
    if current.len() > 0 {
        let last = current;
        done.push(last);
        assert(done@.map_values(|w: Vec<char>| w@) =~= ws.push(last@));
    }
    done
}

/// The pieces of the characters `v` between occurrences of `sep`.
pub fn split_on(v: &[char], sep: char) -> (r: Vec<Vec<char>>)
    ensures
        r@.map_values(|p: Vec<char>| p@) == split_char(v@, sep),
{
    let mut done: Vec<Vec<char>> = Vec::new();
    let mut current: Vec<char> = Vec::new();
    let mut i: usize = 0;
    while i < v.len()
        invariant
            i <= v@.len(),
            done@.map_values(|p: Vec<char>| p@).push(current@) == split_char(
                v@.take(i as int),
                sep,
            ),
        decreases v@.len() - i,
    {
        let c = v[i];
        let ghost before = done@.map_values(|p: Vec<char>| p@).push(current@);
        proof {
            assert(v@.take(i + 1).drop_last() =~= v@.take(i as int));
            lemma_split_char_nonempty(v@.take(i as int), sep);
        }
        if c == sep {
            let finished = current;
            done.push(finished);
            current = Vec::new();
            assert(done@.map_values(|p: Vec<char>| p@).push(current@) =~= before.push(
                Seq::empty(),
            ));
        } else {
            current.push(c);
            assert(done@.map_values(|p: Vec<char>| p@).push(current@) =~= before.update(
                before.len() - 1,
                before.last().push(c),
            ));
        }
        i = i + 1;
    }
    assert(v@.take(v@.len() as int) =~= v@);
    let last = current;
    let ghost ps = done@.map_values(|p: Vec<char>| p@);
    done.push(last);
    assert(done@.map_values(|p: Vec<char>| p@) =~= ps.push(last@));
    done
}

/// Append a character to a string: `String::push`, which appends `c` to the end of `s`.
#[verifier::external_body]
fn push_char(s: &mut String, c: char)
    ensures
        final(s)@ == old(s)@.push(c),
{
    s.push(c);
}

/// The characters of `v` as a string.
pub fn string_of(v: &[char]) -> (r: String)
    ensures
        r@ == v@,
{
    let mut out = String::new();
    let mut i: usize = 0;
    while i < v.len()
        invariant
            i <= v@.len(),
            out@ == v@.take(i as int),
        decreases v@.len() - i,
    {
        push_char(&mut out, v[i]);
        i = i + 1;
        assert(out@ =~= v@.take(i as int));
    }
    assert(v@.take(v@.len() as int) =~= v@);
    out
}

/// The lines of the characters `v`: its pieces between newline characters.
pub fn lines_of(v: &[char]) -> (r: Vec<Vec<char>>)
    ensures
        r@.map_values(|p: Vec<char>| p@) == split_char(v@, '\n'),
{
    split_on(v, '\n')
}

/// Lexicographic order of character sequences by code point: `a` comes before `b`. This is the
/// order of Rust's `String`s.
pub open spec fn text_lt(a: Seq<char>, b: Seq<char>) -> bool
    decreases a.len(),
{
    if a.len() == 0 {
        b.len() > 0
    } else if b.len() == 0 {
        false
    } else if a[0] != b[0] {
        a[0] < b[0]
    } else {
        text_lt(a.drop_first(), b.drop_first())
    }
}

/// No text comes before itself.
pub proof fn lemma_text_lt_irreflexive(a: Seq<char>)
    ensures
        !text_lt(a, a),
    decreases a.len(),
{
    if a.len() > 0 {
        lemma_text_lt_irreflexive(a.drop_first());
    }
}

/// Of two different texts, one comes before the other.
pub proof fn lemma_text_lt_total(a: Seq<char>, b: Seq<char>)
    ensures
        a == b || text_lt(a, b) || text_lt(b, a),
    decreases a.len(),
{
    if a.len() > 0 && b.len() > 0 {
        if a[0] == b[0] {
            lemma_text_lt_total(a.drop_first(), b.drop_first());
            if a.drop_first() == b.drop_first() {
                assert(a =~= seq![a[0]] + a.drop_first());
                assert(b =~= seq![b[0]] + b.drop_first());
            }
        } else {
        }
    } else if a.len() == 0 && b.len() == 0 {
        assert(a =~= b);
    }
}

/// The order is transitive.
pub proof fn lemma_text_lt_transitive(a: Seq<char>, b: Seq<char>, c: Seq<char>)
    requires
        text_lt(a, b),
        text_lt(b, c),
    ensures
        text_lt(a, c),
    decreases a.len(),
{
    if a.len() > 0 && b.len() > 0 && c.len() > 0 && a[0] == b[0] && b[0] == c[0] {
        lemma_text_lt_transitive(a.drop_first(), b.drop_first(), c.drop_first());
    }
}

/// Whether the characters `a` come before the characters `b`.
pub fn chars_lt(a: &[char], b: &[char]) -> (r: bool)
    ensures
        r == text_lt(a@, b@),
{
    let mut i: usize = 0;
    assert(a@.skip(0) =~= a@ && b@.skip(0) =~= b@);
    while i < a.len() && i < b.len()
        invariant
            i <= a@.len(),
            i <= b@.len(),
            text_lt(a@, b@) == text_lt(a@.skip(i as int), b@.skip(i as int)),
        decreases a@.len() - i,
    {
        let ghost sa = a@.skip(i as int);
        let ghost sb = b@.skip(i as int);
        assert(sa[0] == a@[i as int] && sb[0] == b@[i as int]);
        if a[i] != b[i] {
            return a[i] < b[i];
        }
        assert(sa.drop_first() =~= a@.skip(i + 1));
        assert(sb.drop_first() =~= b@.skip(i + 1));
        i = i + 1;
    }
    i == a.len() && i < b.len()
}

} // verus!
