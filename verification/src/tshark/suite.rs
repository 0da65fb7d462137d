//! Running a suite of captures against TShark: the expectations file, which captures run, how
//! each outcome is scored, and the exit code.
use crate::text::{chars_eq, chars_of, lines_of, split_char, string_of, words, words_of};
use vstd::prelude::*;

verus! {

/// The expected result of comparing one capture.
#[derive(Debug, Clone, Copy, PartialEq, Eq, Structural)]
pub enum ExpectedStatus {
    /// The comparison must match.
    Pass,
    /// The comparison is known not to match.
    Xfail,
    /// The capture is not compared.
    Skip,
}

/// Why an expectations file was refused.
#[derive(Debug, Clone, PartialEq, Eq)]
pub enum ExpectationsError {
    /// A line that is not blank, not a comment, and not a capture name and a status; the line
    /// number, counted from one.
    InvalidLine(usize),
    /// A status other than `pass`, `xfail` and `skip`; the status and the line number.
    InvalidStatus(String, usize),
    /// A capture named on two lines.
    Duplicate(String),
}

/// The mathematical value of an [`ExpectationsError`].
pub enum SpecExpectationsError {
    InvalidLine(usize),
    InvalidStatus(Seq<char>, usize),
    Duplicate(Seq<char>),
}

impl View for ExpectationsError {
    type V = SpecExpectationsError;

    open spec fn view(&self) -> SpecExpectationsError {
        match self {
            ExpectationsError::InvalidLine(n) => SpecExpectationsError::InvalidLine(*n),
            ExpectationsError::InvalidStatus(s, n) => SpecExpectationsError::InvalidStatus(s@, *n),
            ExpectationsError::Duplicate(s) => SpecExpectationsError::Duplicate(s@),
        }
    }
}

/// The status a word names.
pub open spec fn status_of(w: Seq<char>) -> Option<ExpectedStatus> {
    if w == "pass"@ {
        Some(ExpectedStatus::Pass)
    } else if w == "xfail"@ {
        Some(ExpectedStatus::Xfail)
    } else if w == "skip"@ {
        Some(ExpectedStatus::Skip)
    } else {
        None
    }
}

/// What one line of an expectations file says: nothing for a blank line or a comment (a line
/// whose first word begins with `#`), else a capture name and its status, which must be the
/// line's only two words.
pub open spec fn line_entry(line: Seq<char>, number: usize) -> Result<
    Option<(Seq<char>, ExpectedStatus)>,
    SpecExpectationsError,
> {
    let ws = words(line);
    if ws.len() == 0 || (ws[0].len() > 0 && ws[0][0] == '#') {
        Ok(None)
    } else if ws.len() != 2 {
        Err(SpecExpectationsError::InvalidLine(number))
    } else {
        match status_of(ws[1]) {
            None => Err(SpecExpectationsError::InvalidStatus(ws[1], number)),
            Some(st) => Ok(Some((ws[0], st))),
        }
    }
}

/// Whether a capture name occurs among the entries.
pub open spec fn has_name(es: Seq<(Seq<char>, ExpectedStatus)>, name: Seq<char>) -> bool {
    exists|i: int| 0 <= i < es.len() && (#[trigger] es[i]).0 == name
}

/// The entries of the lines, in order; the first error met, reading from the first line.
pub open spec fn parse_lines(lines: Seq<Seq<char>>) -> Result<
    Seq<(Seq<char>, ExpectedStatus)>,
    SpecExpectationsError,
>
    decreases lines.len(),
{
    if lines.len() == 0 {
        Ok(Seq::empty())
    } else {
        match parse_lines(lines.drop_last()) {
            Err(e) => Err(e),
            Ok(es) => match line_entry(lines.last(), lines.len() as usize) {
                Err(e) => Err(e),
                Ok(None) => Ok(es),
                Ok(Some((name, st))) => if has_name(es, name) {
                    Err(SpecExpectationsError::Duplicate(name))
                } else {
                    Ok(es.push((name, st)))
                },
            },
        }
    }
}

/// An error on the first lines is the error of the whole file.
proof fn lemma_parse_lines_error(ls: Seq<Seq<char>>, k: int)
    requires
        0 <= k <= ls.len(),
        parse_lines(ls.take(k)) is Err,
    ensures
        parse_lines(ls) == parse_lines(ls.take(k)),
    decreases ls.len() - k,
{
    if k < ls.len() {
        assert(ls.take(k + 1).drop_last() =~= ls.take(k));
        assert(parse_lines(ls.take(k + 1)) == parse_lines(ls.take(k)));
        lemma_parse_lines_error(ls, k + 1);
    } else {
        assert(ls.take(k) =~= ls);
    }
}

/// The entries of an expectations file: the lines are its pieces between newlines.
pub open spec fn spec_parse_expectations(text: Seq<char>) -> Result<
    Seq<(Seq<char>, ExpectedStatus)>,
    SpecExpectationsError,
> {
    parse_lines(split_char(text, '\n'))
}

/// The values of parsed entries.
pub open spec fn entries_view(es: Seq<(String, ExpectedStatus)>) -> Seq<(Seq<char>, ExpectedStatus)> {
    es.map_values(|e: (String, ExpectedStatus)| (e.0@, e.1))
}

fn status_word(w: &Vec<char>) -> (r: Option<ExpectedStatus>)
    ensures
        r == status_of(w@),
{
    let pass = chars_of("pass");
    let xfail = chars_of("xfail");
    let skip = chars_of("skip");
    if chars_eq(w, &pass) {
        Some(ExpectedStatus::Pass)
    } else if chars_eq(w, &xfail) {
        Some(ExpectedStatus::Xfail)
    } else if chars_eq(w, &skip) {
        Some(ExpectedStatus::Skip)
    } else {
        None
    }
}

fn contains_name(es: &Vec<(Vec<char>, ExpectedStatus)>, name: &Vec<char>) -> (r: bool)
    ensures
        r == has_name(es@.map_values(|e: (Vec<char>, ExpectedStatus)| (e.0@, e.1)), name@),
{
    let ghost v = es@.map_values(|e: (Vec<char>, ExpectedStatus)| (e.0@, e.1));
    let mut i: usize = 0;
    while i < es.len()
        invariant
            i <= es@.len(),
            v == es@.map_values(|e: (Vec<char>, ExpectedStatus)| (e.0@, e.1)),
            forall|j: int| 0 <= j < i ==> (#[trigger] v[j]).0 != name@,
        decreases es@.len() - i,
    {
        if chars_eq(&es[i].0, name) {
            assert(v[i as int].0 == name@);
            return true;
        }
        i = i + 1;
    }
    false
}

/// Parse an expectations file: on each line a capture name and its status (`pass`, `xfail` or
/// `skip`), separated by white space; blank lines and lines beginning with `#` are skipped.
pub fn parse_expectations(contents: &str) -> (r: Result<
    Vec<(String, ExpectedStatus)>,
    ExpectationsError,
>)
    ensures
        match r {
            Ok(es) => spec_parse_expectations(contents@) == Ok::<
                Seq<(Seq<char>, ExpectedStatus)>,
                SpecExpectationsError,
            >(entries_view(es@)),
            Err(e) => spec_parse_expectations(contents@) == Err::<
                Seq<(Seq<char>, ExpectedStatus)>,
                SpecExpectationsError,
            >(e@),
        },
{
    let text = chars_of(contents);
    let lines = lines_of(&text);
    let ghost ls = lines@.map_values(|p: Vec<char>| p@);
    let mut acc: Vec<(Vec<char>, ExpectedStatus)> = Vec::new();
    let mut i: usize = 0;
    assert(ls.take(0) =~= Seq::<Seq<char>>::empty());
    assert(acc@.map_values(|e: (Vec<char>, ExpectedStatus)| (e.0@, e.1)) =~= Seq::<
        (Seq<char>, ExpectedStatus),
    >::empty());
    while i < lines.len()
        invariant
            ls == lines@.map_values(|p: Vec<char>| p@),
            ls == split_char(contents@, '\n'),
            i <= lines@.len(),
            parse_lines(ls.take(i as int)) == Ok::<
                Seq<(Seq<char>, ExpectedStatus)>,
                SpecExpectationsError,
            >(acc@.map_values(|e: (Vec<char>, ExpectedStatus)| (e.0@, e.1))),
        decreases lines@.len() - i,
    {
        let ghost before = acc@.map_values(|e: (Vec<char>, ExpectedStatus)| (e.0@, e.1));
        proof {
            assert(ls.take(i + 1).drop_last() =~= ls.take(i as int));
            assert(ls.take(i + 1).last() == ls[i as int]);
        }
        let ws = words_of(&lines[i]);
        let ghost wv = ws@.map_values(|w: Vec<char>| w@);
        let number = i + 1;
        if ws.len() == 0 || (ws[0].len() > 0 && ws[0][0] == '#') {
            assert(ws.len() > 0 ==> wv[0] == ws@[0]@);
        } else if ws.len() != 2 {
            proof {
                lemma_parse_lines_error(ls, i + 1);
            }
            return Err(ExpectationsError::InvalidLine(number));
        } else {
            assert(wv[0] == ws@[0]@ && wv[1] == ws@[1]@);
            match status_word(&ws[1]) {
                None => {
                    proof {
                        lemma_parse_lines_error(ls, i + 1);
                    }
                    return Err(ExpectationsError::InvalidStatus(string_of(&ws[1]), number));
                },
                Some(st) => {
                    let name = ws[0].clone();
                    assert(name@ == ws@[0]@);
                    if contains_name(&acc, &name) {
                        proof {
                            lemma_parse_lines_error(ls, i + 1);
                        }
                        return Err(ExpectationsError::Duplicate(string_of(&name)));
                    }
                    acc.push((name, st));
                    assert(acc@.map_values(|e: (Vec<char>, ExpectedStatus)| (e.0@, e.1)) =~= before.push(
                        (ws@[0]@, st),
                    ));
                },
            }
        }
        i = i + 1;
    }
    assert(ls.take(lines@.len() as int) =~= ls);
    let ghost total = acc@.map_values(|e: (Vec<char>, ExpectedStatus)| (e.0@, e.1));
    let mut out: Vec<(String, ExpectedStatus)> = Vec::new();
    let mut k: usize = 0;
    while k < acc.len()
        invariant
            k <= acc@.len(),
            total == acc@.map_values(|e: (Vec<char>, ExpectedStatus)| (e.0@, e.1)),
            entries_view(out@) == total.take(k as int),
        decreases acc@.len() - k,
    {
        let ghost prev = out@;
        let s = string_of(&acc[k].0);
        out.push((s, acc[k].1));
        assert(out@ =~= prev.push((s, acc@[k as int].1)));
        assert(total[k as int] == (acc@[k as int].0@, acc@[k as int].1));
        assert(entries_view(out@) =~= entries_view(prev).push((s@, acc@[k as int].1)));
        assert(total.take(k + 1) =~= total.take(k as int).push(total[k as int]));
        k = k + 1;
        assert(entries_view(out@) =~= total.take(k as int));
    }
    assert(total.take(acc@.len() as int) =~= total);
    Ok(out)
}

/// The entries named `n`, in order.
pub open spec fn named(es: Seq<(Seq<char>, ExpectedStatus)>, n: Seq<char>) -> Seq<
    (Seq<char>, ExpectedStatus),
>
    decreases es.len(),
{
    if es.len() == 0 {
        Seq::empty()
    } else {
        let rest = named(es.drop_last(), n);
        if es.last().0 == n {
            rest.push(es.last())
        } else {
            rest
        }
    }
}

/// Why a run selected no capture.
#[derive(Debug, Clone, PartialEq, Eq)]
pub enum SelectError {
    /// The capture asked for has no expectation.
    UnknownCapture(String),
    /// The expectations name no capture.
    NoCaptures,
}

/// The mathematical value of a [`SelectError`].
pub enum SpecSelectError {
    UnknownCapture(Seq<char>),
    NoCaptures,
}

impl View for SelectError {
    type V = SpecSelectError;

    open spec fn view(&self) -> SpecSelectError {
        match self {
            SelectError::UnknownCapture(s) => SpecSelectError::UnknownCapture(s@),
            SelectError::NoCaptures => SpecSelectError::NoCaptures,
        }
    }
}

/// The entries a run compares: all of them, or those named `only`; a run must compare some.
pub open spec fn spec_select(es: Seq<(Seq<char>, ExpectedStatus)>, only: Option<Seq<char>>) -> Result<
    Seq<(Seq<char>, ExpectedStatus)>,
    SpecSelectError,
> {
    let s = match only {
        None => es,
        Some(n) => named(es, n),
    };
    if s.len() > 0 {
        Ok(s)
    } else {
        match only {
            Some(n) => Err(SpecSelectError::UnknownCapture(n)),
            None => Err(SpecSelectError::NoCaptures),
        }
    }
}

/// The value of an optional string.
pub open spec fn opt_str_view(o: Option<&str>) -> Option<Seq<char>> {
    match o {
        Some(s) => Some(s@),
        None => None,
    }
}

/// Select the entries a run compares: all of them, or only the one named `only`.
pub fn select_captures(entries: &[(String, ExpectedStatus)], only: Option<&str>) -> (r: Result<
    Vec<(String, ExpectedStatus)>,
    SelectError,
>)
    ensures
        match r {
            Ok(v) => spec_select(entries_view(entries@), opt_str_view(only)) == Ok::<
                Seq<(Seq<char>, ExpectedStatus)>,
                SpecSelectError,
            >(entries_view(v@)),
            Err(e) => spec_select(entries_view(entries@), opt_str_view(only)) == Err::<
                Seq<(Seq<char>, ExpectedStatus)>,
                SpecSelectError,
            >(e@),
        },
{
    let ghost es = entries_view(entries@);
    let mut out: Vec<(String, ExpectedStatus)> = Vec::new();
    let mut i: usize = 0;
    let wanted: Option<Vec<char>> = match only {
        Some(o) => Some(chars_of(o)),
        None => None,
    };
    while i < entries.len()
        invariant
            i <= entries@.len(),
            es == entries_view(entries@),
            match only {
                Some(o) => wanted matches Some(w) && w@ == o@,
                None => wanted is None,
            },
            entries_view(out@) == match only {
                None => es.take(i as int),
                Some(o) => named(es.take(i as int), o@),
            },
        decreases entries@.len() - i,
    {
        let ghost prev = out@;
        proof {
            assert(es.take(i + 1).drop_last() =~= es.take(i as int));
            assert(es.take(i + 1).last() == es[i as int]);
        }
        let keep = match &wanted {
            None => true,
            Some(w) => {
                let name = chars_of(entries[i].0.as_str());
                chars_eq(&name, w)
            },
        };
        if keep {
            out.push((entries[i].0.clone(), entries[i].1));
            assert(entries_view(out@) =~= entries_view(prev).push(es[i as int]));
        }
        i = i + 1;
    }
    assert(es.take(entries@.len() as int) =~= es);
    if out.len() > 0 {
        Ok(out)
    } else {
        match only {
            Some(o) => Err(SelectError::UnknownCapture(o.to_owned())),
            None => Err(SelectError::NoCaptures),
        }
    }
}

/// What comparing one capture came to.
#[derive(Debug, Clone, PartialEq, Eq)]
pub enum Observed {
    /// Both sides produced the same JSON.
    Pass,
    /// The packets of the capture could not be rendered; the reason.
    NataFailed(String),
    /// TShark's JSON could not be had; the reason.
    TsharkFailed(String),
    /// Both sides produced JSON, and it differs.
    Mismatch,
}

/// What comparing one capture came to, given whether each side produced its JSON and whether
/// the two agree.
pub fn observe(nata: Result<(), String>, tshark: Result<(), String>, same: bool) -> (r: Observed)
    ensures
        r == match (nata, tshark) {
            (Err(e), _) => Observed::NataFailed(e),
            (Ok(_), Err(e)) => Observed::TsharkFailed(e),
            (Ok(_), Ok(_)) => if same {
                Observed::Pass
            } else {
                Observed::Mismatch
            },
        },
{
    match (nata, tshark) {
        (Err(e), _) => Observed::NataFailed(e),
        (Ok(_), Err(e)) => Observed::TsharkFailed(e),
        (Ok(_), Ok(_)) => if same {
            Observed::Pass
        } else {
            Observed::Mismatch
        },
    }
}

/// How one capture is scored.
#[derive(Debug, Clone, Copy, PartialEq, Eq, Structural)]
pub enum CaseOutcome {
    /// Expected to pass, and passed.
    Pass,
    /// Expected to pass, and failed.
    Fail,
    /// Expected to fail, and passed.
    Xpass,
    /// Expected to fail, and failed.
    Xfail,
    /// Not compared.
    Skip,
}

/// The score of a capture with expectation `expected` whose comparison passed or not.
pub open spec fn spec_case_outcome(expected: ExpectedStatus, passed: bool) -> CaseOutcome {
    match expected {
        ExpectedStatus::Skip => CaseOutcome::Skip,
        ExpectedStatus::Pass => if passed {
            CaseOutcome::Pass
        } else {
            CaseOutcome::Fail
        },
        ExpectedStatus::Xfail => if passed {
            CaseOutcome::Xpass
        } else {
            CaseOutcome::Xfail
        },
    }
}

/// Score a capture: a skipped capture is skipped, whatever was observed.
pub fn case_outcome(expected: ExpectedStatus, observed: &Observed) -> (r: CaseOutcome)
    ensures
        r == spec_case_outcome(expected, *observed == Observed::Pass),
{
    let passed = match observed {
        Observed::Pass => true,
        _ => false,
    };
    match expected {
        ExpectedStatus::Skip => CaseOutcome::Skip,
        ExpectedStatus::Pass => if passed {
            CaseOutcome::Pass
        } else {
            CaseOutcome::Fail
        },
        ExpectedStatus::Xfail => if passed {
            CaseOutcome::Xpass
        } else {
            CaseOutcome::Xfail
        },
    }
}

/// The number of captures of each score in a suite run.
#[derive(Debug, Default, Clone, Copy, PartialEq, Eq, Structural)]
pub struct SuiteCounts {
    pub pass: usize,
    pub xfail: usize,
    pub skip: usize,
    pub fail: usize,
    pub xpass: usize,
    /// Captures that no expectation classified; a run scores every capture it selects.
    pub unclassified: usize,
}

/// The number of outcomes equal to `k`.
pub open spec fn count_outcome(os: Seq<CaseOutcome>, k: CaseOutcome) -> nat
    decreases os.len(),
{
    if os.len() == 0 {
        0
    } else {
        count_outcome(os.drop_last(), k) + if os.last() == k {
            1nat
        } else {
            0nat
        }
    }
}

proof fn lemma_count_outcome_bound(os: Seq<CaseOutcome>, k: CaseOutcome)
    ensures
        count_outcome(os, k) <= os.len(),
    decreases os.len(),
{
    if os.len() > 0 {
        lemma_count_outcome_bound(os.drop_last(), k);
    }
}

/// Count the outcomes of a run by score.
pub fn tally(outcomes: &[CaseOutcome]) -> (r: SuiteCounts)
    ensures
        r.pass == count_outcome(outcomes@, CaseOutcome::Pass),
        r.xfail == count_outcome(outcomes@, CaseOutcome::Xfail),
        r.skip == count_outcome(outcomes@, CaseOutcome::Skip),
        r.fail == count_outcome(outcomes@, CaseOutcome::Fail),
        r.xpass == count_outcome(outcomes@, CaseOutcome::Xpass),
        r.unclassified == 0,
{
    let mut c = SuiteCounts { pass: 0, xfail: 0, skip: 0, fail: 0, xpass: 0, unclassified: 0 };
    let mut i: usize = 0;
    while i < outcomes.len()
        invariant
            i <= outcomes@.len(),
            c.pass == count_outcome(outcomes@.take(i as int), CaseOutcome::Pass),
            c.xfail == count_outcome(outcomes@.take(i as int), CaseOutcome::Xfail),
            c.skip == count_outcome(outcomes@.take(i as int), CaseOutcome::Skip),
            c.fail == count_outcome(outcomes@.take(i as int), CaseOutcome::Fail),
            c.xpass == count_outcome(outcomes@.take(i as int), CaseOutcome::Xpass),
            c.unclassified == 0,
        decreases outcomes@.len() - i,
    {
        proof {
            assert(outcomes@.take(i + 1).drop_last() =~= outcomes@.take(i as int));
            lemma_count_outcome_bound(outcomes@.take(i as int), outcomes@[i as int]);
        }
        match outcomes[i] {
            CaseOutcome::Pass => c.pass = c.pass + 1,
            CaseOutcome::Xfail => c.xfail = c.xfail + 1,
            CaseOutcome::Skip => c.skip = c.skip + 1,
            CaseOutcome::Fail => c.fail = c.fail + 1,
            CaseOutcome::Xpass => c.xpass = c.xpass + 1,
        }
        i = i + 1;
    }
    assert(outcomes@.take(outcomes@.len() as int) =~= outcomes@);
    c
}

/// The exit code of a suite run: 0 when no capture failed, passed unexpectedly or went
/// unclassified, 1 otherwise.
pub fn suite_exit_code(counts: &SuiteCounts) -> (r: i32)
    ensures
        r == if counts.fail == 0 && counts.xpass == 0 && counts.unclassified == 0 {
            0i32
        } else {
            1i32
        },
{
    if counts.fail == 0 && counts.xpass == 0 && counts.unclassified == 0 {
        0
    } else {
        1
    }
}

/// No outcome is `k` exactly when `k` is counted zero times.
proof fn lemma_count_outcome_zero(os: Seq<CaseOutcome>, k: CaseOutcome)
    ensures
        (count_outcome(os, k) == 0) == (forall|i: int| 0 <= i < os.len() ==> os[i] != k),
    decreases os.len(),
{
    if os.len() > 0 {
        lemma_count_outcome_zero(os.drop_last(), k);
        if count_outcome(os, k) == 0 {
            assert forall|i: int| 0 <= i < os.len() implies os[i] != k by {
                if i < os.len() - 1 {
                    assert(os.drop_last()[i] == os[i]);
                }
            }
        } else if os.last() != k {
            let j = choose|j: int| 0 <= j < os.len() - 1 && os.drop_last()[j] == k;
            assert(os[j] == k);
        }
    }
}

/// A suite run exits with 0 exactly when every capture it compared met its expectation: none
/// failed and none passed against the expectation.
pub proof fn lemma_suite_exit_code(outcomes: Seq<CaseOutcome>, counts: SuiteCounts)
    requires
        counts.fail == count_outcome(outcomes, CaseOutcome::Fail),
        counts.xpass == count_outcome(outcomes, CaseOutcome::Xpass),
        counts.unclassified == 0,
    ensures
        (counts.fail == 0 && counts.xpass == 0 && counts.unclassified == 0) == (forall|i: int|
            0 <= i < outcomes.len() ==> outcomes[i] != CaseOutcome::Fail && outcomes[i]
                != CaseOutcome::Xpass),
{
    lemma_count_outcome_zero(outcomes, CaseOutcome::Fail);
    lemma_count_outcome_zero(outcomes, CaseOutcome::Xpass);
}

/// Why a capture name was refused.
#[derive(Debug, Clone, Copy, PartialEq, Eq, Structural)]
pub enum CaptureNameError {
    /// The name is empty or an absolute path.
    Invalid,
    /// The path reaches outside the captures directory through a `..` component.
    Escapes,
}

/// Whether a capture name may be used: not empty, not absolute, and no `..` component in it or
/// (as `dir_has_parent` says) in the checkout directory.
pub open spec fn spec_check_capture_name(name: Seq<char>, dir_has_parent: bool) -> Result<
    (),
    CaptureNameError,
> {
    if name.len() == 0 || name[0] == '/' {
        Err(CaptureNameError::Invalid)
    } else if dir_has_parent || split_char(name, '/').contains(".."@) {
        Err(CaptureNameError::Escapes)
    } else {
        Ok(())
    }
}

/// Check a capture name, with `/` as the path separator.
pub fn check_capture_name(name: &str, dir_has_parent: bool) -> (r: Result<(), CaptureNameError>)
    ensures
        r == spec_check_capture_name(name@, dir_has_parent),
{
    let n = chars_of(name);
    if n.len() == 0 || n[0] == '/' {
        return Err(CaptureNameError::Invalid);
    }
    if dir_has_parent {
        return Err(CaptureNameError::Escapes);
    }
    let pieces = crate::text::split_on(&n, '/');
    let parent = chars_of("..");
    let ghost ps = pieces@.map_values(|p: Vec<char>| p@);
    let mut i: usize = 0;
    while i < pieces.len()
        invariant
            ps == pieces@.map_values(|p: Vec<char>| p@),
            ps == split_char(name@, '/'),
            parent@ == ".."@,
            name@.len() > 0 && name@[0] != '/' && !dir_has_parent,
            i <= pieces@.len(),
            forall|j: int| 0 <= j < i ==> ps[j] != ".."@,
        decreases pieces@.len() - i,
    {
        if chars_eq(&pieces[i], &parent) {
            assert(ps[i as int] == ".."@);
            assert(ps.contains(".."@));
            return Err(CaptureNameError::Escapes);
        }
        i = i + 1;
    }
    assert(!ps.contains(".."@));
    Ok(())
}

} // verus!
