//! Reading state files: the line-oriented record parser.
//!
//! A state file is UTF-8-agnostic bytes: one record per line, four fields
//! separated by the first three commas — status, exit code, timestamp —
//! with the rest of the line, commas and all, as the path.

use vstd::prelude::*;

use vstd::slice::{slice_subrange, slice_to_vec};

use crate::error::{Error, ParseError, ParseErrorV};
use crate::write::{spec_code_digits, spec_line, spec_serialize};
use crate::time::{is_timestamp, timestamp_valid};
use crate::{Status, Task, TaskV, LINE_BYTE, SPLIT_BYTE};

verus! {

/// The index of the first occurrence of a byte, or the length when the byte
/// does not occur.
pub open spec fn spec_find(s: Seq<u8>, b: u8) -> nat
    decreases s.len(),
{
    if s.len() == 0 {
        0
    } else if s[0] == b {
        0
    } else {
        1 + spec_find(s.skip(1), b)
    }
}

/// What `spec_find` returns: the position of the first occurrence.
pub proof fn lemma_find(s: Seq<u8>, b: u8)
    ensures
        spec_find(s, b) <= s.len(),
        forall|j: int| 0 <= j < spec_find(s, b) ==> s[j] != b,
        spec_find(s, b) < s.len() ==> s[spec_find(s, b) as int] == b,
    decreases s.len(),
{
    if s.len() == 0 {
    } else if s[0] == b {
    } else {
        lemma_find(s.skip(1), b);
        assert forall|j: int| 0 <= j < spec_find(s, b) implies s[j] != b by {
            if j > 0 {
                assert(s.skip(1)[j - 1] == s[j]);
            }
        }
    }
}

/// A found first occurrence pins `spec_find` down.
proof fn lemma_find_is(s: Seq<u8>, b: u8, i: int)
    requires
        0 <= i < s.len(),
        s[i] == b,
        forall|j: int| 0 <= j < i ==> s[j] != b,
    ensures
        spec_find(s, b) == i,
{
    lemma_find(s, b);
    let f = spec_find(s, b) as int;
    if f < i {
        assert(s[f] != b);
        assert(f < s.len());
        assert(false);
    } else if f > i {
        assert(s[i] != b);
        assert(false);
    }
}

/// No occurrence pins `spec_find` to the length.
proof fn lemma_find_none(s: Seq<u8>, b: u8)
    requires
        forall|j: int| 0 <= j < s.len() ==> s[j] != b,
    ensures
        spec_find(s, b) == s.len(),
{
    lemma_find(s, b);
    if spec_find(s, b) < s.len() {
        assert(s[spec_find(s, b) as int] != b);
        assert(false);
    }
}

/// Relies on memchr::memchr: the index of the first occurrence of the byte
/// in the slice, or None when the byte does not occur.
#[verifier::external_body]
fn find_byte(needle: u8, haystack: &[u8]) -> (r: Option<usize>)
    ensures
        match r {
            Some(i) => i < haystack@.len() && haystack@[i as int] == needle && forall|j: int|
                0 <= j < i ==> #[trigger] haystack@[j] != needle,
            None => forall|j: int| 0 <= j < haystack@.len() ==> #[trigger] haystack@[j] != needle,
        },
{
    memchr::memchr(needle, haystack)
}

/// The lines of a byte string, separated by newlines; a final line without
/// a terminator still counts, a trailing terminator adds no empty line.
pub open spec fn spec_lines(s: Seq<u8>) -> Seq<Seq<u8>>
    decreases s.len(),
{
    if s.len() == 0 {
        Seq::empty()
    } else {
        let k = spec_find(s, LINE_BYTE) as int;
        if k >= s.len() {
            seq![s]
        } else {
            seq![s.take(k)] + spec_lines(s.skip(k + 1))
        }
    }
}

/// A line with its trailing carriage return shed, as line-based reading
/// does.
pub open spec fn spec_strip_cr(l: Seq<u8>) -> Seq<u8> {
    if l.len() > 0 && l.last() == 13 {
        l.drop_last()
    } else {
        l
    }
}

/// The numeric value of a run of decimal digits.
pub open spec fn spec_digits_value(f: Seq<u8>) -> int
    decreases f.len(),
{
    if f.len() == 0 {
        0
    } else {
        spec_digits_value(f.drop_last()) * 10 + (f.last() - 48)
    }
}

/// Whether every byte is a decimal digit.
pub open spec fn spec_all_digits(f: Seq<u8>) -> bool {
    forall|i: int| 0 <= i < f.len() ==> 48 <= #[trigger] f[i] <= 57
}

/// The exit code a field stands for: an optional `+` sign, then at least
/// one digit, valid when the value fits a byte — exactly what the standard
/// string-to-integer conversion accepts.
pub open spec fn spec_parse_code(f: Seq<u8>) -> Option<u8> {
    let g = if f.len() > 0 && f[0] == 43 {
        f.skip(1)
    } else {
        f
    };
    if g.len() > 0 && spec_all_digits(g) && spec_digits_value(g) <= 255 {
        Some(spec_digits_value(g) as u8)
    } else {
        None
    }
}

/// Digit runs have non-negative values that only grow as digits append.
proof fn lemma_digits_grow(g: Seq<u8>, i: int)
    requires
        spec_all_digits(g),
        0 <= i <= g.len(),
    ensures
        spec_digits_value(g) >= 0,
        spec_digits_value(g) >= spec_digits_value(g.take(i)),
    decreases g.len(),
{
    if g.len() == 0 {
        assert(g.take(i) =~= g);
    } else {
        let h = g.drop_last();
        assert(spec_all_digits(h)) by {
            assert(forall|j: int| 0 <= j < h.len() ==> h[j] == g[j]);
        }
        lemma_digits_grow(h, if i <= h.len() {
            i
        } else {
            h.len() as int
        });
        if i > h.len() {
            assert(g.take(i) =~= g);
        } else {
            assert(h.take(i) =~= g.take(i));
            assert(spec_digits_value(g) == spec_digits_value(h) * 10 + (g.last() - 48));
            assert(spec_digits_value(h) * 10 >= spec_digits_value(h));
        }
    }
}

/// Parse an exit-code field.
fn parse_code(f: &[u8]) -> (r: Option<u8>)
    ensures
        r == spec_parse_code(f@),
{
    let n = f.len();
    let start: usize = if n > 0 && f[0] == 43 {
        1
    } else {
        0
    };
    let ghost g = if start == 1 {
        f@.skip(1)
    } else {
        f@
    };
    proof {
        assert(forall|j: int| 0 <= j < g.len() ==> g[j] == f@[j + start]);
    }
    if n == start {
        return None;
    }
    let mut acc: u32 = 0;
    let mut i: usize = start;
    while i < n
        invariant
            start <= i <= n,
            n == f@.len(),
            start == 0 || start == 1,
            (start == 1) <==> (f@.len() > 0 && f@[0] == 43),
            start == 1 ==> g == f@.skip(1),
            start == 0 ==> g == f@,
            g.len() == n - start,
            forall|j: int| 0 <= j < g.len() ==> g[j] == f@[j + start],
            forall|j: int| 0 <= j < i - start ==> 48 <= #[trigger] g[j] <= 57,
            acc <= 255,
            acc == spec_digits_value(g.take(i - start)),
        decreases n - i,
    {
        let b = f[i];
        if b < 48 || b > 57 {
            proof {
                assert(g[i - start] == b);
                assert(!spec_all_digits(g));
            }
            return None;
        }
        proof {
            assert(g.take(i - start + 1).drop_last() =~= g.take(i - start));
            assert(g.take(i - start + 1).last() == g[i - start]);
        }
        acc = acc * 10 + ((b - 48) as u32);
        if acc > 255 {
            proof {
                if spec_all_digits(g) {
                    lemma_digits_grow(g, i - start + 1);
                    assert(spec_digits_value(g) > 255);
                }
            }
            return None;
        }
        i = i + 1;
    }
    proof {
        assert(g.take(n - start) =~= g);
        assert(spec_all_digits(g));
    }
    Some(acc as u8)
}

/// The outcome of parsing one line.
pub ghost enum LineResult {
    Rec(TaskV),
    Malformed,
    Bad(ParseErrorV),
}

/// The record a line stands for. The first three commas bound the status,
/// code and timestamp fields; the rest of the line is the path. A line with
/// fewer than three commas is malformed; a field that does not parse names
/// itself, in field order.
pub open spec fn spec_parse_line(l: Seq<u8>) -> LineResult {
    let c1 = spec_find(l, SPLIT_BYTE) as int;
    if c1 >= l.len() {
        LineResult::Malformed
    } else {
        let r1 = l.skip(c1 + 1);
        let c2 = spec_find(r1, SPLIT_BYTE) as int;
        if c2 >= r1.len() {
            LineResult::Malformed
        } else {
            let r2 = r1.skip(c2 + 1);
            let c3 = spec_find(r2, SPLIT_BYTE) as int;
            if c3 >= r2.len() {
                LineResult::Malformed
            } else {
                let sf = l.take(c1);
                let cf = r1.take(c2);
                let tf = r2.take(c3);
                let pf = r2.skip(c3 + 1);
                if !(sf.len() == 1 && Status::spec_of_byte(sf[0]) is Some) {
                    LineResult::Bad(ParseErrorV::Status(sf))
                } else if spec_parse_code(cf) is None {
                    LineResult::Bad(ParseErrorV::Code(cf))
                } else if !is_timestamp(tf) {
                    LineResult::Bad(ParseErrorV::Timestamp(tf))
                } else {
                    LineResult::Rec(
                        TaskV {
                            status: Status::spec_of_byte(sf[0]).unwrap(),
                            code: spec_parse_code(cf).unwrap(),
                            time: tf,
                            path: pf,
                        },
                    )
                }
            }
        }
    }
}

/// The outcome of parsing a whole file: the records, or the first fault
/// with its line.
pub ghost enum ParseResult {
    Tasks(Seq<TaskV>),
    Malformed { n: int, line: Seq<u8> },
    Bad { e: ParseErrorV, num: int, line: Seq<u8> },
}

/// Parse lines in order; the first fault wins. Line counting starts at
/// `base`: a malformed line reports its one-based number, a field fault its
/// zero-based one, as the protocol has it.
pub open spec fn spec_parse_lines(lines: Seq<Seq<u8>>, base: int) -> ParseResult
    decreases lines.len(),
{
    if lines.len() == 0 {
        ParseResult::Tasks(Seq::empty())
    } else {
        let l = spec_strip_cr(lines[0]);
        match spec_parse_line(l) {
            LineResult::Malformed => ParseResult::Malformed { n: base + 1, line: l },
            LineResult::Bad(e) => ParseResult::Bad { e, num: base, line: l },
            LineResult::Rec(t) => match spec_parse_lines(lines.skip(1), base + 1) {
                ParseResult::Tasks(ts) => ParseResult::Tasks(seq![t] + ts),
                r => r,
            },
        }
    }
}

/// The records of a state file's contents, or its first fault.
pub open spec fn spec_parse(content: Seq<u8>) -> ParseResult {
    spec_parse_lines(spec_lines(content), 0)
}

/// A fault passes through task accumulation untouched.
pub open spec fn spec_combine(acc: Seq<TaskV>, r: ParseResult) -> ParseResult {
    match r {
        ParseResult::Tasks(ts) => ParseResult::Tasks(acc + ts),
        x => x,
    }
}

/// The outcome of parsing one line, as a value.
enum ParsedLine {
    Rec(Task),
    Malformed,
    Bad(ParseError),
}

/// Parse one line (already shed of its terminator and carriage return).
fn parse_line(l: &[u8]) -> (r: ParsedLine)
    ensures
        match r {
            ParsedLine::Rec(t) => spec_parse_line(l@) == LineResult::Rec(t@),
            ParsedLine::Malformed => spec_parse_line(l@) == LineResult::Malformed,
            ParsedLine::Bad(e) => spec_parse_line(l@) == LineResult::Bad(e.deep_view()),
        },
{
    let n = l.len();
    let c1 = match find_byte(SPLIT_BYTE, l) {
        Some(i) => {
            proof {
                lemma_find_is(l@, SPLIT_BYTE, i as int);
            }
            i
        },
        None => {
            proof {
                lemma_find_none(l@, SPLIT_BYTE);
            }
            return ParsedLine::Malformed;
        },
    };
    let r1 = slice_subrange(l, c1 + 1, n);
    proof {
        assert(r1@ =~= l@.skip(c1 + 1));
    }
    let c2 = match find_byte(SPLIT_BYTE, r1) {
        Some(i) => {
            proof {
                lemma_find_is(r1@, SPLIT_BYTE, i as int);
            }
            i
        },
        None => {
            proof {
                lemma_find_none(r1@, SPLIT_BYTE);
            }
            return ParsedLine::Malformed;
        },
    };
    let r2 = slice_subrange(r1, c2 + 1, r1.len());
    proof {
        assert(r2@ =~= r1@.skip(c2 + 1));
    }
    let c3 = match find_byte(SPLIT_BYTE, r2) {
        Some(i) => {
            proof {
                lemma_find_is(r2@, SPLIT_BYTE, i as int);
            }
            i
        },
        None => {
            proof {
                lemma_find_none(r2@, SPLIT_BYTE);
            }
            return ParsedLine::Malformed;
        },
    };
    let sf = slice_subrange(l, 0, c1);
    let cf = slice_subrange(r1, 0, c2);
    let tf = slice_subrange(r2, 0, c3);
    let pf = slice_subrange(r2, c3 + 1, r2.len());
    proof {
        assert(sf@ =~= l@.take(c1 as int));
        assert(cf@ =~= r1@.take(c2 as int));
        assert(tf@ =~= r2@.take(c3 as int));
        assert(pf@ =~= r2@.skip(c3 + 1));
    }
    let status = if sf.len() == 1 {
        match Status::of_byte(sf[0]) {
            Some(s) => s,
            None => {
                return ParsedLine::Bad(ParseError::Status(slice_to_vec(sf)));
            },
        }
    } else {
        return ParsedLine::Bad(ParseError::Status(slice_to_vec(sf)));
    };
    let code = match parse_code(cf) {
        Some(c) => c,
        None => {
            return ParsedLine::Bad(ParseError::Code(slice_to_vec(cf)));
        },
    };
    if !timestamp_valid(tf) {
        return ParsedLine::Bad(ParseError::Timestamp(slice_to_vec(tf)));
    }
    ParsedLine::Rec(Task { status, code, time: slice_to_vec(tf), path: slice_to_vec(pf) })
}

/// Parse a state file's contents into its task records. The result is
/// exactly what `spec_parse` says of the bytes: the ordered records, or the
/// first malformed line or unparseable field, attributed to the given state
/// file path.
#[verifier::rlimit(50)]
pub fn parse(content: &Vec<u8>, path: &Vec<u8>) -> (r: Result<Vec<Task>, Error>)
    ensures
        match r {
            Ok(ts) => spec_parse(content@) == ParseResult::Tasks(ts.deep_view()),
            Err(e) => match e {
                Error::Malformed { n, line, path: p } => spec_parse(content@)
                    == (ParseResult::Malformed { n: n as int, line: line@ }) && p@ == path@,
                Error::Parse { e, num, line, path: p } => spec_parse(content@)
                    == (ParseResult::Bad { e: e.deep_view(), num: num as int, line: line@ })
                    && p@ == path@,
                _ => false,
            },
        },
{
    let mut tasks: Vec<Task> = Vec::new();
    let mut pos: usize = 0;
    let mut lineno: usize = 0;
    let hay = content.as_slice();
    proof {
        assert(content@.skip(0) =~= content@);
        assert(tasks.deep_view() =~= Seq::<TaskV>::empty());
        assert(spec_combine(tasks.deep_view(), spec_parse(content@)) == spec_parse(content@));
    }
    while pos < content.len()
        invariant
            pos <= content.len(),
            lineno <= pos,
            hay@ == content@,
            spec_parse(content@) == spec_combine(
                tasks.deep_view(),
                spec_parse_lines(spec_lines(content@.skip(pos as int)), lineno as int),
            ),
        decreases content.len() - pos,
    {
        let ghost s_rest = content@.skip(pos as int);
        let sub = slice_subrange(hay, pos, content.len());
        proof {
            assert(sub@ =~= s_rest);
        }
        let (line_end, next_pos): (usize, usize) = match find_byte(LINE_BYTE, sub) {
            Some(krel) => {
                proof {
                    lemma_find_is(s_rest, LINE_BYTE, krel as int);
                }
                (pos + krel, pos + krel + 1)
            },
            None => {
                proof {
                    lemma_find_none(s_rest, LINE_BYTE);
                }
                (content.len(), content.len())
            },
        };
        let raw = slice_subrange(hay, pos, line_end);
        proof {
            assert(raw@ =~= s_rest.take(line_end - pos));
        }
        let line = if raw.len() > 0 && raw[raw.len() - 1] == 13 {
            let stripped = slice_subrange(raw, 0, raw.len() - 1);
            proof {
                assert(stripped@ =~= raw@.drop_last());
            }
            stripped
        } else {
            raw
        };
        proof {
            assert(line@ == spec_strip_cr(raw@));
            // One unfolding of the line decomposition at this position.
            let k = spec_find(s_rest, LINE_BYTE) as int;
            if line_end < content.len() {
                assert(k == line_end - pos);
                assert(spec_lines(s_rest) == seq![s_rest.take(k)] + spec_lines(
                    s_rest.skip(k + 1),
                ));
                assert(s_rest.skip(k + 1) =~= content@.skip(next_pos as int));
                assert(spec_lines(s_rest)[0] == raw@);
                assert(spec_lines(s_rest).skip(1) =~= spec_lines(content@.skip(next_pos as int)));
            } else {
                assert(k == s_rest.len());
                assert(spec_lines(s_rest) == seq![s_rest]);
                assert(raw@ =~= s_rest);
                assert(spec_lines(s_rest)[0] == raw@);
                assert(content@.skip(next_pos as int) =~= Seq::<u8>::empty());
                assert(spec_lines(s_rest).skip(1) =~= spec_lines(content@.skip(next_pos as int)));
            }
        }
        match parse_line(line) {
            ParsedLine::Rec(t) => {
                proof {
                    let rest_r = spec_parse_lines(
                        spec_lines(content@.skip(next_pos as int)),
                        lineno + 1,
                    );
                    assert(spec_parse_lines(spec_lines(s_rest), lineno as int) == match rest_r {
                        ParseResult::Tasks(ts) => ParseResult::Tasks(seq![t@] + ts),
                        r => r,
                    });
                }
                let ghost prev_tasks = tasks.deep_view();
                tasks.push(t);
                proof {
                    assert(tasks.deep_view() =~= prev_tasks.push(t@));
                    match spec_parse_lines(
                        spec_lines(content@.skip(next_pos as int)),
                        lineno + 1,
                    ) {
                        ParseResult::Tasks(ts) => {
                            assert(prev_tasks + (seq![t@] + ts) =~= tasks.deep_view() + ts);
                        },
                        _ => {},
                    }
                }
                pos = next_pos;
                lineno = lineno + 1;
            },
            ParsedLine::Malformed => {
                return Err(
                    Error::Malformed {
                        n: lineno + 1,
                        line: slice_to_vec(line),
                        path: path.clone(),
                    },
                );
            },
            ParsedLine::Bad(e) => {
                return Err(
                    Error::Parse { e, num: lineno, line: slice_to_vec(line), path: path.clone() },
                );
            },
        }
    }
    proof {
        assert(content@.skip(content@.len() as int) =~= Seq::<u8>::empty());
        assert(spec_lines(Seq::<u8>::empty()) =~= Seq::<Seq<u8>>::empty());
        assert(tasks.deep_view() + Seq::<TaskV>::empty() =~= tasks.deep_view());
    }
    Ok(tasks)
}

/// `spec_find` distributes over concatenation.
proof fn lemma_find_app(x: Seq<u8>, y: Seq<u8>, b: u8)
    ensures
        spec_find(x, b) < x.len() ==> spec_find(x + y, b) == spec_find(x, b),
        spec_find(x, b) >= x.len() ==> spec_find(x + y, b) == x.len() + spec_find(y, b),
{
    lemma_find(x, b);
    lemma_find(y, b);
    let s = x + y;
    if spec_find(x, b) < x.len() {
        let i = spec_find(x, b) as int;
        assert(s[i] == x[i]);
        assert forall|j: int| 0 <= j < i implies s[j] != b by {
            assert(s[j] == x[j]);
        }
        lemma_find_is(s, b, i);
    } else {
        if spec_find(y, b) < y.len() {
            let i = x.len() + spec_find(y, b);
            assert(s[i as int] == y[spec_find(y, b) as int]);
            assert forall|j: int| 0 <= j < i implies s[j] != b by {
                if j < x.len() {
                    assert(s[j] == x[j]);
                } else {
                    assert(s[j] == y[j - x.len()]);
                }
            }
            lemma_find_is(s, b, i as int);
        } else {
            assert forall|j: int| 0 <= j < s.len() implies s[j] != b by {
                if j < x.len() {
                    assert(s[j] == x[j]);
                } else {
                    assert(s[j] == y[j - x.len()]);
                }
            }
            lemma_find_none(s, b);
        }
    }
}

/// The code rendering is one to three digits and never opens with a sign.
proof fn lemma_code_digits_all(n: u8)
    ensures
        spec_all_digits(spec_code_digits(n)),
        1 <= spec_code_digits(n).len() <= 3,
    decreases n,
{
    let f = spec_code_digits(n);
    if n < 10 {
        assert(f =~= seq![(48 + n) as u8]);
        assert(forall|i: int| 0 <= i < f.len() ==> 48 <= #[trigger] f[i] <= 57);
    } else if n < 100 {
        assert(f =~= seq![(48 + n / 10) as u8, (48 + n % 10) as u8]);
        assert(1 <= n / 10 <= 9);
        assert(forall|i: int| 0 <= i < f.len() ==> 48 <= #[trigger] f[i] <= 57);
    } else {
        assert(f =~= seq![(48 + n / 100) as u8, (48 + (n / 10) % 10) as u8, (48 + n % 10) as u8]);
        assert(1 <= n / 100 <= 2);
        assert(forall|i: int| 0 <= i < f.len() ==> 48 <= #[trigger] f[i] <= 57);
    }
}

/// A rendered exit code parses back to itself.
proof fn lemma_code_round_trip(n: u8)
    ensures
        spec_parse_code(spec_code_digits(n)) == Some(n),
{
    lemma_code_digits_all(n);
    let f = spec_code_digits(n);
    assert(f[0] != 43);
    assert(spec_digits_value(Seq::<u8>::empty()) == 0);
    if n < 10 {
        let d0 = seq![(48 + n) as u8];
        assert(f =~= d0);
        assert(d0.drop_last() =~= Seq::<u8>::empty());
        assert(spec_digits_value(d0) == n);
    } else if n < 100 {
        let d0 = seq![(48 + n / 10) as u8];
        let d1 = seq![(48 + n / 10) as u8, (48 + n % 10) as u8];
        assert(f =~= d1);
        assert(d1.drop_last() =~= d0);
        assert(d0.drop_last() =~= Seq::<u8>::empty());
        assert(spec_digits_value(d0) == n / 10);
        assert(spec_digits_value(d1) == (n / 10) * 10 + n % 10);
        assert((n / 10) * 10 + n % 10 == n);
    } else {
        let d0 = seq![(48 + n / 100) as u8];
        let d1 = seq![(48 + n / 100) as u8, (48 + (n / 10) % 10) as u8];
        let d2 = seq![(48 + n / 100) as u8, (48 + (n / 10) % 10) as u8, (48 + n % 10) as u8];
        assert(f =~= d2);
        assert(d2.drop_last() =~= d1);
        assert(d1.drop_last() =~= d0);
        assert(d0.drop_last() =~= Seq::<u8>::empty());
        assert(spec_digits_value(d0) == n / 100);
        assert(spec_digits_value(d1) == (n / 100) * 10 + (n / 10) % 10);
        assert(spec_digits_value(d1) == n / 10) by {
            assert((n / 10) % 10 == n / 10 - ((n / 10) / 10) * 10);
            assert((n / 10) / 10 == n / 100);
        }
        assert(spec_digits_value(d2) == (n / 10) * 10 + n % 10);
        assert((n / 10) * 10 + n % 10 == n);
    }
}

/// A task the line format can carry faithfully: its timestamp is real and
/// holds neither separator, and its path holds no newline and does not end
/// in a carriage return — the two bytes line-based reading would strip.
/// Tasks the library builds satisfy all of it whenever their paths do.
pub open spec fn wf_task(t: TaskV) -> bool {
    &&& is_timestamp(t.time)
    &&& forall|i: int|
        0 <= i < t.time.len() ==> #[trigger] t.time[i] != SPLIT_BYTE && t.time[i] != LINE_BYTE
    &&& forall|i: int| 0 <= i < t.path.len() ==> #[trigger] t.path[i] != LINE_BYTE
    &&& (t.path.len() > 0 ==> t.path.last() != 13)
}

/// One serialised record reparses to its task: the line decomposition and
/// each field's round trip.
proof fn lemma_record_round_trip(t: TaskV)
    requires
        wf_task(t),
    ensures
        spec_line(t).len() > 0,
        spec_find(spec_line(t), LINE_BYTE) == spec_line(t).len() - 1,
        spec_strip_cr(spec_line(t).take(spec_line(t).len() - 1)) == spec_line(t).take(
            spec_line(t).len() - 1,
        ),
        spec_parse_line(spec_line(t).take(spec_line(t).len() - 1)) == LineResult::Rec(t),
{
    lemma_code_digits_all(t.code);
    lemma_code_round_trip(t.code);
    let sb = t.status.spec_byte();
    let digits = spec_code_digits(t.code);
    let pay = seq![sb, SPLIT_BYTE] + digits + seq![SPLIT_BYTE] + t.time + seq![SPLIT_BYTE]
        + t.path;
    let line = spec_line(t);
    assert(line =~= pay + seq![LINE_BYTE]);
    assert(line.len() == pay.len() + 1);

    // Field boundaries inside the payload.
    let c1 = 1int;
    let r1 = pay.skip(2);
    assert(r1 =~= digits + seq![SPLIT_BYTE] + t.time + seq![SPLIT_BYTE] + t.path);
    let c2 = digits.len() as int;
    let r2 = r1.skip(c2 + 1);
    assert(r2 =~= t.time + seq![SPLIT_BYTE] + t.path);
    let c3 = t.time.len() as int;

    // No newline anywhere in the payload.
    assert forall|j: int| 0 <= j < pay.len() implies pay[j] != LINE_BYTE by {
        if j == 0 {
            assert(pay[j] == sb);
        } else if j == 1 {
        } else if j < 2 + digits.len() {
            assert(pay[j] == digits[j - 2]);
        } else if j == 2 + digits.len() {
        } else if j < 3 + digits.len() + t.time.len() {
            assert(pay[j] == t.time[j - 3 - digits.len()]);
        } else if j == 3 + digits.len() + t.time.len() {
        } else {
            assert(pay[j] == t.path[j - 4 - digits.len() - t.time.len()]);
        }
    }
    assert(line[pay.len() as int] == LINE_BYTE);
    lemma_find_is(line, LINE_BYTE, pay.len() as int);
    assert(line.take(line.len() - 1) =~= pay);

    // The stripped line is the payload itself: its last byte is either the
    // path's last byte or a separator, never a carriage return.
    if t.path.len() > 0 {
        assert(pay.last() == t.path.last());
    } else {
        assert(pay.last() == SPLIT_BYTE);
    }
    assert(spec_strip_cr(pay) == pay);

    // First comma: right after the status byte.
    assert(pay[0] == sb && sb != SPLIT_BYTE);
    assert(pay[1] == SPLIT_BYTE);
    lemma_find_is(pay, SPLIT_BYTE, 1);

    // Second comma: right after the digits.
    assert forall|j: int| 0 <= j < c2 implies r1[j] != SPLIT_BYTE by {
        assert(r1[j] == digits[j]);
    }
    assert(r1[c2] == SPLIT_BYTE);
    lemma_find_is(r1, SPLIT_BYTE, c2);

    // Third comma: right after the timestamp.
    assert forall|j: int| 0 <= j < c3 implies r2[j] != SPLIT_BYTE by {
        assert(r2[j] == t.time[j]);
    }
    assert(r2[c3] == SPLIT_BYTE);
    lemma_find_is(r2, SPLIT_BYTE, c3);

    // The four fields are the four parts of the record.
    let sf = pay.take(1);
    assert(sf =~= seq![sb]);
    t.status.lemma_byte_of_byte();
    assert(pay.skip(c1 + 1) =~= r1);
    assert(r1.take(c2) =~= digits);
    assert(r2.take(c3) =~= t.time);
    assert(r2.skip(c3 + 1) =~= t.path);
    assert(spec_parse_line(pay) == LineResult::Rec(t));
}

/// Line round-trip: serialising a task list and reparsing it yields the
/// same ordered list of records, for every list of tasks the line format
/// can carry (see `wf_task`).
pub proof fn lemma_line_round_trip(ts: Seq<TaskV>)
    requires
        forall|i: int| 0 <= i < ts.len() ==> wf_task(#[trigger] ts[i]),
    ensures
        spec_parse(spec_serialize(ts)) == ParseResult::Tasks(ts),
{
    lemma_line_round_trip_from(ts, 0);
}

/// The round trip holds from any line number onward.
#[verifier::rlimit(50)]
proof fn lemma_line_round_trip_from(ts: Seq<TaskV>, base: int)
    requires
        forall|i: int| 0 <= i < ts.len() ==> wf_task(#[trigger] ts[i]),
    ensures
        spec_parse_lines(spec_lines(spec_serialize(ts)), base) == ParseResult::Tasks(ts),
    decreases ts.len(),
{
    if ts.len() == 0 {
        assert(spec_serialize(ts).len() == 0);
        assert(spec_lines(spec_serialize(ts)) =~= Seq::<Seq<u8>>::empty());
        assert(ts =~= Seq::<TaskV>::empty());
    } else {
        let t = ts[0];
        let rest = ts.skip(1);
        assert(forall|i: int| 0 <= i < rest.len() ==> wf_task(#[trigger] rest[i]));
        lemma_line_round_trip_from(rest, base + 1);
        lemma_serialize_front(ts);
        let line = spec_line(t);
        let tail = spec_serialize(rest);
        let s = spec_serialize(ts);
        assert(s == line + tail);
        lemma_record_round_trip(t);
        lemma_find_app(line, tail, LINE_BYTE);
        let k = spec_find(s, LINE_BYTE) as int;
        assert(k == line.len() - 1);
        assert(k < s.len());
        assert(s.take(k) =~= line.take(line.len() - 1));
        assert(s.skip(k + 1) =~= tail);
        assert(spec_lines(s) == seq![s.take(k)] + spec_lines(tail));
        let lines = spec_lines(s);
        assert(lines[0] == line.take(line.len() - 1));
        assert(lines.skip(1) =~= spec_lines(tail));
        assert(lines.len() > 0);
        let stripped = spec_strip_cr(lines[0]);
        assert(stripped == lines[0]);
        assert(spec_parse_line(stripped) == LineResult::Rec(t));
        assert(spec_parse_lines(lines.skip(1), base + 1) == ParseResult::Tasks(rest));
        assert(spec_parse_lines(lines, base) == ParseResult::Tasks(seq![t] + rest));
        assert(seq![t] + rest =~= ts);
    }
}

/// Serialisation peels records off the front as well.
proof fn lemma_serialize_front(ts: Seq<TaskV>)
    requires
        ts.len() > 0,
    ensures
        spec_serialize(ts) == spec_line(ts[0]) + spec_serialize(ts.skip(1)),
    decreases ts.len(),
{
    if ts.len() == 1 {
        assert(ts.drop_last() =~= Seq::<TaskV>::empty());
        assert(ts.skip(1) =~= Seq::<TaskV>::empty());
        assert(spec_serialize(ts) =~= spec_line(ts[0]) + spec_serialize(ts.skip(1)));
    } else {
        lemma_serialize_front(ts.drop_last());
        assert(ts.drop_last()[0] == ts[0]);
        assert(ts.drop_last().skip(1) =~= ts.skip(1).drop_last());
        assert(ts.skip(1).last() == ts.last());
        assert(spec_serialize(ts) == spec_serialize(ts.drop_last()) + spec_line(ts.last()));
        assert(spec_serialize(ts.skip(1)) == spec_serialize(ts.skip(1).drop_last()) + spec_line(
            ts.skip(1).last(),
        ));
        assert(spec_serialize(ts) =~= spec_line(ts[0]) + spec_serialize(ts.skip(1)));
    }
}

} // verus!
