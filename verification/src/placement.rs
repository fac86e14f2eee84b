//! Where the workers of a query are to run, as the submitting user asks for
//! it on the command line.
//!
//! The user gives at most one of three options: a number of executors to
//! pick at random, a comma-separated list of executor ids, or a
//! comma-separated list of executor host names. A fourth option sets the
//! number of worker threads per executor.

use vstd::prelude::*;
use vstd::string::{StrSliceExecFns, StringExecFns};
use crate::executor::ExecutorId;
use crate::text::str_eq;

verus! {

/// Where the workers of a query run.
#[derive(Debug)]
pub enum Placement {
    /// On this many executors picked at random, with this many workers
    /// each.
    Random(usize, usize),
    /// On exactly these executors, with this many workers each.
    Fixed(Vec<ExecutorId>, usize),
}

/// Where the workers of a query run, as a mathematical value.
pub ghost enum PlacementView {
    Random(usize, usize),
    Fixed(Seq<ExecutorId>, usize),
}

impl View for Placement {
    type V = PlacementView;

    open spec fn view(&self) -> PlacementView {
        match self {
            Placement::Random(executors, workers) => PlacementView::Random(*executors, *workers),
            Placement::Fixed(executors, workers) => PlacementView::Fixed(executors@, *workers),
        }
    }
}

/// An executor as the coordinator's catalog describes it.
#[derive(Debug)]
pub struct Executor {
    pub id: ExecutorId,
    pub host: String,
}

/// An executor of the catalog, as a mathematical value.
pub ghost struct ExecutorView {
    pub id: ExecutorId,
    pub host: Seq<char>,
}

impl View for Executor {
    type V = ExecutorView;

    open spec fn view(&self) -> ExecutorView {
        ExecutorView { id: self.id, host: self.host@ }
    }
}

/// The executors of a catalog, as mathematical values.
pub open spec fn catalog_view(executors: Seq<Executor>) -> Seq<ExecutorView> {
    executors.map_values(|e: Executor| e@)
}

/// What the user gave for the four options that decide the placement.
#[derive(Debug)]
pub struct PlacementOptions {
    /// Number of worker threads per executor.
    pub workers: Option<String>,
    /// Number of executors to pick at random.
    pub random: Option<String>,
    /// Comma-separated ids of the executors to use.
    pub fixed: Option<String>,
    /// Comma-separated host names of the executors to use.
    pub hosts: Option<String>,
}

/// The text of an option, if it was given.
pub open spec fn option_text(opt: Option<String>) -> Option<Seq<char>> {
    match opt {
        Some(text) => Some(text@),
        None => None,
    }
}

/// Why a text is no number.
#[derive(Clone, Copy, Debug, PartialEq, Eq, Structural)]
pub enum IntError {
    /// The text is empty.
    Empty,
    /// The text holds something else than digits behind an optional `+`.
    InvalidDigit,
    /// The number is too large.
    PosOverflow,
}

impl IntError {
    /// The error in words.
    pub open spec fn spec_text(self) -> Seq<char> {
        match self {
            IntError::Empty => "cannot parse integer from empty string"@,
            IntError::InvalidDigit => "invalid digit found in string"@,
            IntError::PosOverflow => "number too large to fit in target type"@,
        }
    }

    /// The error in words.
    pub fn text(self) -> (text: &'static str)
        ensures
            text@ == self.spec_text(),
    {
        match self {
            IntError::Empty => "cannot parse integer from empty string",
            IntError::InvalidDigit => "invalid digit found in string",
            IntError::PosOverflow => "number too large to fit in target type",
        }
    }
}

/// Whether a character is a decimal digit.
pub open spec fn is_digit(c: char) -> bool {
    '0' <= c <= '9'
}

/// The value of a decimal digit.
pub open spec fn digit_value(c: char) -> nat {
    (c as u32 - '0' as u32) as nat
}

/// Reads digits from left to right onto the number read so far. The first
/// character that is no digit, or the first digit that takes the number
/// above `max`, ends the reading with an error.
pub open spec fn scan_digits(s: Seq<char>, acc: nat, max: nat) -> Result<nat, IntError>
    decreases s.len(),
{
    if s.len() == 0 {
        Ok(acc)
    } else if !is_digit(s[0]) {
        Err(IntError::InvalidDigit)
    } else if acc * 10 + digit_value(s[0]) > max {
        Err(IntError::PosOverflow)
    } else {
        scan_digits(s.drop_first(), acc * 10 + digit_value(s[0]), max)
    }
}

/// Reads a decimal number of at most `max`: an optional `+`, then one digit
/// or more, and nothing else.
pub open spec fn parse_number(s: Seq<char>, max: nat) -> Result<nat, IntError> {
    if s.len() == 0 {
        Err(IntError::Empty)
    } else {
        let digits = if s[0] == '+' {
            s.drop_first()
        } else {
            s
        };
        if digits.len() == 0 {
            Err(IntError::InvalidDigit)
        } else {
            scan_digits(digits, 0, max)
        }
    }
}

/// The message for an option whose argument is no number.
pub open spec fn parse_failure(opt: Seq<char>, err: IntError) -> Seq<char> {
    "failed to parse argument for '"@ + opt + "': "@ + err.spec_text()
}

/// The message for a host name that no executor has.
pub open spec fn unknown_executor(name: Seq<char>) -> Seq<char> {
    "unknown executor '"@ + name + "'"@
}

/// The message for more than one of the three placement options.
pub open spec fn exclusive_options() -> Seq<char> {
    "Options 'random', 'fixed', and 'hosts' are mutually exclusive"@
}

/// The position of the first comma of a text, or its length where it has
/// none.
pub open spec fn first_comma(s: Seq<char>) -> int
    decreases s.len(),
{
    if s.len() == 0 || s[0] == ',' {
        0
    } else {
        1 + first_comma(s.drop_first())
    }
}

/// The executor ids that a comma-separated list names, in its order, or the
/// message for the first item that is no id.
pub open spec fn fixed_ids(text: Seq<char>) -> Result<Seq<ExecutorId>, Seq<char>>
    decreases text.len(),
{
    let end = first_comma(text);
    match parse_number(text.take(end), u64::MAX as nat) {
        Err(e) => Err(parse_failure("fixed"@, e)),
        Ok(id) => if 0 <= end < text.len() {
            match fixed_ids(text.skip(end + 1)) {
                Err(msg) => Err(msg),
                Ok(rest) => Ok(seq![ExecutorId(id as u64)] + rest),
            }
        } else {
            Ok(seq![ExecutorId(id as u64)])
        },
    }
}

/// The id of the first executor of the catalog with this host name.
pub open spec fn find_host(executors: Seq<ExecutorView>, name: Seq<char>) -> Option<ExecutorId>
    decreases executors.len(),
{
    if executors.len() == 0 {
        None
    } else if executors[0].host == name {
        Some(executors[0].id)
    } else {
        find_host(executors.drop_first(), name)
    }
}

/// The ids of the executors that a comma-separated list of host names
/// names, in its order, or the message for the first name that no executor
/// has.
pub open spec fn host_ids(text: Seq<char>, executors: Seq<ExecutorView>) -> Result<
    Seq<ExecutorId>,
    Seq<char>,
>
    decreases text.len(),
{
    let end = first_comma(text);
    match find_host(executors, text.take(end)) {
        None => Err(unknown_executor(text.take(end))),
        Some(id) => if 0 <= end < text.len() {
            match host_ids(text.skip(end + 1), executors) {
                Err(msg) => Err(msg),
                Ok(rest) => Ok(seq![id] + rest),
            }
        } else {
            Ok(seq![id])
        },
    }
}

/// The placement that the options ask for.
///
/// The number of workers is 1 unless given. Without a placement option one
/// executor is picked at random. More than one placement option is an
/// error, and so is an argument that cannot be read.
pub open spec fn placement_of(
    workers: Option<Seq<char>>,
    random: Option<Seq<char>>,
    fixed: Option<Seq<char>>,
    hosts: Option<Seq<char>>,
    executors: Seq<ExecutorView>,
) -> Result<PlacementView, Seq<char>> {
    let count = match workers {
        Some(w) => parse_number(w, usize::MAX as nat),
        None => Ok(1nat),
    };
    match count {
        Err(e) => Err(parse_failure("workers"@, e)),
        Ok(w) => match (random, fixed, hosts) {
            (Some(r), None, None) => match parse_number(r, usize::MAX as nat) {
                Err(e) => Err(parse_failure("random"@, e)),
                Ok(n) => Ok(PlacementView::Random(n as usize, w as usize)),
            },
            (None, Some(f), None) => match fixed_ids(f) {
                Err(msg) => Err(msg),
                Ok(ids) => Ok(PlacementView::Fixed(ids, w as usize)),
            },
            (None, None, Some(n)) => match host_ids(n, executors) {
                Err(msg) => Err(msg),
                Ok(ids) => Ok(PlacementView::Fixed(ids, w as usize)),
            },
            (None, None, None) => Ok(PlacementView::Random(1, w as usize)),
            _ => Err(exclusive_options()),
        },
    }
}

/// The first comma of a text is where a scan from the left finds it.
pub proof fn lemma_first_comma(s: Seq<char>, end: int)
    requires
        0 <= end <= s.len(),
        forall|j: int| 0 <= j < end ==> s[j] != ',',
        end == s.len() || s[end] == ',',
    ensures
        first_comma(s) == end,
    decreases end,
{
    if end > 0 {
        let rest = s.drop_first();
        assert forall|j: int| 0 <= j < end - 1 implies rest[j] != ',' by {
            assert(rest[j] == s[j + 1]);
        }
        lemma_first_comma(rest, end - 1);
    }
}

/// Reads a decimal number of at most `max`.
pub fn parse_decimal(s: &str, max: u64) -> (res: Result<u64, IntError>)
    ensures
        match parse_number(s@, max as nat) {
            Ok(n) => n <= max && res == Ok::<u64, IntError>(n as u64),
            Err(e) => res == Err::<u64, IntError>(e),
        },
{
    let len = s.unicode_len();
    if len == 0 {
        return Err(IntError::Empty);
    }
    let mut i: usize = if s.get_char(0) == '+' {
        1
    } else {
        0
    };
    if i == len {
        return Err(IntError::InvalidDigit);
    }
    let ghost digits = s@.skip(i as int);
    assert(digits =~= if s@[0] == '+' {
        s@.drop_first()
    } else {
        s@
    });
    let ghost first = i;
    let mut acc: u64 = 0;
    while i < len
        invariant
            first <= i <= len,
            len == s@.len(),
            digits == s@.skip(first as int),
            parse_number(s@, max as nat) == scan_digits(digits, 0, max as nat),
            acc <= max,
            scan_digits(digits, 0, max as nat) == scan_digits(s@.skip(i as int), acc as nat, max as nat),
        decreases len - i,
    {
        let c = s.get_char(i);
        let ghost tail = s@.skip(i as int);
        assert(tail[0] == c);
        assert(tail.drop_first() =~= s@.skip(i + 1));
        if !(c >= '0' && c <= '9') {
            return Err(IntError::InvalidDigit);
        }
        let d: u64 = (c as u32 - '0' as u32) as u64;
        let next = match acc.checked_mul(10) {
            Some(tens) => tens.checked_add(d),
            None => None,
        };
        match next {
            Some(n) if n <= max => {
                acc = n;
            },
            _ => {
                return Err(IntError::PosOverflow);
            },
        }
        i += 1;
    }
    assert(s@.skip(len as int).len() == 0);
    Ok(acc)
}

/// Reads a decimal number that fits a `usize`.
pub fn parse_usize(s: &str) -> (res: Result<usize, IntError>)
    ensures
        match parse_number(s@, usize::MAX as nat) {
            Ok(n) => n <= usize::MAX && res == Ok::<usize, IntError>(n as usize),
            Err(e) => res == Err::<usize, IntError>(e),
        },
{
    match parse_decimal(s, usize::MAX as u64) {
        Ok(n) => Ok(n as usize),
        Err(e) => Err(e),
    }
}

/// The message for an option whose argument is no number.
pub fn fmt_err(opt: &str, err: IntError) -> (msg: String)
    ensures
        msg@ == parse_failure(opt@, err),
{
    String::from_str("failed to parse argument for '").concat(opt).concat("': ").concat(err.text())
}

/// The position of the first comma at or behind `start`, or the length of
/// the text where none follows.
fn find_comma(text: &str, start: usize, len: usize) -> (end: usize)
    requires
        start <= len,
        len == text@.len(),
    ensures
        start <= end <= len,
        first_comma(text@.skip(start as int)) == end - start,
{
    let mut end = start;
    while end < len && text.get_char(end) != ','
        invariant
            start <= end <= len,
            len == text@.len(),
            forall|j: int| start <= j < end ==> text@[j] != ',',
        decreases len - end,
    {
        end += 1;
    }
    proof {
        lemma_first_comma(text@.skip(start as int), end - start);
    }
    end
}

/// Reads a comma-separated list of executor ids.
fn parse_fixed(text: &str) -> (res: Result<Vec<ExecutorId>, String>)
    ensures
        match fixed_ids(text@) {
            Ok(ids) => res matches Ok(v) && v@ == ids,
            Err(msg) => res matches Err(m) && m@ == msg,
        },
{
    let len = text.unicode_len();
    let mut ids: Vec<ExecutorId> = Vec::new();
    let mut start: usize = 0;
    assert(text@.skip(0) =~= text@);
    loop
        invariant_except_break
            start <= len,
            len == text@.len(),
            fixed_ids(text@) == (match fixed_ids(text@.skip(start as int)) {
                Ok(rest) => Ok::<Seq<ExecutorId>, Seq<char>>(ids@ + rest),
                Err(msg) => Err::<Seq<ExecutorId>, Seq<char>>(msg),
            }),
        ensures
            fixed_ids(text@) == Ok::<Seq<ExecutorId>, Seq<char>>(ids@),
        decreases len - start,
    {
        let ghost tail = text@.skip(start as int);
        let ghost done = ids@;
        let end = find_comma(text, start, len);
        let piece = text.substring_char(start, end);
        assert(piece@ =~= tail.take(end - start));
        match parse_decimal(piece, u64::MAX) {
            Err(e) => {
                return Err(fmt_err("fixed", e));
            },
            Ok(id) => {
                ids.push(ExecutorId(id));
            },
        }
        if end == len {
            assert(ids@ =~= done + seq![ids@.last()]);
            break;
        }
        proof {
            assert(tail.skip(end - start + 1) =~= text@.skip(end + 1));
            match fixed_ids(text@.skip(end + 1)) {
                Ok(rest) => {
                    assert(ids@ + rest =~= done + (seq![ids@.last()] + rest));
                },
                Err(_) => {},
            }
        }
        start = end + 1;
    }
    Ok(ids)
}

/// Finds the first executor of the catalog with this host name.
fn lookup_host(executors: &Vec<Executor>, name: &str) -> (res: Option<ExecutorId>)
    ensures
        res == find_host(catalog_view(executors@), name@),
{
    let ghost all = catalog_view(executors@);
    let mut i: usize = 0;
    assert(all.skip(0) =~= all);
    while i < executors.len()
        invariant
            i <= executors@.len(),
            all == catalog_view(executors@),
            find_host(all, name@) == find_host(all.skip(i as int), name@),
        decreases executors@.len() - i,
    {
        let ghost tail = all.skip(i as int);
        assert(tail[0] == executors@[i as int]@);
        assert(tail.drop_first() =~= all.skip(i + 1));
        if str_eq(executors[i].host.as_str(), name) {
            return Some(executors[i].id);
        }
        i += 1;
    }
    None
}

/// Reads a comma-separated list of executor host names.
fn parse_hosts(text: &str, executors: &Vec<Executor>) -> (res: Result<Vec<ExecutorId>, String>)
    ensures
        match host_ids(text@, catalog_view(executors@)) {
            Ok(ids) => res matches Ok(v) && v@ == ids,
            Err(msg) => res matches Err(m) && m@ == msg,
        },
{
    let ghost all = catalog_view(executors@);
    let len = text.unicode_len();
    let mut ids: Vec<ExecutorId> = Vec::new();
    let mut start: usize = 0;
    assert(text@.skip(0) =~= text@);
    loop
        invariant_except_break
            start <= len,
            len == text@.len(),
            all == catalog_view(executors@),
            host_ids(text@, all) == (match host_ids(text@.skip(start as int), all) {
                Ok(rest) => Ok::<Seq<ExecutorId>, Seq<char>>(ids@ + rest),
                Err(msg) => Err::<Seq<ExecutorId>, Seq<char>>(msg),
            }),
        ensures
            host_ids(text@, catalog_view(executors@)) == Ok::<Seq<ExecutorId>, Seq<char>>(ids@),
        decreases len - start,
    {
        let ghost tail = text@.skip(start as int);
        let ghost done = ids@;
        let end = find_comma(text, start, len);
        let name = text.substring_char(start, end);
        assert(name@ =~= tail.take(end - start));
        match lookup_host(executors, name) {
            None => {
                return Err(String::from_str("unknown executor '").concat(name).concat("'"));
            },
            Some(id) => {
                ids.push(id);
            },
        }
        if end == len {
            assert(ids@ =~= done + seq![ids@.last()]);
            break;
        }
        proof {
            assert(tail.skip(end - start + 1) =~= text@.skip(end + 1));
            match host_ids(text@.skip(end + 1), all) {
                Ok(rest) => {
                    assert(ids@ + rest =~= done + (seq![ids@.last()] + rest));
                },
                Err(_) => {},
            }
        }
        start = end + 1;
    }
    Ok(ids)
}

/// Works out the placement that the user asked for.
pub fn parse_placement(options: &PlacementOptions, executors: &Vec<Executor>) -> (res: Result<
    Placement,
    String,
>)
    ensures
        match placement_of(
            option_text(options.workers),
            option_text(options.random),
            option_text(options.fixed),
            option_text(options.hosts),
            catalog_view(executors@),
        ) {
            Ok(placement) => res matches Ok(p) && p@ == placement,
            Err(msg) => res matches Err(m) && m@ == msg,
        },
{
    let workers: usize = match &options.workers {
        Some(w) => match parse_usize(w.as_str()) {
            Ok(n) => n,
            Err(e) => {
                return Err(fmt_err("workers", e));
            },
        },
        None => 1,
    };
    match (&options.random, &options.fixed, &options.hosts) {
        (Some(r), None, None) => match parse_usize(r.as_str()) {
            Ok(n) => Ok(Placement::Random(n, workers)),
            Err(e) => Err(fmt_err("random", e)),
        },
        (None, Some(f), None) => match parse_fixed(f.as_str()) {
            Ok(ids) => Ok(Placement::Fixed(ids, workers)),
            Err(msg) => Err(msg),
        },
        (None, None, Some(n)) => match parse_hosts(n.as_str(), executors) {
            Ok(ids) => Ok(Placement::Fixed(ids, workers)),
            Err(msg) => Err(msg),
        },
        (None, None, None) => Ok(Placement::Random(1, workers)),
        _ => Err(String::from_str("Options 'random', 'fixed', and 'hosts' are mutually exclusive")),
    }
}

} // verus!
