//! External commands: where a binary is looked for, the temporary output
//! path a command writes to, what a run can end in, the retained tail of
//! its stderr, and reading ffmpeg's progress reports.

use crate::descriptor::{ProgressSpec, SuccessSpec};
use crate::path::{file_name_of, join_paths, parent_of, path_file_name, path_join, path_parent};
use crate::text::{
    chars_of, find_char_from, find_from, lemma_find_from, push_str, starts_with, trim, trim_chars,
};
use vstd::prelude::*;

verus! {

// ---------------------------------------------------------------------------
// Decimal numbers

pub open spec fn is_digit(c: char) -> bool {
    '0' <= c && c <= '9'
}

pub open spec fn all_digits(s: Seq<char>) -> bool {
    forall|i: int| 0 <= i < s.len() ==> is_digit(#[trigger] s[i])
}

/// The number a string of decimal digits writes.
pub open spec fn digits_value(s: Seq<char>) -> int
    decreases s.len(),
{
    if s.len() == 0 {
        0
    } else {
        digits_value(s.drop_last()) * 10 + (s.last() as int - '0' as int)
    }
}

/// A non-empty run of decimal digits whose value fits in a `u64`.
pub open spec fn parse_u64(s: Seq<char>) -> Option<int> {
    if s.len() > 0 && all_digits(s) && digits_value(s) <= u64::MAX {
        Some(digits_value(s))
    } else {
        None
    }
}

pub proof fn lemma_digits_value_prefix(s: Seq<char>, i: int)
    requires
        all_digits(s),
        0 <= i <= s.len(),
    ensures
        0 <= digits_value(s.take(i)) <= digits_value(s),
    decreases s.len(),
{
    if s.len() > 0 {
        assert(all_digits(s.drop_last())) by {
            assert forall|k: int| 0 <= k < s.drop_last().len() implies is_digit(#[trigger] s.drop_last()[k]) by {
                assert(s.drop_last()[k] == s[k]);
            }
        }
        if i == s.len() {
            assert(s.take(i) =~= s);
            lemma_digits_value_prefix(s.drop_last(), i - 1);
            assert(s.drop_last().take(i - 1) =~= s.drop_last().take(s.drop_last().len() as int));
            assert(s.drop_last().take(s.drop_last().len() as int) =~= s.drop_last());
        } else {
            lemma_digits_value_prefix(s.drop_last(), i);
            assert(s.drop_last().take(i) =~= s.take(i));
            lemma_digits_value_prefix(s.drop_last(), s.drop_last().len() as int);
            assert(s.drop_last().take(s.drop_last().len() as int) =~= s.drop_last());
        }
        assert(is_digit(s.last()));
    } else {
        assert(s.take(i) =~= s);
    }
}

/// The digits `s[from..to]` as a `u64`.
fn parse_u64_exec(s: &Vec<char>, from: usize, to: usize) -> (r: Option<u64>)
    requires
        from <= to <= s@.len(),
    ensures
        r matches Some(v) ==> parse_u64(s@.subrange(from as int, to as int)) == Some(v as int),
        r is None ==> parse_u64(s@.subrange(from as int, to as int)) is None,
{
    let ghost t = s@.subrange(from as int, to as int);
    if from == to {
        return None;
    }
    let mut acc: u64 = 0;
    let mut i: usize = from;
    while i < to
        invariant
            from <= i <= to <= s@.len(),
            t == s@.subrange(from as int, to as int),
            all_digits(t.take(i - from)),
            acc as int == digits_value(t.take(i - from)),
        decreases to - i,
    {
        let c = s[i];
        assert(t[i - from] == c);
        if !('0' <= c && c <= '9') {
            assert(!all_digits(t));
            return None;
        }
        let d: u64 = (c as u32 - '0' as u32) as u64;
        assert(t.take(i - from + 1).drop_last() =~= t.take(i - from));
        assert(t.take(i - from + 1).last() == c);
        if acc > (u64::MAX - d) / 10 {
            assert(acc * 10 + d > u64::MAX) by (nonlinear_arith)
                requires
                    acc > (u64::MAX - d) / 10,
                    d <= 9,
            ;
            proof {
                assert(all_digits(t.take(i - from + 1)));
                if all_digits(t) {
                    lemma_digits_value_prefix(t, i - from + 1);
                }
            }
            return None;
        }
        assert(acc * 10 + d <= u64::MAX) by (nonlinear_arith)
            requires
                acc <= (u64::MAX - d) / 10,
                d <= 9,
        ;
        acc = acc * 10 + d;
        i += 1;
    }
    assert(t.take(to - from) =~= t);
    Some(acc)
}

/// `10^n`.
pub open spec fn pow10(n: nat) -> int
    decreases n,
{
    if n == 0 {
        1
    } else {
        10 * pow10((n - 1) as nat)
    }
}

/// A fractional-seconds field as microseconds: its first six digits,
/// scaled; further digits are dropped.
pub open spec fn frac_micros(f: Seq<char>) -> Option<int> {
    if f.len() > 0 && all_digits(f) {
        let k: nat = if f.len() < 6 {
            f.len()
        } else {
            6
        };
        Some(digits_value(f.take(k as int)) * pow10((6 - k) as nat))
    } else {
        None
    }
}

/// A clock reading `H:M:S` or `H:M:S.F` (as in ffmpeg's `Duration:` line)
/// in microseconds, when it is well formed and fits in a `u64`.
pub open spec fn parse_clock(t: Seq<char>) -> Option<int> {
    match find_from(t, ':', 0) {
        None => None,
        Some(c1) => match find_from(t, ':', c1 + 1) {
            None => None,
            Some(c2) => if find_from(t, ':', c2 + 1) is Some {
                None
            } else {
                let h = parse_u64(t.subrange(0, c1));
                let m = parse_u64(t.subrange(c1 + 1, c2));
                let (s, f) = match find_from(t, '.', c2 + 1) {
                    None => (parse_u64(t.subrange(c2 + 1, t.len() as int)), Some(0int)),
                    Some(p) => (
                        parse_u64(t.subrange(c2 + 1, p)),
                        frac_micros(t.subrange(p + 1, t.len() as int)),
                    ),
                };
                match (h, m, s, f) {
                    (Some(h), Some(m), Some(s), Some(f)) => {
                        let v = ((h * 60 + m) * 60 + s) * 1_000_000 + f;
                        if v <= u64::MAX {
                            Some(v)
                        } else {
                            None
                        }
                    },
                    _ => None,
                }
            },
        },
    }
}

fn frac_micros_exec(s: &Vec<char>, from: usize) -> (r: Option<u64>)
    requires
        from <= s@.len(),
    ensures
        r matches Some(v) ==> frac_micros(s@.subrange(from as int, s@.len() as int)) == Some(v as int),
        r is None ==> frac_micros(s@.subrange(from as int, s@.len() as int)) is None,
{
    let ghost f = s@.subrange(from as int, s@.len() as int);
    let n = s.len() - from;
    if n == 0 {
        return None;
    }
    let mut i: usize = from;
    while i < s.len()
        invariant
            from <= i <= s@.len(),
            f == s@.subrange(from as int, s@.len() as int),
            forall|k: int| 0 <= k < i - from ==> is_digit(#[trigger] f[k]),
        decreases s.len() - i,
    {
        if !('0' <= s[i] && s[i] <= '9') {
            assert(!is_digit(f[i - from]));
            return None;
        }
        i += 1;
    }
    assert(all_digits(f));
    let k: usize = if n < 6 { n } else { 6 };
    let digits = parse_u64_exec(s, from, from + k);
    assert(s@.subrange(from as int, (from + k) as int) =~= f.take(k as int));
    proof {
        lemma_digits_value_prefix(f, k as int);
        assert(all_digits(f.take(k as int))) by {
            assert forall|q: int| 0 <= q < f.take(k as int).len() implies is_digit(#[trigger] f.take(k as int)[q]) by {
                assert(f.take(k as int)[q] == f[q]);
            }
        }
        lemma_digits_six(f.take(k as int));
    }
    let v = match digits {
        Some(v) => v,
        None => {
            return None;
        },
    };
    let mut scale: u64 = 1;
    let mut j: usize = k;
    while j < 6
        invariant
            1 <= k <= j <= 6,
            scale as int == pow10((j - k) as nat),
            pow10((j - k) as nat) <= 100000,
        decreases 6 - j,
    {
        proof {
            lemma_pow10_small((j + 1 - k) as nat);
        }
        scale = scale * 10;
        j += 1;
    }
    assert(v < 1_000_000);
    assert(v * scale < 100_000_000_000u64) by (nonlinear_arith)
        requires
            v < 1_000_000,
            scale <= 100000,
    ;
    Some(v * scale)
}

proof fn lemma_pow10_small(n: nat)
    requires
        n <= 5,
    ensures
        pow10(n) <= 100000,
        pow10(n) >= 1,
{
    reveal_with_fuel(pow10, 6);
}

proof fn lemma_digits_six(s: Seq<char>)
    requires
        s.len() <= 6,
        all_digits(s),
    ensures
        0 <= digits_value(s) < 1_000_000,
        digits_value(s) < pow10(s.len()),
    decreases s.len(),
{
    if s.len() > 0 {
        assert(all_digits(s.drop_last())) by {
            assert forall|k: int| 0 <= k < s.drop_last().len() implies is_digit(#[trigger] s.drop_last()[k]) by {
                assert(s.drop_last()[k] == s[k]);
            }
        }
        lemma_digits_six(s.drop_last());
        assert(is_digit(s.last()));
        lemma_pow10_small(s.drop_last().len());
        reveal_with_fuel(pow10, 7);
    }
}

/// The clock reading `s[from..to]` in microseconds.
fn parse_clock_exec(s: &Vec<char>) -> (r: Option<u64>)
    ensures
        r matches Some(v) ==> parse_clock(s@) == Some(v as int),
        r is None ==> parse_clock(s@) is None,
{
    let c1 = match find_char_from(s, ':', 0) {
        Some(c) => c,
        None => {
            return None;
        },
    };
    proof {
        lemma_find_from(s@, ':', 0);
    }
    assert(c1 < s@.len());
    assert(c1 < s.len());
    let c2 = match find_char_from(s, ':', c1 + 1) {
        Some(c) => c,
        None => {
            return None;
        },
    };
    proof {
        lemma_find_from(s@, ':', (c1 + 1) as int);
    }
    assert(c2 < s@.len());
    assert(c2 < s.len());
    if find_char_from(s, ':', c2 + 1).is_some() {
        return None;
    }
    let h = parse_u64_exec(s, 0, c1);
    let m = parse_u64_exec(s, c1 + 1, c2);
    let (sec, frac) = match find_char_from(s, '.', c2 + 1) {
        None => (parse_u64_exec(s, c2 + 1, s.len()), Some(0u64)),
        Some(p) => {
            proof {
                lemma_find_from(s@, '.', (c2 + 1) as int);
            }
            (parse_u64_exec(s, c2 + 1, p), frac_micros_exec(s, p + 1))
        },
    };
    match (h, m, sec, frac) {
        (Some(h), Some(m), Some(sec), Some(frac)) => {
            let v: u128 = ((h as u128 * 60 + m as u128) * 60 + sec as u128) * 1_000_000
                + frac as u128;
            if v <= u64::MAX as u128 {
                Some(v as u64)
            } else {
                None
            }
        },
        _ => None,
    }
}

// ---------------------------------------------------------------------------
// ffmpeg progress

/// The text of the `Duration:` field of a line that starts with it: up to
/// the first `,`.
pub open spec fn duration_field(t: Seq<char>) -> Seq<char> {
    let rest = t.skip(10);
    match find_from(rest, ',', 0) {
        Some(c) => rest.take(c),
        None => rest,
    }
}

/// The percentage of `out_us` in `duration_us`, rounded down, at most 100.
pub open spec fn percent_of(out_us: int, duration_us: int) -> int {
    if out_us * 100 / duration_us > 100 {
        100
    } else {
        out_us * 100 / duration_us
    }
}

/// One stderr line's effect on the reader: the duration it now knows, and
/// the percentage to report, if any. A `Duration:` banner line sets the
/// duration; an `out_time_us=` report line gives a percentage once the
/// duration is known and non-zero; every other line is ignored.
pub open spec fn progress_step(duration: Option<u64>, line: Seq<char>) -> (Option<u64>, Option<u8>) {
    let t = trim(line);
    if starts_with(t, "Duration: "@) {
        match parse_clock(duration_field(t)) {
            Some(v) => (Some(v as u64), None),
            None => (duration, None),
        }
    } else if starts_with(t, "out_time_us="@) {
        match (duration, parse_u64(t.skip(12))) {
            (Some(d), Some(u)) => if d > 0 {
                (duration, Some(percent_of(u, d as int) as u8))
            } else {
                (duration, None)
            },
            _ => (duration, None),
        }
    } else {
        (duration, None)
    }
}

/// Reads ffmpeg's `-progress pipe:2 -nostats` reports on stderr against the
/// `Duration:` line of its banner on the same stream.
#[derive(Debug, Clone, PartialEq)]
pub struct FfmpegProgress {
    pub duration_us: Option<u64>,
}

fn chars_start_with_lit(s: &Vec<char>, prefix: &str) -> (r: bool)
    ensures
        r == starts_with(s@, prefix@),
{
    let p = chars_of(prefix);
    if p.len() > s.len() {
        return false;
    }
    let mut i: usize = 0;
    while i < p.len()
        invariant
            p@ == prefix@,
            p@.len() <= s@.len(),
            i <= p@.len(),
            forall|k: int| 0 <= k < i ==> s@[k] == p@[k],
        decreases p.len() - i,
    {
        if s[i] != p[i] {
            assert(s@.take(p@.len() as int)[i as int] != p@[i as int]);
            return false;
        }
        i += 1;
    }
    assert(s@.take(p@.len() as int) =~= p@);
    true
}

impl FfmpegProgress {
    /// A reader that has not seen a duration yet.
    pub fn new() -> (p: Self)
        ensures
            p.duration_us is None,
    {
        FfmpegProgress { duration_us: None }
    }

    /// Takes one stderr line; returns the percentage it reports, if any.
    pub fn feed_line(&mut self, line: &str) -> (r: Option<u8>)
        ensures
            (final(self).duration_us, r) == progress_step(old(self).duration_us, line@),
    {
        let raw = chars_of(line);
        let t = trim_chars(&raw);
        proof {
            reveal_strlit("Duration: ");
            reveal_strlit("out_time_us=");
        }
        if chars_start_with_lit(&t, "Duration: ") {
            let n = t.len();
            let mut end: usize = n;
            match find_char_from(&t, ',', 10) {
                Some(c) => {
                    end = c;
                },
                None => {},
            }
            proof {
                lemma_find_from(t@, ',', 10);
                let rest = t@.skip(10);
                lemma_find_from(rest, ',', 0);
                lemma_find_offset(t@, ',', 10);
            }
            let mut field: Vec<char> = Vec::new();
            let mut i: usize = 10;
            while i < end
                invariant
                    10 <= i <= end <= t@.len(),
                    field@ == t@.subrange(10, i as int),
                decreases end - i,
            {
                field.push(t[i]);
                i += 1;
                assert(field@ =~= t@.subrange(10, i as int));
            }
            assert(field@ =~= duration_field(t@));
            match parse_clock_exec(&field) {
                Some(v) => {
                    self.duration_us = Some(v);
                },
                None => {},
            }
            None
        } else if chars_start_with_lit(&t, "out_time_us=") {
            let v = parse_u64_exec(&t, 12, t.len());
            assert(t@.subrange(12, t@.len() as int) =~= t@.skip(12));
            match (self.duration_us, v) {
                (Some(d), Some(u)) => {
                    if d > 0 {
                        let scaled: u128 = u as u128 * 100 / d as u128;
                        let pct: u8 = if scaled > 100 { 100 } else { scaled as u8 };
                        Some(pct)
                    } else {
                        None
                    }
                },
                _ => None,
            }
        } else {
            None
        }
    }
}

proof fn lemma_find_offset(t: Seq<char>, c: char, from: int)
    requires
        0 <= from <= t.len(),
    ensures
        find_from(t, c, from) matches Some(k) ==> find_from(t.skip(from), c, 0) == Some(k - from),
        find_from(t, c, from) is None ==> find_from(t.skip(from), c, 0) is None,
    decreases t.len() - from,
{
    let r = t.skip(from);
    lemma_find_from(t, c, from);
    lemma_find_from(r, c, 0);
    if let Some(k) = find_from(t, c, from) {
        assert(r[k - from] == c);
        if let Some(j) = find_from(r, c, 0) {
            assert(t[j + from] == r[j]);
        }
    } else {
        if let Some(j) = find_from(r, c, 0) {
            assert(t[j + from] == r[j]);
        }
    }
}

// ---------------------------------------------------------------------------
// Output plans

/// The name of the temporary file a command writes in place of `final_path`.
pub open spec fn temp_name(final_path: Seq<char>, token: Seq<char>) -> Seq<char> {
    ".wield-tmp-"@ + token + "-"@ + match path_file_name(final_path) {
        Some(n) => n,
        None => "output"@,
    }
}

/// The temporary file beside `final_path`.
pub open spec fn temp_path(final_path: Seq<char>, token: Seq<char>) -> Seq<char> {
    path_join(
        match path_parent(final_path) {
            Some(p) => p,
            None => ""@,
        },
        temp_name(final_path, token),
    )
}

/// Where a command writes (`temp`) and where its output is moved once the
/// command succeeds (`final_path`).
#[derive(Debug, Clone, PartialEq)]
pub struct OutputPlan {
    pub temp: String,
    pub final_path: String,
}

/// A lower-case hexadecimal digit.
pub open spec fn is_lower_hex(c: char) -> bool {
    ('0' <= c && c <= '9') || ('a' <= c && c <= 'f')
}

/// The hyphenated form of a UUID: 36 characters, hyphens at 8, 13, 18 and
/// 23, lower-case hexadecimal digits elsewhere.
pub open spec fn is_uuid_text(t: Seq<char>) -> bool {
    &&& t.len() == 36
    &&& forall|i: int|
        0 <= i < 36 ==> if i == 8 || i == 13 || i == 18 || i == 23 {
            #[trigger] t[i] == '-'
        } else {
            is_lower_hex(t[i])
        }
}

/// Calls `uuid::Uuid::new_v4` and renders it (`Display`, the lower-case
/// hyphenated form). The value is random: only its shape is stated.
#[verifier::external_body]
pub(crate) fn fresh_token() -> (t: String)
    ensures
        is_uuid_text(t@),
{
    uuid::Uuid::new_v4().to_string()
}

impl OutputPlan {
    /// The plan for `final_path` whose temporary name carries `token`.
    pub fn for_final_with(final_path: String, token: &str) -> (p: Self)
        ensures
            p.final_path@ == final_path@,
            p.temp@ == temp_path(final_path@, token@),
    {
        let name = match file_name_of(final_path.as_str()) {
            Some(n) => n,
            None => "output".to_owned(),
        };
        let mut tname = String::new();
        push_str(&mut tname, ".wield-tmp-");
        push_str(&mut tname, token);
        push_str(&mut tname, "-");
        push_str(&mut tname, name.as_str());
        let parent = match parent_of(final_path.as_str()) {
            Some(p) => p,
            None => String::new(),
        };
        proof {
            reveal_strlit("output");
            reveal_strlit("");
        }
        assert(tname@ =~= temp_name(final_path@, token@));
        assert(parent@ == (match path_parent(final_path@) {
            Some(p) => p,
            None => ""@,
        }));
        let temp = join_paths(parent.as_str(), tname.as_str());
        OutputPlan { temp, final_path }
    }

    /// The plan for `final_path`, its temporary name made unique with a
    /// random UUID.
    pub fn for_final(final_path: String) -> (p: Self)
        ensures
            p.final_path@ == final_path@,
            exists|token: Seq<char>| is_uuid_text(token) && p.temp@ == temp_path(final_path@, token),
    {
        let token = fresh_token();
        OutputPlan::for_final_with(final_path, token.as_str())
    }
}

// ---------------------------------------------------------------------------
// Results

/// How a command run ended.
#[derive(Debug, Clone, PartialEq, Eq)]
pub enum CommandResult {
    Success { output_file: Option<String> },
    NonZeroExit { code: Option<i32>, stderr_tail: String },
    Timeout,
    Cancelled,
    SpawnFailed { detail: String },
    OutputMissing,
}

/// How many trailing bytes of a command's stderr are kept.
pub const STDERR_TAIL_LIMIT: usize = 8192;

/// `String::from_utf8_lossy` of `bytes`: the UTF-8 decoding, with each
/// invalid sequence replaced by U+FFFD.
pub uninterp spec fn utf8_lossy(bytes: Seq<u8>) -> Seq<char>;

/// Calls `String::from_utf8_lossy`; the contract names the result.
#[verifier::external_body]
fn lossy_text(bytes: &[u8]) -> (s: String)
    ensures
        s@ == utf8_lossy(bytes@),
{
    String::from_utf8_lossy(bytes).into_owned()
}

/// The last `STDERR_TAIL_LIMIT` bytes of `bytes` (all of them when fewer),
/// decoded as UTF-8 with invalid sequences replaced.
pub fn retained_tail(bytes: &[u8]) -> (s: String)
    ensures
        bytes@.len() <= STDERR_TAIL_LIMIT ==> s@ == utf8_lossy(bytes@),
        bytes@.len() > STDERR_TAIL_LIMIT ==> s@ == utf8_lossy(
            bytes@.subrange(bytes@.len() - STDERR_TAIL_LIMIT, bytes@.len() as int),
        ),
{
    let start: usize = if bytes.len() > STDERR_TAIL_LIMIT {
        bytes.len() - STDERR_TAIL_LIMIT
    } else {
        0
    };
    let tail = vstd::slice::slice_subrange(bytes, start, bytes.len());
    assert(start == 0 ==> bytes@.subrange(0, bytes@.len() as int) =~= bytes@);
    lossy_text(tail)
}

/// The text `retained_tail` keeps of `bytes`.
pub open spec fn tail_text(bytes: Seq<u8>) -> Seq<char> {
    if bytes.len() <= STDERR_TAIL_LIMIT {
        utf8_lossy(bytes)
    } else {
        utf8_lossy(bytes.subrange(bytes.len() - STDERR_TAIL_LIMIT, bytes.len() as int))
    }
}

/// Runs external commands. Spawning, waiting and the file system are the
/// caller's; what a run's end means is decided here.
#[derive(Debug, Default, Clone, Copy)]
pub struct CommandRunner;

/// How waiting for a command ended.
#[derive(Debug, Clone, PartialEq, Eq)]
pub enum ExitStatus {
    /// Waiting failed, with the error's text.
    WaitFailed(String),
    /// The process exited: whether its status is a success, and its exit
    /// code when it has one.
    Exited { success: bool, code: Option<i32> },
}

/// What follows a command's exit.
#[derive(Debug, Clone, PartialEq, Eq)]
pub enum AfterExit {
    /// Move the output into place (see [`CommandRunner::finish_step`]).
    Finish,
    /// Remove the temporary output; the run ended with this result.
    Fail(CommandResult),
}

/// What finishing a successful run does next.
#[derive(Debug, Clone, PartialEq, Eq)]
pub enum FinishStep {
    /// Nothing to move: the run ended with this result.
    Done(CommandResult),
    /// Flush the temporary file and rename it onto the final path.
    Move,
}

impl CommandRunner {
    /// What a command's exit status means: a success is finished, a failed
    /// wait is a spawn failure, and any other exit keeps its code and the
    /// tail of the command's stderr.
    pub fn after_exit(status: ExitStatus, success: &SuccessSpec, stderr: &[u8]) -> (a: AfterExit)
        ensures
            status matches ExitStatus::WaitFailed(d) ==> (a matches AfterExit::Fail(
                CommandResult::SpawnFailed { detail },
            ) && detail@ == d@),
            status matches ExitStatus::Exited { success: true, .. } ==> a is Finish,
            status matches ExitStatus::Exited { success: false, code } ==> (a matches AfterExit::Fail(
                CommandResult::NonZeroExit { code: c, stderr_tail },
            ) && c == code && stderr_tail@ == tail_text(stderr@)),
    {
        match status {
            ExitStatus::WaitFailed(detail) => AfterExit::Fail(CommandResult::SpawnFailed { detail }),
            ExitStatus::Exited { success: ok, code } => {
                let exit_zero = match success {
                    SuccessSpec::ExitZero => ok,
                };
                if exit_zero {
                    AfterExit::Finish
                } else {
                    AfterExit::Fail(CommandResult::NonZeroExit { code, stderr_tail: retained_tail(stderr) })
                }
            },
        }
    }

    /// The first step of finishing: with no output planned the run simply
    /// succeeded; a temporary file that is not there means the output is
    /// missing; otherwise it is moved into place.
    pub fn finish_step(plan: Option<&OutputPlan>, temp_is_file: bool) -> (f: FinishStep)
        ensures
            plan is None ==> f == FinishStep::Done(CommandResult::Success { output_file: None }),
            plan is Some && !temp_is_file ==> f == FinishStep::Done(CommandResult::OutputMissing),
            plan is Some && temp_is_file ==> f is Move,
    {
        match plan {
            None => FinishStep::Done(CommandResult::Success { output_file: None }),
            Some(_) => if temp_is_file {
                FinishStep::Move
            } else {
                FinishStep::Done(CommandResult::OutputMissing)
            },
        }
    }

    /// The result of moving the output: the final path, or the error's text
    /// as a spawn failure (the temporary file is then removed).
    pub fn moved(plan: &OutputPlan, result: Result<(), String>) -> (r: CommandResult)
        ensures
            result is Ok ==> (r matches CommandResult::Success { output_file: Some(p) } && p@
                == plan.final_path@),
            result matches Err(e) ==> (r matches CommandResult::SpawnFailed { detail } && detail@ == e@),
    {
        match result {
            Ok(()) => CommandResult::Success { output_file: Some(plan.final_path.clone()) },
            Err(detail) => CommandResult::SpawnFailed { detail },
        }
    }
}

// ---------------------------------------------------------------------------
// Watching a running command

/// What the wait around a running command observed.
#[derive(Debug, Clone, PartialEq, Eq)]
pub enum RunEvent {
    /// A line of the command's stderr arrived.
    StderrLine(String),
    /// The time limit passed before the command exited.
    TimedOut,
    /// The run was cancelled before the command exited.
    CancelRequested,
    /// The command exited, or waiting on it failed.
    Exited,
}

/// What the wait does next.
#[derive(Debug, Clone, PartialEq, Eq)]
pub enum RunAction {
    /// Keep waiting.
    Wait,
    /// Report this percentage of progress, then keep waiting.
    Report(u8),
    /// Stop the command and its process group, remove the temporary
    /// output, and end the run with this result.
    Stop(CommandResult),
    /// Gather the command's stderr and settle the run with
    /// [`CommandRunner::after_exit`].
    Settle,
}

/// The decisions of the wait around one running command: its progress
/// reader, when its progress is tracked.
#[derive(Debug, Clone, PartialEq)]
pub struct RunWatch {
    pub progress: Option<FfmpegProgress>,
}

/// The progress reader a run with `spec` starts with.
pub open spec fn initial_reader(spec: ProgressSpec) -> Option<Option<u64>> {
    match spec {
        ProgressSpec::Untracked => None,
        ProgressSpec::FfmpegDuration => Some(None),
    }
}

/// The duration a watch's reader knows, when it has a reader.
pub open spec fn reader_state(w: RunWatch) -> Option<Option<u64>> {
    match w.progress {
        None => None,
        Some(p) => Some(p.duration_us),
    }
}

/// The next reader state and action after `event`, from reader state `r`.
pub open spec fn watch_step(r: Option<Option<u64>>, event: RunEvent) -> (Option<Option<u64>>, RunAction) {
    match event {
        RunEvent::StderrLine(line) => match r {
            None => (r, RunAction::Wait),
            Some(d) => {
                let (nd, pct) = progress_step(d, line@);
                (
                    Some(nd),
                    match pct {
                        Some(x) => RunAction::Report(x),
                        None => RunAction::Wait,
                    },
                )
            },
        },
        RunEvent::TimedOut => (r, RunAction::Stop(CommandResult::Timeout)),
        RunEvent::CancelRequested => (r, RunAction::Stop(CommandResult::Cancelled)),
        RunEvent::Exited => (r, RunAction::Settle),
    }
}

impl RunWatch {
    /// A watch for a run whose progress is read as `spec` says.
    pub fn new(spec: &ProgressSpec) -> (w: Self)
        ensures
            reader_state(w) == initial_reader(*spec),
    {
        match spec {
            ProgressSpec::Untracked => RunWatch { progress: None },
            ProgressSpec::FfmpegDuration => RunWatch { progress: Some(FfmpegProgress::new()) },
        }
    }

    /// Takes one event of the wait: a stderr line feeds the progress
    /// reader (and reports the percentage it gives), the time limit and a
    /// cancellation stop the command, and its exit settles the run.
    pub fn step(&mut self, event: RunEvent) -> (a: RunAction)
        ensures
            (reader_state(*final(self)), a) == watch_step(reader_state(*old(self)), event),
    {
        match event {
            RunEvent::StderrLine(line) => match &mut self.progress {
                None => RunAction::Wait,
                Some(reader) => match reader.feed_line(line.as_str()) {
                    Some(x) => RunAction::Report(x),
                    None => RunAction::Wait,
                },
            },
            RunEvent::TimedOut => RunAction::Stop(CommandResult::Timeout),
            RunEvent::CancelRequested => RunAction::Stop(CommandResult::Cancelled),
            RunEvent::Exited => RunAction::Settle,
        }
    }
}

// ---------------------------------------------------------------------------
// Finding binaries

/// Where binaries are looked for: extra directories first, then the
/// directories of the search path.
#[derive(Debug, Clone)]
pub struct BinaryResolver {
    pub extra_dirs: Vec<String>,
    pub search_path: Vec<String>,
}

/// A binary named with a `/` is a path of its own.
pub open spec fn names_a_path(binary: Seq<char>) -> bool {
    binary.contains('/')
}

/// The places `binary` is looked for, in order.
pub open spec fn candidate_paths(dirs: Seq<Seq<char>>, binary: Seq<char>) -> Seq<Seq<char>> {
    if names_a_path(binary) {
        seq![binary]
    } else {
        Seq::new(dirs.len(), |i: int| path_join(dirs[i], binary))
    }
}

impl BinaryResolver {
    /// A resolver that looks in `dirs` only.
    pub fn with_dirs(dirs: Vec<String>) -> (r: Self)
        ensures
            r.extra_dirs@ == dirs@,
            r.search_path@.len() == 0,
    {
        BinaryResolver { extra_dirs: dirs, search_path: Vec::new() }
    }

    /// The same resolver, also looking in `dirs` (the search path) after its
    /// own directories.
    pub fn with_search_path(self, dirs: Vec<String>) -> (r: Self)
        ensures
            r.extra_dirs@ == self.extra_dirs@,
            r.search_path@ == dirs@,
    {
        BinaryResolver { extra_dirs: self.extra_dirs, search_path: dirs }
    }

    /// Whether `binary` is given as a path rather than a name to look up.
    pub fn names_a_path(binary: &str) -> (b: bool)
        ensures
            b == names_a_path(binary@),
    {
        let c = chars_of(binary);
        let r = find_char_from(&c, '/', 0);
        proof {
            lemma_find_from(c@, '/', 0);
            if r is None {
                assert(!binary@.contains('/'));
            } else {
                assert(binary@[r->Some_0 as int] == '/');
            }
        }
        r.is_some()
    }

    /// The paths `binary` is looked for at, in the order they are tried:
    /// `binary` itself when it names a path, else `binary` in each extra
    /// directory and then in each search-path directory.
    pub fn candidates(&self, binary: &str) -> (r: Vec<String>)
        ensures
            views_of(r@) == candidate_paths(views_of(self.extra_dirs@) + views_of(self.search_path@), binary@),
    {
        let mut out: Vec<String> = Vec::new();
        if BinaryResolver::names_a_path(binary) {
            out.push(binary.to_owned());
            assert(views_of(out@) =~= seq![binary@]);
            return out;
        }
        let ghost dirs = views_of(self.extra_dirs@) + views_of(self.search_path@);
        let mut i: usize = 0;
        while i < self.extra_dirs.len()
            invariant
                i <= self.extra_dirs@.len(),
                dirs == views_of(self.extra_dirs@) + views_of(self.search_path@),
                views_of(out@) == Seq::new(i as nat, |q: int| path_join(dirs[q], binary@)),
                out@.len() == i,
            decreases self.extra_dirs.len() - i,
        {
            let ghost o0 = out@;
            out.push(join_paths(self.extra_dirs[i].as_str(), binary));
            assert(dirs[i as int] == self.extra_dirs@[i as int]@);
            assert forall|q: int| 0 <= q < i implies #[trigger] out@[q]@ == path_join(dirs[q], binary@) by {
                assert(out@[q] == o0[q]);
                assert(views_of(o0)[q] == o0[q]@);
                assert(views_of(o0)[q] == path_join(dirs[q], binary@));
            }
            assert(views_of(out@) =~= Seq::new((i + 1) as nat, |q: int| path_join(dirs[q], binary@)));
            i += 1;
        }
        let n = self.extra_dirs.len();
        let mut j: usize = 0;
        while j < self.search_path.len()
            invariant
                n == self.extra_dirs@.len(),
                j <= self.search_path@.len(),
                dirs == views_of(self.extra_dirs@) + views_of(self.search_path@),
                views_of(out@) == Seq::new((n + j) as nat, |q: int| path_join(dirs[q], binary@)),
                out@.len() == n + j,
            decreases self.search_path.len() - j,
        {
            let ghost o0 = out@;
            out.push(join_paths(self.search_path[j].as_str(), binary));
            assert(dirs[n + j] == self.search_path@[j as int]@);
            assert forall|q: int| 0 <= q < n + j implies #[trigger] out@[q]@ == path_join(dirs[q], binary@) by {
                assert(out@[q] == o0[q]);
                assert(views_of(o0)[q] == o0[q]@);
                assert(views_of(o0)[q] == path_join(dirs[q], binary@));
            }
            assert(views_of(out@) =~= Seq::new((n + j + 1) as nat, |q: int| path_join(dirs[q], binary@)));
            j += 1;
        }
        out
    }
}

/// The views of a list of strings.
pub open spec fn views_of(v: Seq<String>) -> Seq<Seq<char>> {
    Seq::new(v.len(), |i: int| v[i]@)
}

/// A reported percentage is never above 100.
pub proof fn law_percent_at_most_100(duration: Option<u64>, line: Seq<char>)
    ensures
        progress_step(duration, line).1 matches Some(p) ==> p <= 100,
{
    let t = trim(line);
    if !starts_with(t, "Duration: "@) && starts_with(t, "out_time_us="@) {
        if let (Some(d), Some(u)) = (duration, parse_u64(t.skip(12))) {
            if d > 0 {
                lemma_digits_value_prefix(t.skip(12), 0);
                assert(u * 100 / (d as int) >= 0) by (nonlinear_arith)
                    requires
                        u >= 0,
                        d > 0,
                ;
                assert(0 <= percent_of(u, d as int) <= 100);
            }
        }
    }
}

} // verus!
