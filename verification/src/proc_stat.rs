//! Process self-resource figures: what `/proc/self` says, read as text.

use crate::text::to_chars;
use vstd::prelude::*;
use vstd::slice::slice_subrange;

verus! {

/// Userspace clock ticks per second are 100 on the platforms in question, so one tick is 10 ms.
pub const MS_PER_CLOCK_TICK: u64 = 10;

/// The place of `utime` (field 14 of `/proc/self/stat`) among the fields after `comm`, the first
/// of which is field 3.
pub const UTIME: usize = 11;

/// The place of `stime` (field 15) among the fields after `comm`.
pub const STIME: usize = 12;

/// The place of `num_threads` (field 20) among the fields after `comm`.
pub const NUM_THREADS: usize = 17;

/// Whether a character is white space, as Unicode has it.
pub open spec fn is_white(c: char) -> bool {
    ||| '\u{9}' <= c <= '\u{d}'
    ||| c == ' '
    ||| c == '\u{85}'
    ||| c == '\u{a0}'
    ||| c == '\u{1680}'
    ||| '\u{2000}' <= c <= '\u{200a}'
    ||| c == '\u{2028}'
    ||| c == '\u{2029}'
    ||| c == '\u{202f}'
    ||| c == '\u{205f}'
    ||| c == '\u{3000}'
}

/// How many characters precede the first white space.
pub open spec fn word_len(s: Seq<char>) -> nat
    decreases s.len(),
{
    if s.len() == 0 || is_white(s[0]) {
        0
    } else {
        1 + word_len(s.skip(1))
    }
}

/// Field `n` of a text whose fields are separated by white space.
pub open spec fn field_at(s: Seq<char>, n: nat) -> Option<Seq<char>>
    decreases n, s.len(),
{
    if s.len() == 0 {
        None
    } else if is_white(s[0]) {
        field_at(s.skip(1), n)
    } else if n == 0 {
        Some(s.take(word_len(s) as int))
    } else {
        field_at(s.skip(word_len(s) as int), (n - 1) as nat)
    }
}

/// Whether a character is a decimal digit.
pub open spec fn is_digit(c: char) -> bool {
    '0' <= c <= '9'
}

/// The number that decimal digits write.
pub open spec fn decimal(s: Seq<char>) -> nat
    decreases s.len(),
{
    if s.len() == 0 {
        0
    } else {
        decimal(s.drop_last()) * 10 + (s.last() as nat - '0' as nat) as nat
    }
}

/// The digits of a written number: what follows an optional `+`.
pub open spec fn digits(s: Seq<char>) -> Seq<char> {
    if s.len() > 0 && s[0] == '+' {
        s.skip(1)
    } else {
        s
    }
}

/// The number that `s` writes, if it writes one that fits.
pub open spec fn number(s: Seq<char>) -> Option<u64> {
    let d = digits(s);
    if d.len() > 0 && (forall|i: int| 0 <= i < d.len() ==> is_digit(#[trigger] d[i])) && decimal(d)
        <= u64::MAX {
        Some(decimal(d) as u64)
    } else {
        None
    }
}

/// The number in field `n`, if there is one.
pub open spec fn number_at(s: Seq<char>, n: nat) -> Option<u64> {
    match field_at(s, n) {
        Some(f) => number(f),
        None => None,
    }
}

/// Whether the last `)` stands at `i`.
pub open spec fn is_last_paren(s: Seq<char>, i: int) -> bool {
    0 <= i < s.len() && s[i] == ')' && forall|j: int| i < j < s.len() ==> s[j] != ')'
}

/// What follows the last `)`, if there is one. The `comm` field of `/proc/self/stat` is wrapped
/// in parentheses and may itself hold spaces or `)`.
pub open spec fn after_paren(s: Seq<char>) -> Option<Seq<char>> {
    if exists|i: int| is_last_paren(s, i) {
        let i = choose|i: int| is_last_paren(s, i);
        Some(s.skip(i + 1))
    } else {
        None
    }
}

/// The number in field `n` after `comm`, if there is one.
pub open spec fn stat_number(stat: Seq<char>, n: nat) -> Option<u64> {
    match after_paren(stat) {
        Some(rest) => number_at(rest, n),
        None => None,
    }
}

/// User and system CPU time, if `/proc/self/stat` gives both.
pub open spec fn cpu_ticks(stat: Seq<char>) -> Option<(u64, u64)> {
    match (stat_number(stat, UTIME as nat), stat_number(stat, STIME as nat)) {
        (Some(utime), Some(stime)) => Some((utime, stime)),
        _ => None,
    }
}

/// How many characters precede the first line end.
pub open spec fn line_len(s: Seq<char>) -> nat
    decreases s.len(),
{
    if s.len() == 0 || s[0] == '\n' {
        0
    } else {
        1 + line_len(s.skip(1))
    }
}

/// What stands behind `VmRSS:` on the first line that starts with it, if one does.
pub open spec fn vm_rss(status: Seq<char>) -> Option<Seq<char>>
    decreases status.len(),
{
    let line = status.take(line_len(status) as int);
    if "VmRSS:"@.is_prefix_of(line) {
        Some(line.skip("VmRSS:"@.len() as int))
    } else if line_len(status) < status.len() {
        vm_rss(status.skip(line_len(status) as int + 1))
    } else {
        None
    }
}

/// The resident set size in kB, if `/proc/self/status` gives it.
pub open spec fn rss_kb(status: Seq<char>) -> Option<u64> {
    match vm_rss(status) {
        Some(rest) => number_at(rest, 0),
        None => None,
    }
}

fn white(c: char) -> (w: bool)
    ensures
        w == is_white(c),
{
    ('\u{9}' <= c && c <= '\u{d}') || c == ' ' || c == '\u{85}' || c == '\u{a0}' || c == '\u{1680}'
        || ('\u{2000}' <= c && c <= '\u{200a}') || c == '\u{2028}' || c == '\u{2029}' || c
        == '\u{202f}' || c == '\u{205f}' || c == '\u{3000}'
}

/// The first white space of `chars` at or after `from`, or its end.
fn word_end(chars: &[char], from: usize) -> (end: usize)
    requires
        from <= chars@.len(),
    ensures
        end == from + word_len(chars@.skip(from as int)),
        from <= end <= chars@.len(),
{
    let mut end: usize = from;
    while end < chars.len() && !white(chars[end])
        invariant
            from <= end <= chars@.len(),
            word_len(chars@.skip(from as int)) == end - from + word_len(chars@.skip(end as int)),
        decreases chars@.len() - end,
    {
        assert(chars@.skip(end as int).skip(1) =~= chars@.skip(end + 1));
        end += 1;
    }
    end
}

/// Field `n` of `chars`, whose fields are separated by white space.
fn nth_field(chars: &[char], n: usize) -> (field: Option<&[char]>)
    ensures
        field is Some <==> field_at(chars@, n as nat) is Some,
        field matches Some(f) ==> field_at(chars@, n as nat) == Some(f@),
{
    let mut i: usize = 0;
    let mut left: usize = n;
    assert(chars@.skip(0) =~= chars@);
    while i < chars.len()
        invariant
            i <= chars@.len(),
            field_at(chars@, n as nat) == field_at(chars@.skip(i as int), left as nat),
        decreases chars@.len() - i,
    {
        let ghost rest = chars@.skip(i as int);
        if white(chars[i]) {
            assert(rest.skip(1) =~= chars@.skip(i + 1));
            i += 1;
        } else {
            let end = word_end(chars, i);
            assert(end > i) by {
                reveal_with_fuel(word_len, 2);
            }
            if left == 0 {
                assert(rest.take(end - i) =~= chars@.subrange(i as int, end as int));
                return Some(slice_subrange(chars, i, end));
            }
            assert(rest.skip(end - i) =~= chars@.skip(end as int));
            left -= 1;
            i = end;
        }
    }
    None
}

/// More digits write no smaller a number.
proof fn lemma_decimal_grows(s: Seq<char>, n: int)
    requires
        0 <= n <= s.len(),
    ensures
        decimal(s.take(n)) <= decimal(s),
    decreases s.len() - n,
{
    if n < s.len() {
        lemma_decimal_grows(s, n + 1);
        assert(s.take(n + 1).drop_last() =~= s.take(n));
    } else {
        assert(s.take(n) =~= s);
    }
}

/// The number that `chars` writes: an optional `+` and decimal digits, if the number fits.
fn parse_number(chars: &[char]) -> (value: Option<u64>)
    ensures
        value == number(chars@),
{
    let start: usize = if chars.len() > 0 && chars[0] == '+' {
        1
    } else {
        0
    };
    let ghost d = digits(chars@);
    assert(d =~= chars@.skip(start as int));
    if start == chars.len() {
        return None;
    }
    let mut value: u64 = 0;
    let mut i: usize = start;
    assert(d.take(0) =~= Seq::empty());
    while i < chars.len()
        invariant
            start <= i <= chars@.len(),
            start < chars@.len(),
            d == digits(chars@),
            d =~= chars@.skip(start as int),
            value == decimal(d.take(i - start)),
            forall|j: int| 0 <= j < i - start ==> is_digit(#[trigger] d[j]),
        decreases chars@.len() - i,
    {
        let c = chars[i];
        assert(d[i - start] == c);
        if c < '0' || c > '9' {
            return None;
        }
        let digit: u64 = (c as u32 - '0' as u32) as u64;
        proof {
            let upto = d.take(i - start + 1);
            assert(upto.drop_last() =~= d.take(i - start));
            assert(upto.last() == c);
            assert(decimal(upto) == value * 10 + digit);
            lemma_decimal_grows(d, i - start + 1);
        }
        match value.checked_mul(10) {
            None => {
                return None;
            },
            Some(tenfold) => match tenfold.checked_add(digit) {
                None => {
                    return None;
                },
                Some(sum) => {
                    value = sum;
                },
            },
        }
        i += 1;
    }
    assert(d.take(d.len() as int) =~= d);
    Some(value)
}

/// The number in field `n`, if there is one.
fn parse_number_at(chars: &[char], n: usize) -> (value: Option<u64>)
    ensures
        value == number_at(chars@, n as nat),
{
    match nth_field(chars, n) {
        Some(field) => parse_number(field),
        None => None,
    }
}

/// What follows the last `)`, if there is one.
fn find_after_paren(chars: &[char]) -> (rest: Option<&[char]>)
    ensures
        rest is Some <==> after_paren(chars@) is Some,
        rest matches Some(r) ==> after_paren(chars@) == Some(r@),
{
    let mut i: usize = chars.len();
    while i > 0
        invariant
            i <= chars@.len(),
            forall|j: int| i <= j < chars@.len() ==> chars@[j] != ')',
        decreases i,
    {
        if chars[i - 1] == ')' {
            assert(is_last_paren(chars@, i - 1));
            assert(chars@.skip(i as int) =~= chars@.subrange(i as int, chars@.len() as int));
            return Some(slice_subrange(chars, i, chars.len()));
        }
        i -= 1;
    }
    None
}

/// The number in field `n` after `comm` of `/proc/self/stat`, if there is one.
fn parse_stat_number(stat: &[char], n: usize) -> (value: Option<u64>)
    ensures
        value == stat_number(stat@, n as nat),
{
    match find_after_paren(stat) {
        Some(rest) => parse_number_at(rest, n),
        None => None,
    }
}

/// User and system CPU time in clock ticks, from the text of `/proc/self/stat`.
pub fn parse_cpu_ticks(stat: &str) -> (ticks: Option<(u64, u64)>)
    ensures
        ticks == cpu_ticks(stat@),
{
    let chars = to_chars(stat);
    match parse_stat_number(chars.as_slice(), UTIME) {
        Some(utime) => match parse_stat_number(chars.as_slice(), STIME) {
            Some(stime) => Some((utime, stime)),
            None => None,
        },
        None => None,
    }
}

/// Total CPU time in milliseconds.
pub fn ticks_to_ms(utime: u64, stime: u64) -> (ms: u64)
    requires
        (utime + stime) * MS_PER_CLOCK_TICK <= u64::MAX,
    ensures
        ms == (utime + stime) * MS_PER_CLOCK_TICK,
        ms == 10 * utime + 10 * stime,
{
    (utime + stime) * MS_PER_CLOCK_TICK
}

/// Number of OS threads, from the text of `/proc/self/stat`.
pub fn parse_threads(stat: &str) -> (threads: Option<u64>)
    ensures
        threads == stat_number(stat@, NUM_THREADS as nat),
{
    parse_stat_number(to_chars(stat).as_slice(), NUM_THREADS)
}

/// The first line end of `chars` at or after `from`, or its end.
fn line_end(chars: &[char], from: usize) -> (end: usize)
    requires
        from <= chars@.len(),
    ensures
        end == from + line_len(chars@.skip(from as int)),
        from <= end <= chars@.len(),
{
    let mut end: usize = from;
    while end < chars.len() && chars[end] != '\n'
        invariant
            from <= end <= chars@.len(),
            line_len(chars@.skip(from as int)) == end - from + line_len(chars@.skip(end as int)),
        decreases chars@.len() - end,
    {
        assert(chars@.skip(end as int).skip(1) =~= chars@.skip(end + 1));
        end += 1;
    }
    end
}

/// Whether `chars` starts with `prefix`.
fn starts_with(chars: &[char], prefix: &[char]) -> (starts: bool)
    ensures
        starts == prefix@.is_prefix_of(chars@),
{
    if chars.len() < prefix.len() {
        return false;
    }
    let mut i: usize = 0;
    while i < prefix.len()
        invariant
            i <= prefix@.len() <= chars@.len(),
            forall|j: int| 0 <= j < i ==> prefix@[j] == chars@[j],
        decreases prefix@.len() - i,
    {
        if chars[i] != prefix[i] {
            assert(prefix@[i as int] != chars@.subrange(0, prefix@.len() as int)[i as int]);
            return false;
        }
        i += 1;
    }
    assert(prefix@ =~= chars@.subrange(0, prefix@.len() as int));
    true
}

/// Resident set size in kB, from the text of `/proc/self/status` (`VmRSS: N kB`).
pub fn parse_rss_kb(status: &str) -> (kb: Option<u64>)
    ensures
        kb == rss_kb(status@),
{
    let chars = to_chars(status);
    let prefix = to_chars("VmRSS:");
    let mut i: usize = 0;
    assert(chars@.skip(0) =~= chars@);
    loop
        invariant
            chars@ == status@,
            prefix@ == "VmRSS:"@,
            i <= chars@.len(),
            vm_rss(status@) == vm_rss(chars@.skip(i as int)),
        decreases chars@.len() - i,
    {
        let ghost rest = chars@.skip(i as int);
        let end = line_end(chars.as_slice(), i);
        let line = slice_subrange(chars.as_slice(), i, end);
        assert(line@ =~= rest.take(end - i));
        if starts_with(line, prefix.as_slice()) {
            let value = slice_subrange(line, prefix.len(), line.len());
            assert(value@ =~= line@.skip(prefix@.len() as int));
            return parse_number_at(value, 0);
        }
        if end == chars.len() {
            return None;
        }
        assert(rest.skip(end - i + 1) =~= chars@.skip(end + 1));
        i = end + 1;
    }
}

/// Kilobytes in bytes.
pub fn kb_to_bytes(kb: u64) -> (bytes: u64)
    requires
        kb * 1024 <= u64::MAX,
    ensures
        bytes == kb * 1024,
{
    kb * 1024
}

/// Number of open file descriptors, given how many `/proc/self/fd` lists: the listing itself
/// holds one open.
pub fn open_fds(listed: u64) -> (fds: u64)
    ensures
        fds == if listed > 0 {
            listed - 1
        } else {
            0
        },
{
    listed.saturating_sub(1)
}

/// How often to sample, in seconds: at least one second apart.
pub fn sampling_interval(interval_secs: u64) -> (secs: u64)
    ensures
        secs == if interval_secs > 1 {
            interval_secs
        } else {
            1
        },
{
    if interval_secs > 1 {
        interval_secs
    } else {
        1
    }
}

/// What one round of reading `/proc/self` gave; a read that failed gave nothing.
#[derive(Debug, Clone, Copy, PartialEq, Eq)]
pub struct Readings {
    /// Cumulative CPU time in milliseconds.
    pub cpu_ms: Option<u64>,
    /// Resident set size in bytes.
    pub resident_bytes: Option<u64>,
    /// Number of open file descriptors.
    pub open_fds: Option<u64>,
    /// Number of OS threads.
    pub threads: Option<u64>,
}

/// What to publish after one round: an amount to add to the CPU counter, and values for the
/// gauges; what is `None` is not published.
#[derive(Debug, Clone, Copy, PartialEq, Eq)]
pub struct Publication {
    pub cpu_ms_added: Option<u64>,
    pub resident_bytes: Option<u64>,
    pub open_fds: Option<u64>,
    pub threads: Option<u64>,
}

/// The sampler of process metrics.
#[derive(Debug)]
pub struct Sampler {
    /// Cumulative CPU time (ms) already reported.
    pub reported_ms: u64,
}

/// The CPU time reported once a reading of it is taken, if there is one.
pub open spec fn reported_after(reported: u64, cpu_ms: Option<u64>) -> u64 {
    match cpu_ms {
        Some(ms) => if ms >= reported {
            ms
        } else {
            reported
        },
        None => reported,
    }
}

/// What a reading of the CPU time adds to the counter: nothing if there is none or it went back.
pub open spec fn cpu_added(reported: u64, cpu_ms: Option<u64>) -> Option<u64> {
    match cpu_ms {
        Some(ms) => if ms >= reported {
            Some((ms - reported) as u64)
        } else {
            None
        },
        None => None,
    }
}

/// What to publish after a round.
pub open spec fn published(reported: u64, readings: Readings) -> Publication {
    Publication {
        cpu_ms_added: cpu_added(reported, readings.cpu_ms),
        resident_bytes: readings.resident_bytes,
        open_fds: readings.open_fds,
        threads: readings.threads,
    }
}

impl Sampler {
    /// Nothing has been reported yet.
    pub fn new() -> (sampler: Sampler)
        ensures
            sampler.reported_ms == 0,
    {
        Sampler { reported_ms: 0 }
    }

    /// Takes the readings of one round and returns what to publish. The CPU counter grows by what
    /// was not reported yet; a reading that went back adds nothing.
    pub fn sample(&mut self, readings: Readings) -> (publication: Publication)
        ensures
            publication == published(old(self).reported_ms, readings),
            final(self).reported_ms == reported_after(old(self).reported_ms, readings.cpu_ms),
    {
        let mut cpu_ms_added: Option<u64> = None;
        if let Some(ms) = readings.cpu_ms {
            if ms >= self.reported_ms {
                cpu_ms_added = Some(ms - self.reported_ms);
                self.reported_ms = ms;
            }
        }
        Publication {
            cpu_ms_added,
            resident_bytes: readings.resident_bytes,
            open_fds: readings.open_fds,
            threads: readings.threads,
        }
    }
}

/// The CPU time reported once a series of rounds is sampled.
pub open spec fn reported_all(rounds: Seq<Readings>) -> u64
    decreases rounds.len(),
{
    if rounds.len() == 0 {
        0
    } else {
        reported_after(reported_all(rounds.drop_last()), rounds.last().cpu_ms)
    }
}

/// What the sampler publishes after round `i` of a series.
pub open spec fn published_at(rounds: Seq<Readings>, i: int) -> Publication {
    published(reported_all(rounds.take(i)), rounds[i])
}

/// What a series of rounds adds to the CPU counter, taken together.
pub open spec fn added_all(rounds: Seq<Readings>) -> int
    decreases rounds.len(),
{
    if rounds.len() == 0 {
        0
    } else {
        added_all(rounds.drop_last()) + (match published_at(rounds, rounds.len() - 1).cpu_ms_added {
            Some(ms) => ms as int,
            None => 0,
        })
    }
}

/// What is added to the CPU counter comes, taken together, to the highest reading of the CPU time
/// so far, and to nothing if there was none: the counter never goes back, and counts no time
/// twice.
pub proof fn law_counter_is_the_highest_reading(rounds: Seq<Readings>)
    ensures
        added_all(rounds) == reported_all(rounds),
        forall|i: int|
            0 <= i < rounds.len() ==> ((#[trigger] rounds[i]).cpu_ms matches Some(ms) ==> ms
                <= reported_all(rounds)),
        reported_all(rounds) == 0 || exists|i: int|
            0 <= i < rounds.len() && (#[trigger] rounds[i]).cpu_ms == Some(reported_all(rounds)),
    decreases rounds.len(),
{
    if rounds.len() > 0 {
        let init = rounds.drop_last();
        let last = rounds.len() - 1;
        law_counter_is_the_highest_reading(init);
        assert(rounds.take(last) =~= init);
        assert forall|i: int| 0 <= i < rounds.len() implies ((#[trigger] rounds[i]).cpu_ms matches Some(
            ms,
        ) ==> ms <= reported_all(rounds)) by {
            if i < last {
                assert(rounds[i] == init[i]);
            }
        }
        if reported_all(rounds) != 0 {
            if reported_all(rounds) == reported_all(init) {
                let i = choose|i: int|
                    0 <= i < init.len() && (#[trigger] init[i]).cpu_ms == Some(reported_all(init));
                assert(rounds[i].cpu_ms == Some(reported_all(rounds)));
            } else {
                assert(rounds[last].cpu_ms == Some(reported_all(rounds)));
            }
        }
    }
}

/// In every round of every series each gauge is set exactly if its read succeeded, and to the
/// value read: a failed read publishes nothing, and stops neither the other figures of the round
/// nor the rounds after it.
pub proof fn law_gauges_show_what_was_read(rounds: Seq<Readings>, i: int)
    requires
        0 <= i < rounds.len(),
    ensures
        published_at(rounds, i).resident_bytes == rounds[i].resident_bytes,
        published_at(rounds, i).open_fds == rounds[i].open_fds,
        published_at(rounds, i).threads == rounds[i].threads,
        rounds[i].cpu_ms is None ==> published_at(rounds, i).cpu_ms_added is None,
{
}

// ---- laws on texts ----

/// White space is what Unicode lists as such, by code point.
pub proof fn law_white_space_by_code_point(c: char)
    ensures
        is_white(c) <==> ({
            let n = c as u32;
            ||| 0x9 <= n <= 0xd
            ||| n == 0x20
            ||| n == 0x85
            ||| n == 0xa0
            ||| n == 0x1680
            ||| 0x2000 <= n <= 0x200a
            ||| n == 0x2028
            ||| n == 0x2029
            ||| n == 0x202f
            ||| n == 0x205f
            ||| n == 0x3000
        }),
{
}

/// A word without white space ends at the first white space, or with the text.
proof fn lemma_word_len(word: Seq<char>, rest: Seq<char>)
    requires
        forall|i: int| 0 <= i < word.len() ==> !is_white(#[trigger] word[i]),
        rest.len() == 0 || is_white(rest[0]),
    ensures
        word_len(word + rest) == word.len(),
    decreases word.len(),
{
    let s = word + rest;
    if word.len() > 0 {
        assert(s[0] == word[0]);
        assert(s.skip(1) =~= word.skip(1) + rest);
        lemma_word_len(word.skip(1), rest);
    } else {
        assert(s =~= rest);
    }
}

/// White space parts fields and is otherwise of no account: no field is in an empty text, white
/// space in front changes no field, and a word in front of white space, or of the end, is the
/// first field, the others coming after it.
pub proof fn law_white_space_parts_fields(
    c: char,
    s: Seq<char>,
    word: Seq<char>,
    rest: Seq<char>,
    n: nat,
)
    requires
        forall|i: int| 0 <= i < word.len() ==> !is_white(#[trigger] word[i]),
        word.len() > 0,
        rest.len() == 0 || is_white(rest[0]),
    ensures
        field_at(Seq::empty(), n) is None,
        is_white(c) ==> field_at(seq![c] + s, n) == field_at(s, n),
        field_at(word + rest, 0) == Some(word),
        field_at(word + rest, n + 1) == field_at(rest, n),
        field_at(s, n) is None ==> number_at(s, n) is None,
        field_at(s, n) matches Some(f) ==> number_at(s, n) == number(f),
{
    assert((seq![c] + s).skip(1) =~= s);
    lemma_word_len(word, rest);
    assert((word + rest)[0] == word[0]);
    assert((word + rest).take(word.len() as int) =~= word);
    assert((word + rest).skip(word.len() as int) =~= rest);
}

/// Numbers are read in decimal, digit by digit. Nothing, or a sign alone, is no number; a digit is
/// its own number; each further digit makes the number ten times as large and adds itself, as long
/// as it fits; any other character spoils it; and one sign in front is of no account.
pub proof fn law_numbers_are_decimal(s: Seq<char>, c: char)
    ensures
        number(Seq::empty()) is None,
        number(seq!['+']) is None,
        '0' <= c <= '9' ==> number(seq![c]) == Some((c as u32 - 48) as u64),
        c != '+' && !('0' <= c <= '9') ==> number(seq![c]) is None,
        s.len() > 0 && s != seq!['+'] ==> {
            let longer = number(s.push(c));
            &&& number(s) is None ==> longer is None
            &&& !('0' <= c <= '9') ==> longer is None
            &&& number(s) matches Some(v) ==> '0' <= c <= '9' ==> {
                let value = v * 10 + (c as u32 - 48);
                &&& value <= u64::MAX ==> longer == Some(value as u64)
                &&& value > u64::MAX ==> longer is None
            }
        },
        s.len() > 0 && s[0] != '+' ==> number(seq!['+'] + s) == number(s),
        s.len() > 0 && s[0] == '+' ==> number(seq!['+'] + s) is None,
{
    reveal_with_fuel(decimal, 2);
    let one = seq![c];
    assert(one.drop_last() =~= Seq::empty());
    assert(seq!['+'].skip(1) =~= Seq::empty());
    assert((seq!['+'] + s).skip(1) =~= s);
    if c != '+' {
        assert(digits(one) == one);
        assert(one[0] == c);
    }
    if s.len() > 0 && s[0] == '+' {
        assert(digits(seq!['+'] + s) =~= s);
        assert(!is_digit(s[0]));
    }
    if s.len() > 0 && s != seq!['+'] {
        let d = digits(s);
        let e = digits(s.push(c));
        assert(e =~= d.push(c));
        assert(d.len() > 0) by {
            if d.len() == 0 {
                assert(s =~= seq!['+']);
            }
        }
        assert(e.drop_last() =~= d);
        assert(e.last() == c);
        if forall|i: int| 0 <= i < e.len() ==> is_digit(#[trigger] e[i]) {
            assert forall|i: int| 0 <= i < d.len() implies is_digit(#[trigger] d[i]) by {
                assert(e[i] == d[i]);
            }
            assert(is_digit(e[d.len() as int]));
        }
        if forall|i: int| 0 <= i < d.len() ==> is_digit(#[trigger] d[i]) {
            if is_digit(c) {
                assert forall|i: int| 0 <= i < e.len() implies is_digit(#[trigger] e[i]) by {
                    if i < d.len() {
                        assert(e[i] == d[i]);
                    }
                }
            }
        }
    }
}

/// The fields of `/proc/self/stat` are counted from behind the last `)`: whatever stands in front
/// of it, the CPU times are the numbers in fields 11 and 12 from there, and the threads the one in
/// field 17. Without a `)` there are none.
pub proof fn law_fields_are_counted_from_the_last_parenthesis(front: Seq<char>, rest: Seq<char>)
    requires
        forall|i: int| 0 <= i < rest.len() ==> rest[i] != ')',
    ensures
        after_paren(front + seq![')'] + rest) == Some(rest),
        cpu_ticks(front + seq![')'] + rest) is Some <==> number_at(rest, 11) is Some && number_at(
            rest,
            12,
        ) is Some,
        cpu_ticks(front + seq![')'] + rest) matches Some(t) ==> number_at(rest, 11) == Some(t.0)
            && number_at(rest, 12) == Some(t.1),
        stat_number(front + seq![')'] + rest, NUM_THREADS as nat) == number_at(rest, 17),
        cpu_ticks(rest) is None,
        stat_number(rest, NUM_THREADS as nat) is None,
{
    let s = front + seq![')'] + rest;
    let at = front.len() as int;
    assert(is_last_paren(s, at));
    let i = choose|i: int| is_last_paren(s, i);
    assert(i == at) by {
        if i < at {
            assert(s[at] != ')');
        } else if at < i {
            assert(s[i] != ')');
        }
    }
    assert(s.skip(at + 1) =~= rest);
}

/// A text up to its first line end is its first line.
proof fn lemma_first_line(s: Seq<char>)
    ensures
        is_line(s, 0, line_len(s) as int),
    decreases s.len(),
{
    if s.len() > 0 && s[0] != '\n' {
        let rest = s.skip(1);
        lemma_first_line(rest);
        let n = line_len(rest) as int;
        assert(n < rest.len() ==> rest[n] == s[n + 1]);
        assert forall|i: int| 0 <= i < n + 1 implies s[i] != '\n' by {
            if i > 0 {
                assert(rest[i - 1] == s[i]);
            }
        }
    }
}

/// Whether a line of `s` goes from place `a` up to place `b`.
pub open spec fn is_line(s: Seq<char>, a: int, b: int) -> bool {
    &&& 0 <= a <= b <= s.len()
    &&& a == 0 || s[a - 1] == '\n'
    &&& b == s.len() || s[b] == '\n'
    &&& forall|i: int| a <= i < b ==> s[i] != '\n'
}

/// Whether the line of `s` from `a` up to `b` is the first that starts with `VmRSS:`.
pub open spec fn is_rss_line(s: Seq<char>, a: int, b: int) -> bool {
    &&& is_line(s, a, b)
    &&& "VmRSS:"@.is_prefix_of(s.subrange(a, b))
    &&& forall|c: int, d: int| #[trigger]
        is_line(s, c, d) && c < a ==> !"VmRSS:"@.is_prefix_of(s.subrange(c, d))
}

/// Lines behind a line end are lines of the text, and the other way round.
proof fn lemma_later_line(s: Seq<char>, n: int, a: int, b: int)
    requires
        0 <= n < s.len(),
        s[n] == '\n',
        0 <= a <= b,
    ensures
        is_line(s.skip(n + 1), a, b) <==> is_line(s, a + n + 1, b + n + 1),
        b <= s.len() - n - 1 ==> s.skip(n + 1).subrange(a, b) == s.subrange(a + n + 1, b + n + 1),
{
    let t = s.skip(n + 1);
    assert forall|i: int| 0 <= i < t.len() implies #[trigger] t[i] == s[i + n + 1] by {}
    if b <= t.len() {
        assert(t.subrange(a, b) =~= s.subrange(a + n + 1, b + n + 1));
    }
    if is_line(t, a, b) {
        assert forall|i: int| a + n + 1 <= i < b + n + 1 implies s[i] != '\n' by {
            assert(t[i - n - 1] == s[i]);
        }
    }
    if is_line(s, a + n + 1, b + n + 1) {
        assert forall|i: int| a <= i < b implies t[i] != '\n' by {
            assert(s[i + n + 1] != '\n');
        }
    }
}

/// What stands behind `VmRSS:` is what the first line that starts with it holds behind it.
proof fn lemma_rss_line(s: Seq<char>, a: int, b: int)
    requires
        is_rss_line(s, a, b),
    ensures
        vm_rss(s) == Some(s.subrange(a, b).skip(6)),
    decreases s.len(),
{
    reveal_strlit("VmRSS:");
    lemma_first_line(s);
    let n = line_len(s) as int;
    assert(s.take(n) =~= s.subrange(0, n));
    if a == 0 {
        assert(b == n) by {
            if b < n {
                assert(s[b] != '\n');
            } else if n < b {
                assert(s[n] != '\n');
            }
        }
    } else {
        assert(is_line(s, 0, n) && 0 < a);
        assert(a - 1 >= n) by {
            if a - 1 < n {
                assert(s[a - 1] != '\n');
            }
        }
        let t = s.skip(n + 1);
        let a1 = a - n - 1;
        let b1 = b - n - 1;
        lemma_later_line(s, n, a1, b1);
        assert forall|c: int, d: int| #[trigger] is_line(t, c, d) && c < a1 implies
            !"VmRSS:"@.is_prefix_of(t.subrange(c, d)) by {
            lemma_later_line(s, n, c, d);
            assert(is_line(s, c + n + 1, d + n + 1));
        }
        lemma_rss_line(t, a1, b1);
    }
}

/// What stands behind `VmRSS:` stands on a line that starts with it, the first such.
proof fn lemma_rss_has_a_line(s: Seq<char>)
    requires
        vm_rss(s) is Some,
    ensures
        exists|a: int, b: int| is_rss_line(s, a, b),
    decreases s.len(),
{
    lemma_first_line(s);
    let n = line_len(s) as int;
    assert(s.take(n) =~= s.subrange(0, n));
    if "VmRSS:"@.is_prefix_of(s.take(n)) {
        assert(is_rss_line(s, 0, n));
    } else {
        let t = s.skip(n + 1);
        lemma_rss_has_a_line(t);
        let (a, b) = choose|a: int, b: int| is_rss_line(t, a, b);
        lemma_later_line(s, n, a, b);
        assert forall|c: int, d: int| #[trigger] is_line(s, c, d) && c < a + n + 1 implies
            !"VmRSS:"@.is_prefix_of(s.subrange(c, d)) by {
            if c == 0 {
                assert(d == n) by {
                    if d < n {
                        assert(s[d] != '\n');
                    } else if n < d {
                        assert(s[n] != '\n');
                    }
                }
            } else {
                assert(c - 1 >= n) by {
                    if c - 1 < n {
                        assert(s[c - 1] != '\n');
                    }
                }
                lemma_later_line(s, n, c - n - 1, d - n - 1);
                assert(is_line(t, c - n - 1, d - n - 1));
            }
        }
        assert(is_rss_line(s, a + n + 1, b + n + 1));
    }
}

/// The resident set size is the first field behind `VmRSS:` on the first line that starts with
/// it.
pub proof fn law_rss_is_on_the_first_such_line(status: Seq<char>, a: int, b: int)
    requires
        is_line(status, a, b),
        "VmRSS:"@.is_prefix_of(status.subrange(a, b)),
        forall|c: int, d: int| #[trigger]
            is_line(status, c, d) && c < a ==> !"VmRSS:"@.is_prefix_of(status.subrange(c, d)),
    ensures
        rss_kb(status) == number_at(status.subrange(a + 6, b), 0),
{
    reveal_strlit("VmRSS:");
    lemma_rss_line(status, a, b);
    assert(status.subrange(a, b).skip(6) =~= status.subrange(a + 6, b));
}

/// A resident set size stands behind `VmRSS:`: where one is read, some line starts with that, no
/// earlier one does, and the number is the first field behind it.
pub proof fn law_rss_stands_behind_its_prefix(status: Seq<char>)
    requires
        rss_kb(status) is Some,
    ensures
        exists|a: int, b: int| #[trigger]
            is_line(status, a, b) && "VmRSS:"@.is_prefix_of(status.subrange(a, b)) && (forall|
                c: int,
                d: int,
            | #[trigger]
                is_line(status, c, d) && c < a ==> !"VmRSS:"@.is_prefix_of(
                    status.subrange(c, d),
                )) && rss_kb(status) == number_at(status.subrange(a + 6, b), 0),
{
    lemma_rss_has_a_line(status);
    let (a, b) = choose|a: int, b: int| is_rss_line(status, a, b);
    law_rss_is_on_the_first_such_line(status, a, b);
    assert(is_line(status, a, b));
}

/// Lines that do not start with `VmRSS:` play no part: leaving out the first one, with its line
/// end, changes nothing, and a text of one such line gives nothing.
pub proof fn law_other_lines_play_no_part(line: Seq<char>, rest: Seq<char>)
    requires
        forall|i: int| 0 <= i < line.len() ==> line[i] != '\n',
        !"VmRSS:"@.is_prefix_of(line),
    ensures
        rss_kb(line + seq!['\n'] + rest) == rss_kb(rest),
        rss_kb(line) is None,
{
    let s = line + seq!['\n'] + rest;
    let m = line.len() as int;
    lemma_first_line(s);
    lemma_first_line(line);
    let n = line_len(s) as int;
    assert(n == m) by {
        if n < m {
            assert(s[n] == line[n]);
        } else if m < n {
            assert(s[m] == '\n');
        }
    }
    assert(s.take(n) =~= line);
    assert(s.skip(n + 1) =~= rest);
    let l = line_len(line) as int;
    assert(l == m) by {
        if l < m {
            assert(line[l] == '\n');
        }
    }
    assert(line.take(l) =~= line);
}

/// The CPU counter grows by what the reading is ahead of what was reported, and not at all by a
/// reading that is behind; what was reported then is the reading, if it is ahead.
pub proof fn law_the_counter_follows_the_reading(reported: u64, readings: Readings, added: u64)
    ensures
        published(reported, readings).cpu_ms_added == Some(added) <==> (readings.cpu_ms matches Some(
            ms,
        ) && ms == reported + added),
        readings.cpu_ms matches Some(ms) ==> (ms >= reported ==> reported_after(
            reported,
            readings.cpu_ms,
        ) == ms),
        readings.cpu_ms matches Some(ms) ==> (ms < reported ==> reported_after(
            reported,
            readings.cpu_ms,
        ) == reported),
        readings.cpu_ms is None ==> reported_after(reported, readings.cpu_ms) == reported,
        published(reported, readings).resident_bytes == readings.resident_bytes,
        published(reported, readings).open_fds == readings.open_fds,
        published(reported, readings).threads == readings.threads,
{
}

} // verus!
