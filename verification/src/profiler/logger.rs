//! Performance log entries, their one-line text, and the log that keeps
//! them.
use vstd::prelude::*;
use vstd::arithmetic::div_mod::lemma_div_denominator;
use crate::text::{decimal, decimal_string, digit, digit_char, push_char, push_string, owned, str_eq};
use crate::parser::ast::texts;
use crate::named::NamedValues;
use std::time::{SystemTime, UNIX_EPOCH};

verus! {

/// The levels of log entries, from least to most severe.
#[derive(Debug, Clone, Copy, PartialEq, Eq, Structural)]
pub enum LogLevel {
    Debug,
    Info,
    Warning,
    Error,
}

/// Two to the power `s`.
pub open spec fn pow2n(s: nat) -> nat
    decreases s,
{
    if s == 0 { 1 } else { 2 * pow2n((s - 1) as nat) }
}

/// The number of halvings that bring `b` below 2^53, the precision of an
/// `f64`.
pub open spec fn halvings(b: nat) -> nat
    decreases b,
{
    if b < 0x20000000000000 { 0 } else { 1 + halvings(b / 2) }
}

/// The value of `b as f64`: `b` itself below 2^53, otherwise `b` rounded to
/// the nearest multiple of the power of two that keeps 53 significant bits,
/// a tie going to the even multiple.
pub open spec fn nearest_double(b: nat) -> nat {
    let s = halvings(b);
    if s == 0 {
        b
    } else {
        let unit = pow2n(s);
        let q = b / unit;
        let r = b % unit;
        let q2 = if r * 2 > unit || (r * 2 == unit && q % 2 == 1) { q + 1 } else { q };
        q2 * unit
    }
}

/// `v / d` in tenths, rounded to the nearest tenth, a tie going to the even
/// one (as `{:.1}` prints the exact value of an `f64`).
pub open spec fn rounded_tenths(v: nat, d: nat) -> nat {
    let q = v * 10 / d;
    let r = v * 10 % d;
    if r * 2 > d || (r * 2 == d && q % 2 == 1) { q + 1 } else { q }
}

/// The text of a size in bytes: below 1024 bytes the number of bytes and
/// `B`; otherwise the size in KB, MB or GB (the largest unit not above it,
/// GB at most), to one decimal place. The size is taken as an `f64`.
pub open spec fn size_text(bytes: nat) -> Seq<char> {
    let v = nearest_double(bytes);
    if v < 1024 {
        decimal(bytes) + "B"@
    } else {
        let d: nat = if v < 0x100000 { 0x400 } else if v < 0x40000000 { 0x100000 } else { 0x40000000 };
        let unit = if v < 0x100000 { "KB"@ } else if v < 0x40000000 { "MB"@ } else { "GB"@ };
        let t = rounded_tenths(v, d);
        decimal(t / 10) + "."@ + seq![digit_char(t % 10)] + unit
    }
}

/// The value of `bytes as f64` (see `nearest_double`).
fn as_double(bytes: u64) -> (r: u128)
    ensures
        r == nearest_double(bytes as nat),
        r <= 0x20000000000000000,
{
    let b = bytes as u128;
    let mut t: u128 = b;
    let mut unit: u128 = 1;
    let mut s: u32 = 0;
    while t >= 0x20000000000000
        invariant
            b == bytes,
            b < 0x10000000000000000,
            s <= 4096,
            unit == pow2n(s as nat),
            1 <= unit <= 4096,
            t == b / unit,
            halvings(b as nat) == s + halvings(t as nat),
        decreases t,
    {
        proof {
            lemma_div_denominator(b as int, unit as int, 2);
            assert(unit < 2048) by (nonlinear_arith)
                requires t >= 0x20000000000000, t == b / unit, b < 0x10000000000000000, unit >= 1;
            lemma_pow2n_grows(s as nat);
        }
        t = t / 2;
        unit = unit * 2;
        s = s + 1;
    }
    if s == 0 {
        return b;
    }
    let q = t;
    let r = b % unit;
    let q2 = if r * 2 > unit || (r * 2 == unit && q % 2 == 1) { q + 1 } else { q };
    proof {
        assert(q2 * unit <= 0x20000000000000000) by (nonlinear_arith)
            requires q < 0x20000000000000, unit <= 4096, q2 <= q + 1;
    }
    q2 * unit
}

/// The text of a size in bytes (see `size_text`).
pub fn format_size(bytes: usize) -> (r: String)
    ensures
        r@ == size_text(bytes as nat),
{
    let v = as_double(bytes as u64);
    if v < 1024 {
        let mut s = decimal_string(bytes as u64);
        push_string(&mut s, "B");
        return s;
    }
    let d: u128 = if v < 0x100000 { 0x400 } else if v < 0x40000000 { 0x100000 } else { 0x40000000 };
    let unit = if v < 0x100000 { "KB" } else if v < 0x40000000 { "MB" } else { "GB" };
    let q = v * 10 / d;
    let r = v * 10 % d;
    let t = if r * 2 > d || (r * 2 == d && q % 2 == 1) { q + 1 } else { q };
    proof {
        let vi = v as int;
        let di = d as int;
        assert(vi * 10 / di <= vi * 10 / 0x400) by (nonlinear_arith)
            requires di >= 0x400, vi >= 0;
        assert(vi * 10 / 0x400 < 0x1000000000000000);
    }
    let mut s = decimal_string((t / 10) as u64);
    push_string(&mut s, ".");
    let ghost before = s@;
    push_char(&mut s, digit((t % 10) as u64));
    proof {
        assert(s@ =~= before + seq![digit_char((t % 10) as nat)]);
    }
    push_string(&mut s, unit);
    s
}

/// Powers of two grow at least as fast as their exponent.
proof fn lemma_pow2n_grows(s: nat)
    ensures
        pow2n(s) >= s + 1,
    decreases s,
{
    if s > 0 {
        lemma_pow2n_grows((s - 1) as nat);
    }
}

#[verifier::external_type_specification]
#[verifier::external_body]
pub struct ExSystemTime(SystemTime);

/// Calls `SystemTime::now`; nothing is known of the time it gives.
#[verifier::external_body]
fn system_now() -> SystemTime {
    SystemTime::now()
}

/// Calls `SystemTime::duration_since` with the Unix epoch: the whole
/// seconds since the epoch, zero for a time before it. It depends on the
/// clock; nothing is stated of it.
#[verifier::external_body]
fn seconds_since_epoch(t: SystemTime) -> u64 {
    t.duration_since(UNIX_EPOCH).unwrap_or_default().as_secs()
}

/// One entry of the performance log.
#[derive(Debug)]
pub struct PerformanceLogEntry {
    /// Seconds since the Unix epoch.
    pub timestamp: u64,
    pub level: LogLevel,
    pub operation: String,
    /// In microseconds.
    pub duration: Option<u64>,
    pub input_size: Option<usize>,
    pub output_size: Option<usize>,
    pub memory_usage: Option<usize>,
    pub message: String,
    pub metadata: NamedValues<String>,
}

/// The tag of a level in an entry's text.
pub open spec fn level_tag(l: LogLevel) -> Seq<char> {
    match l {
        LogLevel::Debug => "DEBUG"@,
        LogLevel::Info => "INFO"@,
        LogLevel::Warning => "WARN"@,
        LogLevel::Error => "ERROR"@,
    }
}

/// Texts joined with single spaces.
pub open spec fn joined(ps: Seq<Seq<char>>) -> Seq<char>
    decreases ps.len(),
{
    if ps.len() == 0 {
        Seq::empty()
    } else if ps.len() == 1 {
        ps[0]
    } else {
        joined(ps.drop_last()) + " "@ + ps.last()
    }
}

/// The metadata of an entry as `key=value` texts, in the order the keys
/// were first set.
pub open spec fn metadata_parts(m: NamedValues<String>) -> Seq<Seq<char>> {
    m.keys().map_values(|k: Seq<char>| k + "="@ + m.map()[k]@)
}

/// The text of an optional part: one text when there is a value.
pub open spec fn optional_part(present: bool, text: Seq<char>) -> Seq<Seq<char>> {
    if present { seq![text] } else { Seq::empty() }
}

/// The parts of an entry's text: the level in brackets, the operation, the
/// duration in μs, the input, output and memory sizes, the message, and the
/// metadata in brackets; the optional ones only when present.
pub open spec fn entry_parts(e: PerformanceLogEntry) -> Seq<Seq<char>> {
    seq!["["@ + level_tag(e.level) + "]"@, e.operation@]
        + optional_part(e.duration is Some, decimal(e.duration->0 as nat) + "μs"@)
        + optional_part(e.input_size is Some, "in:"@ + size_text(e.input_size->0 as nat))
        + optional_part(e.output_size is Some, "out:"@ + size_text(e.output_size->0 as nat))
        + optional_part(e.memory_usage is Some, "mem:"@ + size_text(e.memory_usage->0 as nat))
        + seq![e.message@]
        + optional_part(e.metadata.keys().len() > 0, "["@ + joined(metadata_parts(e.metadata)) + "]"@)
}

/// Joins texts with single spaces (see `joined`).
fn join_words(parts: &Vec<String>) -> (r: String)
    ensures
        r@ == joined(texts(parts@)),
{
    let mut r = String::new();
    let mut i: usize = 0;
    while i < parts.len()
        invariant
            i <= parts@.len(),
            r@ == joined(texts(parts@).take(i as int)),
        decreases parts.len() - i,
    {
        let ghost before = r@;
        if i > 0 {
            push_string(&mut r, " ");
        }
        push_string(&mut r, parts[i].as_str());
        proof {
            let t = texts(parts@);
            assert(t.take(i + 1).drop_last() =~= t.take(i as int));
            assert(t.take(i + 1).last() == parts@[i as int]@);
            if i == 0 {
                assert(before =~= Seq::<char>::empty());
                assert(r@ =~= parts@[0]@);
            }
        }
        i = i + 1;
    }
    proof {
        assert(texts(parts@).take(i as int) =~= texts(parts@));
    }
    r
}

/// Appends a text made of a prefix and a given string.
fn push_part(parts: &mut Vec<String>, prefix: &str, rest: String)
    ensures
        texts(final(parts)@) == texts(old(parts)@).push(prefix@ + rest@),
{
    let mut p = owned(prefix);
    push_string(&mut p, rest.as_str());
    let ghost pv = p@;
    parts.push(p);
    assert(texts(parts@) =~= texts(old(parts)@).push(pv));
}

impl PerformanceLogEntry {
    /// An entry at the current time with no figures and no metadata.
    pub fn new(level: LogLevel, operation: String, message: String) -> (r: Self)
        ensures
            r.level == level,
            r.operation@ == operation@,
            r.message@ == message@,
            r.duration is None,
            r.input_size is None,
            r.output_size is None,
            r.memory_usage is None,
            r.metadata.wf(),
            r.metadata.keys() == Seq::<Seq<char>>::empty(),
            r.metadata.map() == Map::<Seq<char>, String>::empty(),
    {
        let timestamp = seconds_since_epoch(system_now());
        PerformanceLogEntry {
            timestamp,
            level,
            operation,
            duration: None,
            input_size: None,
            output_size: None,
            memory_usage: None,
            message,
            metadata: NamedValues::new(),
        }
    }

    /// The entry with the duration set: `nanos` nanoseconds, kept in whole
    /// microseconds (as a `u64`, the way `as` casts).
    pub fn with_duration(self, nanos: u128) -> (r: Self)
        ensures
            r == (PerformanceLogEntry { duration: Some((nanos / 1000) as u64), ..self }),
    {
        let mut e = self;
        e.duration = Some((nanos / 1000) as u64);
        e
    }

    /// The entry with the input size set.
    pub fn with_input_size(self, size: usize) -> (r: Self)
        ensures
            r == (PerformanceLogEntry { input_size: Some(size), ..self }),
    {
        let mut e = self;
        e.input_size = Some(size);
        e
    }

    /// The entry with the output size set.
    pub fn with_output_size(self, size: usize) -> (r: Self)
        ensures
            r == (PerformanceLogEntry { output_size: Some(size), ..self }),
    {
        let mut e = self;
        e.output_size = Some(size);
        e
    }

    /// The entry with the memory figure set.
    pub fn with_memory_usage(self, bytes: usize) -> (r: Self)
        ensures
            r == (PerformanceLogEntry { memory_usage: Some(bytes), ..self }),
    {
        let mut e = self;
        e.memory_usage = Some(bytes);
        e
    }

    /// The entry with a metadata value set (a new key goes last).
    pub fn with_metadata(self, key: String, value: String) -> (r: Self)
        requires
            self.metadata.wf(),
        ensures
            r.metadata.wf(),
            r.metadata.map() == self.metadata.map().insert(key@, value),
            r.metadata.keys() == if self.metadata.keys().contains(key@) {
                self.metadata.keys()
            } else {
                self.metadata.keys().push(key@)
            },
            r.timestamp == self.timestamp,
            r.level == self.level,
            r.operation == self.operation,
            r.duration == self.duration,
            r.input_size == self.input_size,
            r.output_size == self.output_size,
            r.memory_usage == self.memory_usage,
            r.message == self.message,
    {
        let mut e = self;
        e.metadata.insert(key, value);
        e
    }

    /// The entry's text: its parts (see `entry_parts`) joined with spaces.
    pub fn format(&self) -> (r: String)
        requires
            self.metadata.wf(),
        ensures
            r@ == joined(entry_parts(*self)),
    {
        let level = match self.level {
            LogLevel::Debug => "DEBUG",
            LogLevel::Info => "INFO",
            LogLevel::Warning => "WARN",
            LogLevel::Error => "ERROR",
        };
        let mut parts: Vec<String> = Vec::new();
        let mut tag = owned("[");
        push_string(&mut tag, level);
        push_string(&mut tag, "]");
        parts.push(tag);
        parts.push(self.operation.clone());
        let ghost p0 = texts(parts@);
        proof {
            assert(p0 =~= seq!["["@ + level_tag(self.level) + "]"@, self.operation@]);
        }
        if let Some(d) = self.duration {
            let mut t = decimal_string(d);
            push_string(&mut t, "μs");
            let ghost tv = t@;
            parts.push(t);
            assert(texts(parts@) =~= p0.push(tv));
        }
        let ghost p1 = texts(parts@);
        proof {
            assert(p1 =~= p0 + optional_part(self.duration is Some, decimal(self.duration->0 as nat) + "μs"@));
        }
        if let Some(n) = self.input_size {
            push_part(&mut parts, "in:", format_size(n));
        }
        let ghost p2 = texts(parts@);
        proof {
            assert(p2 =~= p1 + optional_part(self.input_size is Some, "in:"@ + size_text(self.input_size->0 as nat)));
        }
        if let Some(n) = self.output_size {
            push_part(&mut parts, "out:", format_size(n));
        }
        let ghost p3 = texts(parts@);
        proof {
            assert(p3 =~= p2 + optional_part(self.output_size is Some, "out:"@ + size_text(self.output_size->0 as nat)));
        }
        if let Some(n) = self.memory_usage {
            push_part(&mut parts, "mem:", format_size(n));
        }
        let ghost p4 = texts(parts@);
        proof {
            assert(p4 =~= p3 + optional_part(self.memory_usage is Some, "mem:"@ + size_text(self.memory_usage->0 as nat)));
        }
        parts.push(self.message.clone());
        let ghost p5 = texts(parts@);
        proof {
            assert(p5 =~= p4 + seq![self.message@]);
        }
        if self.metadata.len() > 0 {
            let mut meta: Vec<String> = Vec::new();
            let mut i: usize = 0;
            while i < self.metadata.len()
                invariant
                    self.metadata.wf(),
                    i <= self.metadata.keys().len(),
                    texts(meta@) == metadata_parts(self.metadata).take(i as int),
                decreases self.metadata.keys().len() - i,
            {
                let (k, v) = self.metadata.entry(i);
                let mut item = k.clone();
                push_string(&mut item, "=");
                push_string(&mut item, v.as_str());
                let ghost before = texts(meta@);
                let ghost iv = item@;
                proof {
                    assert(metadata_parts(self.metadata)[i as int] == iv);
                }
                meta.push(item);
                proof {
                    assert(texts(meta@) =~= before.push(iv));
                    assert(metadata_parts(self.metadata).take(i + 1)
                        =~= metadata_parts(self.metadata).take(i as int).push(iv));
                }
                i = i + 1;
            }
            proof {
                assert(metadata_parts(self.metadata).take(i as int) =~= metadata_parts(self.metadata));
            }
            let mut m = owned("[");
            push_string(&mut m, join_words(&meta).as_str());
            push_string(&mut m, "]");
            let ghost mv = m@;
            parts.push(m);
            assert(texts(parts@) =~= p5.push(mv));
        }
        proof {
            assert(texts(parts@) =~= entry_parts(*self));
        }
        join_words(&parts)
    }

    /// A copy of the entry.
    pub fn copy(&self) -> (r: Self)
        ensures
            r.timestamp == self.timestamp,
            r.level == self.level,
            r.operation == self.operation,
            r.duration == self.duration,
            r.input_size == self.input_size,
            r.output_size == self.output_size,
            r.memory_usage == self.memory_usage,
            r.message == self.message,
            r.metadata.wf() == self.metadata.wf(),
            r.metadata.keys() == self.metadata.keys(),
            r.metadata.map() == self.metadata.map(),
    {
        PerformanceLogEntry {
            timestamp: self.timestamp,
            level: self.level,
            operation: self.operation.clone(),
            duration: self.duration,
            input_size: self.input_size,
            output_size: self.output_size,
            memory_usage: self.memory_usage,
            message: self.message.clone(),
            metadata: self.metadata.copy(),
        }
    }
}

/// The rank of a level: the more severe, the higher.
pub open spec fn level_rank(l: LogLevel) -> nat {
    match l {
        LogLevel::Debug => 0,
        LogLevel::Info => 1,
        LogLevel::Warning => 2,
        LogLevel::Error => 3,
    }
}

/// The buffer after an entry is added: when it then holds more than 10000
/// entries, the oldest 5000 are dropped.
pub open spec fn buffer_after(b: Seq<PerformanceLogEntry>, e: PerformanceLogEntry) -> Seq<PerformanceLogEntry> {
    let c = b.push(e);
    if c.len() > 10000 { c.skip(5000) } else { c }
}

/// The buffer never holds more than 10000 entries, and the entry just
/// logged is always its newest.
pub proof fn law_buffer_bounded(b: Seq<PerformanceLogEntry>, e: PerformanceLogEntry)
    requires
        b.len() <= 10000,
    ensures
        buffer_after(b, e).len() <= 10000,
        buffer_after(b, e).last() == e,
{
    let c = b.push(e);
    if c.len() > 10000 {
        assert(c.skip(5000).last() == c.last());
    }
}

/// A log that keeps a level keeps every more severe level too.
pub proof fn law_kept_levels_are_upward_closed(min: LogLevel, a: LogLevel, b: LogLevel)
    requires
        level_rank(a) >= level_rank(min),
        level_rank(b) >= level_rank(a),
    ensures
        level_rank(b) >= level_rank(min),
{
}

/// Two entries hold the same figures, texts and metadata.
pub open spec fn same_entry(a: PerformanceLogEntry, b: PerformanceLogEntry) -> bool {
    &&& a.timestamp == b.timestamp
    &&& a.level == b.level
    &&& a.operation == b.operation
    &&& a.duration == b.duration
    &&& a.input_size == b.input_size
    &&& a.output_size == b.output_size
    &&& a.memory_usage == b.memory_usage
    &&& a.message == b.message
    &&& a.metadata.wf() == b.metadata.wf()
    &&& a.metadata.keys() == b.metadata.keys()
    &&& a.metadata.map() == b.metadata.map()
}

/// The operations of a list of entries, each once, in the order they first
/// appear.
pub open spec fn first_seen(es: Seq<PerformanceLogEntry>) -> Seq<Seq<char>>
    decreases es.len(),
{
    if es.len() == 0 {
        Seq::empty()
    } else {
        let r = first_seen(es.drop_last());
        if r.contains(es.last().operation@) { r } else { r.push(es.last().operation@) }
    }
}

/// The number of entries of an operation.
pub open spec fn tally_count(es: Seq<PerformanceLogEntry>, op: Seq<char>) -> nat
    decreases es.len(),
{
    if es.len() == 0 { 0 } else {
        tally_count(es.drop_last(), op) + if es.last().operation@ == op { 1nat } else { 0nat }
    }
}

/// The sum of the durations of the entries of an operation.
pub open spec fn tally_duration(es: Seq<PerformanceLogEntry>, op: Seq<char>) -> nat
    decreases es.len(),
{
    if es.len() == 0 { 0 } else {
        tally_duration(es.drop_last(), op) + match es.last().duration {
            Some(d) => if es.last().operation@ == op { d as nat } else { 0nat },
            None => 0nat,
        }
    }
}

/// The least duration of the entries of an operation; `u64::MAX` for none.
pub open spec fn tally_min_duration(es: Seq<PerformanceLogEntry>, op: Seq<char>) -> u64
    decreases es.len(),
{
    if es.len() == 0 { u64::MAX } else {
        let m = tally_min_duration(es.drop_last(), op);
        match es.last().duration {
            Some(d) => if es.last().operation@ == op && d < m { d } else { m },
            None => m,
        }
    }
}

/// The greatest duration of the entries of an operation; zero for none.
pub open spec fn tally_max_duration(es: Seq<PerformanceLogEntry>, op: Seq<char>) -> u64
    decreases es.len(),
{
    if es.len() == 0 { 0 } else {
        let m = tally_max_duration(es.drop_last(), op);
        match es.last().duration {
            Some(d) => if es.last().operation@ == op && d > m { d } else { m },
            None => m,
        }
    }
}

/// The sum of the memory figures of the entries of an operation.
pub open spec fn tally_memory(es: Seq<PerformanceLogEntry>, op: Seq<char>) -> nat
    decreases es.len(),
{
    if es.len() == 0 { 0 } else {
        tally_memory(es.drop_last(), op) + match es.last().memory_usage {
            Some(m) => if es.last().operation@ == op { m as nat } else { 0nat },
            None => 0nat,
        }
    }
}

/// The greatest memory figure of the entries of an operation; zero for none.
pub open spec fn tally_max_memory(es: Seq<PerformanceLogEntry>, op: Seq<char>) -> usize
    decreases es.len(),
{
    if es.len() == 0 { 0 } else {
        let m = tally_max_memory(es.drop_last(), op);
        match es.last().memory_usage {
            Some(x) => if es.last().operation@ == op && x > m { x } else { m },
            None => m,
        }
    }
}

/// The durations and memory figures of each operation can be summed.
pub open spec fn tallies_fit(es: Seq<PerformanceLogEntry>) -> bool {
    forall|op: Seq<char>| tally_duration(es, op) <= u64::MAX && #[trigger] tally_memory(es, op) <= usize::MAX
}

/// The figures gathered for one operation of the log.
#[derive(Debug, Clone)]
pub struct OperationSummary {
    pub operation: String,
    pub count: usize,
    pub total_duration: u64,
    pub avg_duration: u64,
    pub min_duration: u64,
    pub max_duration: u64,
    pub total_memory: usize,
    pub avg_memory: usize,
    pub max_memory: usize,
}

impl OperationSummary {
    /// A copy of the summary.
    pub fn clone_summary(&self) -> (r: Self)
        ensures
            r.operation@ == self.operation@,
            r.count == self.count,
            r.total_duration == self.total_duration,
            r.avg_duration == self.avg_duration,
            r.min_duration == self.min_duration,
            r.max_duration == self.max_duration,
            r.total_memory == self.total_memory,
            r.avg_memory == self.avg_memory,
            r.max_memory == self.max_memory,
    {
        OperationSummary {
            operation: self.operation.clone(),
            count: self.count,
            total_duration: self.total_duration,
            avg_duration: self.avg_duration,
            min_duration: self.min_duration,
            max_duration: self.max_duration,
            total_memory: self.total_memory,
            avg_memory: self.avg_memory,
            max_memory: self.max_memory,
        }
    }
}

/// `s` sums up the entries of `op` in `es`: their number, the sum, least
/// and greatest of their durations and the sum and greatest of their memory
/// figures, with the averages (sums divided by the number, rounded down).
pub open spec fn summary_for(s: OperationSummary, op: Seq<char>, es: Seq<PerformanceLogEntry>) -> bool {
    &&& s.operation@ == op
    &&& s.count == tally_count(es, op)
    &&& s.total_duration == tally_duration(es, op)
    &&& s.min_duration == tally_min_duration(es, op)
    &&& s.max_duration == tally_max_duration(es, op)
    &&& s.total_memory == tally_memory(es, op)
    &&& s.max_memory == tally_max_memory(es, op)
    &&& s.avg_duration == if s.count > 0 { (s.total_duration as nat) / (s.count as nat) } else { 0 }
    &&& s.avg_memory == if s.count > 0 { (s.total_memory as nat) / (s.count as nat) } else { 0 }
}

/// `s` holds the figures gathered so far for `op` over `es`, the averages
/// not yet computed.
pub open spec fn gathered_so_far(s: OperationSummary, op: Seq<char>, es: Seq<PerformanceLogEntry>) -> bool {
    &&& s.operation@ == op
    &&& s.count == tally_count(es, op)
    &&& s.total_duration == tally_duration(es, op)
    &&& s.min_duration == tally_min_duration(es, op)
    &&& s.max_duration == tally_max_duration(es, op)
    &&& s.total_memory == tally_memory(es, op)
    &&& s.max_memory == tally_max_memory(es, op)
    &&& s.avg_duration == 0
    &&& s.avg_memory == 0
}

/// The figures of a list grow with the list.
pub proof fn lemma_tally_prefix(es: Seq<PerformanceLogEntry>, op: Seq<char>, k: int)
    requires
        0 <= k <= es.len(),
    ensures
        tally_duration(es.take(k), op) <= tally_duration(es, op),
        tally_memory(es.take(k), op) <= tally_memory(es, op),
        tally_count(es.take(k), op) <= k,
    decreases es.len(),
{
    if k < es.len() {
        lemma_tally_prefix(es.drop_last(), op, k);
        assert(es.drop_last().take(k) =~= es.take(k));
    } else {
        assert(es.take(k) =~= es);
        lemma_tally_count_bound(es, op);
    }
}

/// No more entries of an operation than entries.
pub proof fn lemma_tally_count_bound(es: Seq<PerformanceLogEntry>, op: Seq<char>)
    ensures
        tally_count(es, op) <= es.len(),
    decreases es.len(),
{
    if es.len() > 0 {
        lemma_tally_count_bound(es.drop_last(), op);
    }
}

/// An operation that does not appear has no figures; the operations appear
/// each once.
pub proof fn lemma_first_seen(es: Seq<PerformanceLogEntry>, op: Seq<char>)
    ensures
        !first_seen(es).contains(op) ==> tally_count(es, op) == 0 && tally_duration(es, op) == 0
            && tally_min_duration(es, op) == u64::MAX && tally_max_duration(es, op) == 0
            && tally_memory(es, op) == 0 && tally_max_memory(es, op) == 0,
        first_seen(es).no_duplicates(),
    decreases es.len(),
{
    if es.len() > 0 {
        let r = first_seen(es.drop_last());
        lemma_first_seen(es.drop_last(), op);
        if !first_seen(es).contains(op) {
            if r.contains(op) {
                let i = choose|i: int| 0 <= i < r.len() && r[i] == op;
                if !r.contains(es.last().operation@) {
                    assert(first_seen(es)[i] == op);
                }
            }
            if es.last().operation@ == op {
                if r.contains(op) {
                } else {
                    assert(first_seen(es).last() == op);
                }
            }
        }
    }
}

/// The performance log: the level from which entries are kept, whether they
/// are to be shown on the console, and the latest entries.
pub struct PerformanceLogger {
    console_enabled: bool,
    min_level: LogLevel,
    buffer: Vec<PerformanceLogEntry>,
}

impl PerformanceLogger {
    /// The entries kept, oldest first.
    pub closed spec fn entries(&self) -> Seq<PerformanceLogEntry> {
        self.buffer@
    }

    /// The least level kept.
    pub closed spec fn level(&self) -> LogLevel {
        self.min_level
    }

    /// Whether kept entries are to be shown on the console.
    pub closed spec fn console(&self) -> bool {
        self.console_enabled
    }

    /// A log keeping entries from `Info` up, shown on the console, with no
    /// entry yet.
    pub fn new() -> (r: Self)
        ensures
            r.level() == LogLevel::Info,
            r.console(),
            r.entries() == Seq::<PerformanceLogEntry>::empty(),
    {
        PerformanceLogger { console_enabled: true, min_level: LogLevel::Info, buffer: Vec::new() }
    }

    /// The log keeping entries from `level` up.
    pub fn with_min_level(self, level: LogLevel) -> (r: Self)
        ensures
            r.level() == level,
            r.console() == self.console(),
            r.entries() == self.entries(),
    {
        let mut l = self;
        l.min_level = level;
        l
    }

    /// The log showing kept entries on the console or not.
    pub fn with_console(self, enabled: bool) -> (r: Self)
        ensures
            r.console() == enabled,
            r.level() == self.level(),
            r.entries() == self.entries(),
    {
        let mut l = self;
        l.console_enabled = enabled;
        l
    }

    /// Whether kept entries are to be shown on the console.
    pub fn is_console_enabled(&self) -> (r: bool)
        ensures
            r == self.console(),
    {
        self.console_enabled
    }

    /// Whether an entry of the level is kept: its level is at least the
    /// least level kept.
    pub fn should_log(&self, level: LogLevel) -> (r: bool)
        ensures
            r == (level_rank(level) >= level_rank(self.level())),
    {
        match (self.min_level, level) {
            (LogLevel::Debug, _) => true,
            (LogLevel::Info, LogLevel::Debug) => false,
            (LogLevel::Info, _) => true,
            (LogLevel::Warning, LogLevel::Debug) | (LogLevel::Warning, LogLevel::Info) => false,
            (LogLevel::Warning, _) => true,
            (LogLevel::Error, LogLevel::Error) => true,
            (LogLevel::Error, _) => false,
        }
    }

    /// Copies of the entries kept, oldest first.
    pub fn get_buffer(&self) -> (r: Vec<PerformanceLogEntry>)
        ensures
            r@.len() == self.entries().len(),
            forall|i: int| 0 <= i < r@.len() ==> same_entry(#[trigger] r@[i], self.entries()[i]),
    {
        let mut r: Vec<PerformanceLogEntry> = Vec::new();
        let mut i: usize = 0;
        while i < self.buffer.len()
            invariant
                i <= self.buffer@.len(),
                r@.len() == i,
                forall|j: int| 0 <= j < i ==> same_entry(#[trigger] r@[j], self.buffer@[j]),
            decreases self.buffer.len() - i,
        {
            r.push(self.buffer[i].copy());
            i = i + 1;
        }
        r
    }

    /// Forgets the entries kept.
    pub fn clear_buffer(&mut self)
        ensures
            final(self).entries() == Seq::<PerformanceLogEntry>::empty(),
            final(self).level() == old(self).level(),
            final(self).console() == old(self).console(),
    {
        self.buffer.clear();
    }

    /// The figures of each operation of the entries kept, the operations in
    /// the order they first appear (see `summary_for`).
    pub fn get_operation_stats(&self) -> (r: Vec<OperationSummary>)
        requires
            tallies_fit(self.entries()),
        ensures
            r@.len() == first_seen(self.entries()).len(),
            forall|j: int| 0 <= j < r@.len() ==> summary_for(#[trigger] r@[j], first_seen(self.entries())[j], self.entries()),
    {
        let ghost es = self.buffer@;
        let mut out: Vec<OperationSummary> = Vec::new();
        let mut i: usize = 0;
        while i < self.buffer.len()
            invariant
                es == self.buffer@,
                tallies_fit(es),
                i <= es.len(),
                out@.len() == first_seen(es.take(i as int)).len(),
                forall|j: int| 0 <= j < out@.len() ==> gathered_so_far(#[trigger] out@[j],
                    first_seen(es.take(i as int))[j], es.take(i as int)),
            decreases es.len() - i,
        {
            let e = &self.buffer[i];
            let ghost p = es.take(i as int);
            let ghost q = es.take(i + 1);
            let ghost op = e.operation@;
            proof {
                assert(q.drop_last() =~= p);
                assert(q.last() == *e);
                lemma_first_seen(p, op);
                lemma_tally_prefix(es, op, i + 1);
                assert(tally_duration(es, op) <= u64::MAX && tally_memory(es, op) <= usize::MAX);
                lemma_tally_count_bound(p, op);
            }
            let mut j: usize = 0;
            while j < out.len() && !str_eq(out[j].operation.as_str(), e.operation.as_str())
                invariant
                    op == e.operation@,
                    j <= out@.len(),
                    forall|m: int| 0 <= m < j ==> (#[trigger] out@[m]).operation@ != op,
                decreases out.len() - j,
            {
                j = j + 1;
            }
            let ghost names = first_seen(p);
            proof {
                assert forall|m: int| 0 <= m < out@.len() implies (#[trigger] out@[m]).operation@ == names[m] by {
                    assert(gathered_so_far(out@[m], names[m], p));
                }
            }
            if j == out.len() {
                proof {
                    assert(!names.contains(op)) by {
                        if names.contains(op) {
                            let m = choose|m: int| 0 <= m < names.len() && names[m] == op;
                            assert(out@[m].operation@ == names[m]);
                        }
                    }
                    assert(first_seen(q) =~= names.push(op));
                }
                out.push(OperationSummary {
                    operation: e.operation.clone(),
                    count: 0,
                    total_duration: 0,
                    avg_duration: 0,
                    min_duration: u64::MAX,
                    max_duration: 0,
                    total_memory: 0,
                    avg_memory: 0,
                    max_memory: 0,
                });
            } else {
                proof {
                    assert(names.contains(op)) by {
                        assert(names[j as int] == op);
                    }
                    assert(first_seen(q) == names);
                }
            }
            let ghost before = out@;
            proof {
                assert(gathered_so_far(out@[j as int], op, p));
            }
            let s = &out[j];
            let mut count = s.count;
            let mut total_duration = s.total_duration;
            let mut min_duration = s.min_duration;
            let mut max_duration = s.max_duration;
            let mut total_memory = s.total_memory;
            let mut max_memory = s.max_memory;
            count = count + 1;
            if let Some(d) = e.duration {
                total_duration = total_duration + d;
                if d < min_duration {
                    min_duration = d;
                }
                if d > max_duration {
                    max_duration = d;
                }
            }
            if let Some(m) = e.memory_usage {
                total_memory = total_memory + m;
                if m > max_memory {
                    max_memory = m;
                }
            }
            let updated = OperationSummary {
                operation: s.operation.clone(),
                count,
                total_duration,
                avg_duration: 0,
                min_duration,
                max_duration,
                total_memory,
                avg_memory: 0,
                max_memory,
            };
            out.set(j, updated);
            proof {
                lemma_first_seen(q, op);
                assert forall|m: int| 0 <= m < out@.len() implies gathered_so_far(#[trigger] out@[m],
                    first_seen(q)[m], q) by {
                    if m != j {
                        let other = first_seen(q)[m];
                        assert(first_seen(q)[j as int] == op);
                        assert(other != op);
                        assert(before[m] == out@[m]);
                        assert(gathered_so_far(before[m], first_seen(p)[m], p));
                        assert(first_seen(p)[m] == other);
                    }
                }
            }
            i = i + 1;
        }
        proof {
            assert(es.take(i as int) =~= es);
        }
        let ghost names = first_seen(es);
        let mut j: usize = 0;
        while j < out.len()
            invariant
                names == first_seen(es),
                j <= out@.len(),
                out@.len() == names.len(),
                forall|m: int| 0 <= m < j ==> summary_for(#[trigger] out@[m], names[m], es),
                forall|m: int| j <= m < out@.len() ==> gathered_so_far(#[trigger] out@[m], names[m], es),
            decreases out.len() - j,
        {
            let s = &out[j];
            let mut updated = s.clone_summary();
            if s.count > 0 {
                updated.avg_duration = s.total_duration / s.count as u64;
                updated.avg_memory = s.total_memory / s.count;
            }
            out.set(j, updated);
            j = j + 1;
        }
        out
    }

    /// Logs an entry: when its level is kept, it joins the buffer (see
    /// `buffer_after`) and its text comes back, to be shown and written;
    /// otherwise nothing changes.
    pub fn log(&mut self, entry: PerformanceLogEntry) -> (r: Option<String>)
        requires
            entry.metadata.wf(),
        ensures
            final(self).level() == old(self).level(),
            final(self).console() == old(self).console(),
            if level_rank(entry.level) >= level_rank(old(self).level()) {
                &&& r matches Some(t) && t@ == joined(entry_parts(entry))
                &&& final(self).entries() == buffer_after(old(self).entries(), entry)
            } else {
                &&& r is None
                &&& final(self).entries() == old(self).entries()
            },
    {
        if !self.should_log(entry.level) {
            return None;
        }
        let text = entry.format();
        self.buffer.push(entry);
        if self.buffer.len() > 10000 {
            let kept = self.buffer.split_off(5000);
            self.buffer = kept;
            assert(self.buffer@ =~= old(self).buffer@.push(entry).skip(5000));
        }
        Some(text)
    }
}

} // verus!
