//! Counter deltas that tolerate a 64-bit wrap between two samples, and the
//! per-queue counter updates read from extended statistics.

use vstd::prelude::*;
use crate::model::port::PortStats;
use crate::text::{chars_of, starts_with, ends_with, starts_with_chars, ends_with_chars, chars_eq};

verus! {

/// The modulus of a 64-bit counter.
pub open spec fn counter_modulus() -> int {
    0x1_0000_0000_0000_0000int
}

/// How far a 64-bit counter advanced from `previous` to `current`,
/// counting one wrap past `u64::MAX` when `current` is below `previous`.
pub open spec fn spec_delta(current: u64, previous: u64) -> int {
    if current >= previous {
        current - previous
    } else {
        current - previous + counter_modulus()
    }
}

/// Difference between two samples of a monotonically increasing counter,
/// handling one wrap of the u64 counter.
pub fn delta(current: u64, previous: u64) -> (d: u64)
    ensures
        d == spec_delta(current, previous),
        d as int == (current - previous) % counter_modulus(),
{
    if current >= previous {
        current - previous
    } else {
        (u64::MAX - previous) + current + 1
    }
}

/// The delta is what a counter must advance, modulo 2^64, to get from the
/// previous sample to the current one: adding it back to the previous sample
/// gives the current sample, it is the plain difference when the counter did
/// not wrap, and it is zero exactly when both samples are equal.
pub proof fn lemma_delta_recovers_current(current: u64, previous: u64)
    ensures
        (previous + spec_delta(current, previous)) % counter_modulus() == current,
        current >= previous ==> spec_delta(current, previous) == current - previous,
        0 <= spec_delta(current, previous) < counter_modulus(),
        (spec_delta(current, previous) == 0) == (current == previous),
{
}

/// Each counter's advance from `previous` to `current`.
pub open spec fn spec_stats_delta(current: PortStats, previous: PortStats) -> PortStats {
    PortStats {
        ipackets: spec_delta(current.ipackets, previous.ipackets) as u64,
        opackets: spec_delta(current.opackets, previous.opackets) as u64,
        ibytes: spec_delta(current.ibytes, previous.ibytes) as u64,
        obytes: spec_delta(current.obytes, previous.obytes) as u64,
        imissed: spec_delta(current.imissed, previous.imissed) as u64,
        ierrors: spec_delta(current.ierrors, previous.ierrors) as u64,
        oerrors: spec_delta(current.oerrors, previous.oerrors) as u64,
        rx_nombuf: spec_delta(current.rx_nombuf, previous.rx_nombuf) as u64,
    }
}

/// Per-field deltas between two stats samples.
pub fn port_stats_delta(current: &PortStats, previous: &PortStats) -> (d: PortStats)
    ensures
        d == spec_stats_delta(*current, *previous),
        d.ipackets == spec_delta(current.ipackets, previous.ipackets),
        d.opackets == spec_delta(current.opackets, previous.opackets),
        d.ibytes == spec_delta(current.ibytes, previous.ibytes),
        d.obytes == spec_delta(current.obytes, previous.obytes),
        d.imissed == spec_delta(current.imissed, previous.imissed),
        d.ierrors == spec_delta(current.ierrors, previous.ierrors),
        d.oerrors == spec_delta(current.oerrors, previous.oerrors),
        d.rx_nombuf == spec_delta(current.rx_nombuf, previous.rx_nombuf),
{
    PortStats {
        ipackets: delta(current.ipackets, previous.ipackets),
        opackets: delta(current.opackets, previous.opackets),
        ibytes: delta(current.ibytes, previous.ibytes),
        obytes: delta(current.obytes, previous.obytes),
        imissed: delta(current.imissed, previous.imissed),
        ierrors: delta(current.ierrors, previous.ierrors),
        oerrors: delta(current.oerrors, previous.oerrors),
        rx_nombuf: delta(current.rx_nombuf, previous.rx_nombuf),
    }
}

/// The value of the decimal digit `c`.
pub open spec fn digit_value(c: char) -> int {
    c as int - '0' as int
}

pub open spec fn is_digit(c: char) -> bool {
    '0' <= c && c <= '9'
}

pub open spec fn all_digits(s: Seq<char>) -> bool {
    forall|i: int| 0 <= i < s.len() ==> is_digit(#[trigger] s[i])
}

/// The number written by the decimal digits `s`.
pub open spec fn digits_value(s: Seq<char>) -> nat
    decreases s.len(),
{
    if s.len() == 0 {
        0
    } else {
        (digits_value(s.drop_last()) * 10 + digit_value(s.last())) as nat
    }
}

/// What Rust's `usize::from_str` accepts: an optional `+` followed by one or
/// more decimal digits whose value fits in a `usize`.
pub open spec fn parse_usize(s: Seq<char>) -> Option<usize> {
    let digits = if s.len() > 0 && s[0] == '+' { s.drop_first() } else { s };
    if digits.len() > 0 && all_digits(digits) && digits_value(digits) <= usize::MAX {
        Some(digits_value(digits) as usize)
    } else {
        None
    }
}

proof fn lemma_digits_value_prefix_grows(s: Seq<char>, i: int, j: int)
    requires
        0 <= i <= j <= s.len(),
        all_digits(s),
    ensures
        digits_value(s.take(i)) <= digits_value(s.take(j)),
    decreases j - i,
{
    if i < j {
        lemma_digits_value_prefix_grows(s, i, j - 1);
        assert(s.take(j).drop_last() =~= s.take(j - 1));
        assert(is_digit(s[j - 1]));
    }
}

/// Parse `s` as Rust's `usize::from_str` does.
pub fn parse_usize_chars(s: &Vec<char>) -> (r: Option<usize>)
    ensures
        r == parse_usize(s@),
{
    let start: usize = if s.len() > 0 && s[0] == '+' { 1 } else { 0 };
    let ghost digits = if s@.len() > 0 && s@[0] == '+' { s@.drop_first() } else { s@ };
    assert(digits =~= s@.skip(start as int));
    if start >= s.len() {
        return None;
    }
    let mut acc: usize = 0;
    let mut i: usize = start;
    while i < s.len()
        invariant
            start <= i <= s@.len(),
            digits =~= s@.skip(start as int),
            digits == (if s@.len() > 0 && s@[0] == '+' { s@.drop_first() } else { s@ }),
            forall|k: int| start <= k < i ==> is_digit(#[trigger] s@[k]),
            acc == digits_value(digits.take(i - start)),
        decreases s@.len() - i,
    {
        let c = s[i];
        if !('0' <= c && c <= '9') {
            assert(!is_digit(digits[i - start]));
            assert(!all_digits(digits));
            return None;
        }
        let d = (c as u32 - '0' as u32) as usize;
        proof {
            assert(digits.take(i + 1 - start).drop_last() =~= digits.take(i - start));
            assert(digits.take(i + 1 - start).last() == c);
        }
        if acc > (usize::MAX - d) / 10 {
            proof {
                assert(acc * 10 + d > usize::MAX) by (nonlinear_arith)
                    requires acc > (usize::MAX - d) / 10, d <= 9;
                assert(digits_value(digits.take(i + 1 - start)) == acc * 10 + d);
                if all_digits(digits) {
                    lemma_digits_value_prefix_grows(digits, i + 1 - start, digits.len() as int);
                    assert(digits.take(digits.len() as int) =~= digits);
                }
            }
            return None;
        }
        acc = acc * 10 + d;
        i = i + 1;
    }
    proof {
        assert(digits.take(i - start) =~= digits);
        assert(all_digits(digits));
    }
    Some(acc)
}

/// `name` with `prefix` and then `suffix` stripped, parsed as a queue index
/// (`None` when either is missing or the middle is no `usize`).
pub open spec fn spec_queue_id(name: Seq<char>, prefix: Seq<char>, suffix: Seq<char>) -> Option<usize> {
    if !starts_with(name, prefix) {
        None
    } else {
        let rest = name.skip(prefix.len() as int);
        if !ends_with(rest, suffix) {
            None
        } else {
            parse_usize(rest.take(rest.len() - suffix.len()))
        }
    }
}

/// Queue index in an xstat name such as `rx_q3_packets`.
pub fn parse_queue_id(name: &str, prefix: &str, suffix: &str) -> (r: Option<usize>)
    ensures
        r == spec_queue_id(name@, prefix@, suffix@),
{
    let n = chars_of(name);
    let p = chars_of(prefix);
    let s = chars_of(suffix);
    if !starts_with_chars(&n, &p) {
        return None;
    }
    let mut rest: Vec<char> = Vec::new();
    let mut i: usize = p.len();
    while i < n.len()
        invariant
            p@.len() <= i <= n@.len(),
            rest@ =~= n@.subrange(p@.len() as int, i as int),
        decreases n@.len() - i,
    {
        rest.push(n[i]);
        i = i + 1;
    }
    assert(rest@ =~= n@.skip(p@.len() as int));
    if !ends_with_chars(&rest, &s) {
        return None;
    }
    let keep = rest.len() - s.len();
    let mut mid: Vec<char> = Vec::new();
    let mut j: usize = 0;
    while j < keep
        invariant
            keep <= rest@.len(),
            j <= keep,
            mid@ =~= rest@.take(j as int),
        decreases keep - j,
    {
        mid.push(rest[j]);
        j = j + 1;
    }
    parse_usize_chars(&mid)
}

/// Which per-queue counter an xstat feeds.
#[derive(Clone, Copy, Debug, PartialEq, Eq, Structural)]
pub enum QueueField {
    RxPackets,
    RxBytes,
    TxPackets,
    TxBytes,
}

/// One per-queue counter read from an xstat: its new value and how far it
/// advanced since the previous sample of the same xstat.
#[derive(Clone, Copy, Debug, PartialEq, Eq, Structural)]
pub struct QueueCounterUpdate {
    pub queue: usize,
    pub field: QueueField,
    pub value: u64,
    pub delta: u64,
}

/// The queue counter an xstat name feeds, if any: names of the form
/// `rx_q<N>_packets`, `rx_q<N>_bytes`, `tx_q<N>_packets`, `tx_q<N>_bytes`
/// with `N < num_queues`. A name with the right prefix and suffix but no
/// valid index feeds nothing (later forms are not tried).
pub open spec fn classify_xstat(name: Seq<char>, num_queues: nat) -> Option<(usize, QueueField)> {
    let pick = |id: Option<usize>, f: QueueField|
        match id {
            Some(q) => if q < num_queues { Some((q, f)) } else { None },
            None => None,
        };
    if starts_with(name, "rx_q"@) && ends_with(name, "_packets"@) {
        pick(spec_queue_id(name, "rx_q"@, "_packets"@), QueueField::RxPackets)
    } else if starts_with(name, "rx_q"@) && ends_with(name, "_bytes"@) {
        pick(spec_queue_id(name, "rx_q"@, "_bytes"@), QueueField::RxBytes)
    } else if starts_with(name, "tx_q"@) && ends_with(name, "_packets"@) {
        pick(spec_queue_id(name, "tx_q"@, "_packets"@), QueueField::TxPackets)
    } else if starts_with(name, "tx_q"@) && ends_with(name, "_bytes"@) {
        pick(spec_queue_id(name, "tx_q"@, "_bytes"@), QueueField::TxBytes)
    } else {
        None
    }
}

/// The value of the first xstat named `name` in `xstats`, or 0 when there is
/// none.
pub open spec fn previous_value(xstats: Seq<(String, u64)>, name: Seq<char>) -> u64
    decreases xstats.len(),
{
    if xstats.len() == 0 {
        0
    } else if xstats[0].0@ == name {
        xstats[0].1
    } else {
        previous_value(xstats.drop_first(), name)
    }
}

/// The queue counter updates that `current` xstats give, in their order,
/// with deltas against the `previous` sample.
pub open spec fn queue_updates(
    current: Seq<(String, u64)>,
    previous: Seq<(String, u64)>,
    num_queues: nat,
) -> Seq<QueueCounterUpdate>
    decreases current.len(),
{
    if current.len() == 0 {
        Seq::empty()
    } else {
        let rest = queue_updates(current.drop_last(), previous, num_queues);
        let (name, value) = current.last();
        match classify_xstat(name@, num_queues) {
            Some((q, f)) => rest.push(QueueCounterUpdate {
                queue: q,
                field: f,
                value,
                delta: spec_delta(value, previous_value(previous, name@)) as u64,
            }),
            None => rest,
        }
    }
}

fn lookup_previous(previous: &Vec<(String, u64)>, name: &Vec<char>) -> (v: u64)
    ensures
        v == previous_value(previous@, name@),
{
    let mut i: usize = 0;
    assert(previous@.skip(0) =~= previous@);
    while i < previous.len()
        invariant
            i <= previous@.len(),
            previous_value(previous@, name@) == previous_value(previous@.skip(i as int), name@),
        decreases previous@.len() - i,
    {
        let n = chars_of(previous[i].0.as_str());
        assert(previous@.skip(i as int)[0] == previous@[i as int]);
        if chars_eq(&n, name) {
            return previous[i].1;
        }
        assert(previous@.skip(i as int).drop_first() =~= previous@.skip(i + 1));
        i = i + 1;
    }
    0
}

fn classify_name(name: &str, num_queues: usize) -> (r: Option<(usize, QueueField)>)
    ensures
        r == classify_xstat(name@, num_queues as nat),
{
    let n = chars_of(name);
    let rx = chars_of("rx_q");
    let tx = chars_of("tx_q");
    let pk = chars_of("_packets");
    let by = chars_of("_bytes");
    let (id, field) = if starts_with_chars(&n, &rx) && ends_with_chars(&n, &pk) {
        (parse_queue_id(name, "rx_q", "_packets"), QueueField::RxPackets)
    } else if starts_with_chars(&n, &rx) && ends_with_chars(&n, &by) {
        (parse_queue_id(name, "rx_q", "_bytes"), QueueField::RxBytes)
    } else if starts_with_chars(&n, &tx) && ends_with_chars(&n, &pk) {
        (parse_queue_id(name, "tx_q", "_packets"), QueueField::TxPackets)
    } else if starts_with_chars(&n, &tx) && ends_with_chars(&n, &by) {
        (parse_queue_id(name, "tx_q", "_bytes"), QueueField::TxBytes)
    } else {
        return None;
    };
    match id {
        Some(q) => if q < num_queues { Some((q, field)) } else { None },
        None => None,
    }
}

/// The per-queue counter updates carried by `current_xstats`, in order: for
/// each xstat naming a queue below `num_queues`, its value and its delta
/// against the first xstat of the same name in `previous_xstats` (against 0
/// when there is none).
pub fn queue_counter_updates(
    current_xstats: &Vec<(String, u64)>,
    previous_xstats: &Vec<(String, u64)>,
    num_queues: usize,
) -> (out: Vec<QueueCounterUpdate>)
    ensures
        out@ == queue_updates(current_xstats@, previous_xstats@, num_queues as nat),
{
    let mut out: Vec<QueueCounterUpdate> = Vec::new();
    let mut i: usize = 0;
    while i < current_xstats.len()
        invariant
            i <= current_xstats@.len(),
            out@ == queue_updates(current_xstats@.take(i as int), previous_xstats@, num_queues as nat),
        decreases current_xstats@.len() - i,
    {
        let name = &current_xstats[i].0;
        let value = current_xstats[i].1;
        proof {
            assert(current_xstats@.take(i + 1).drop_last() =~= current_xstats@.take(i as int));
            assert(current_xstats@.take(i + 1).last() == current_xstats@[i as int]);
        }
        match classify_name(name.as_str(), num_queues) {
            Some((q, f)) => {
                let n = chars_of(name.as_str());
                let prev = lookup_previous(previous_xstats, &n);
                let d = delta(value, prev);
                out.push(QueueCounterUpdate { queue: q, field: f, value, delta: d });
            },
            None => {},
        }
        i = i + 1;
    }
    assert(current_xstats@.take(current_xstats@.len() as int) =~= current_xstats@);
    out
}

} // verus!
