//! Cumulative wall-clock timing of named sections.
//!
//! A timer is a handle that callers pass around: `start` records when a
//! section began, `stop` adds the time since then to the section's running
//! total, and `report` lists the totals, longest first. Times are kept in
//! nanoseconds since the timer was made.
use std::time::Instant;
use vstd::multiset::Multiset;
use vstd::prelude::*;
use vstd::string::StringExecFns;

verus! {

/// std's monotonic clock reading, carried opaquely as a timer's origin.
#[verifier::external_type_specification]
#[verifier::external_body]
pub struct ExInstant(std::time::Instant);

/// Relies on `Instant::now`: a reading of the monotonic clock, used as the
/// timer's origin. Nothing is known of its value.
#[verifier::external_body]
fn clock_origin() -> Instant {
    Instant::now()
}

/// Relies on `Instant::elapsed` and `Duration::as_nanos`: whole nanoseconds
/// since `origin`. The value depends on the clock, so nothing is stated of it.
#[verifier::external_body]
fn nanos_since(origin: &Instant) -> u128 {
    origin.elapsed().as_nanos()
}

/// Relies on `String::push`: appends one character.
#[verifier::external_body]
fn push_char(s: &mut String, c: char)
    ensures
        final(s)@ == old(s)@.push(c),
{
    s.push(c);
}

/// Entries of a list of `(name, value)` pairs, keyed by name.
pub open spec fn entries_map(entries: Seq<(String, u128)>) -> Map<Seq<char>, u128> {
    Map::new(
        |k: Seq<char>| exists|i: int| 0 <= i < entries.len() && entries[i].0@ == k,
        |k: Seq<char>| entries[choose|i: int| 0 <= i < entries.len() && entries[i].0@ == k].1,
    )
}

pub open spec fn unique_names(entries: Seq<(String, u128)>) -> bool {
    forall|i: int, j: int|
        0 <= i < entries.len() && 0 <= j < entries.len() && i != j ==> entries[i].0@
            != entries[j].0@
}

/// Time between two clock readings; a reading earlier than the start counts
/// as no time at all.
pub open spec fn elapsed_between(start: u128, now: u128) -> u128 {
    if now >= start {
        (now - start) as u128
    } else {
        0
    }
}

/// The total of `name` once `elapsed` more nanoseconds are added to it
/// (a section never stopped before has a total of zero). The sum saturates.
pub open spec fn accumulated(totals: Map<Seq<char>, u128>, name: Seq<char>, elapsed: u128) -> u128 {
    let before: int = if totals.contains_key(name) {
        totals[name] as int
    } else {
        0
    };
    if before + elapsed > u128::MAX {
        u128::MAX
    } else {
        (before + elapsed) as u128
    }
}

/// The decimal digit `d`.
pub open spec fn digit_char(d: nat) -> char {
    if d == 0 {
        '0'
    } else if d == 1 {
        '1'
    } else if d == 2 {
        '2'
    } else if d == 3 {
        '3'
    } else if d == 4 {
        '4'
    } else if d == 5 {
        '5'
    } else if d == 6 {
        '6'
    } else if d == 7 {
        '7'
    } else if d == 8 {
        '8'
    } else {
        '9'
    }
}

/// `n` in decimal, without leading zeros.
pub open spec fn decimal(n: nat) -> Seq<char>
    decreases n,
{
    if n < 10 {
        seq![digit_char(n)]
    } else {
        decimal(n / 10).push(digit_char(n % 10))
    }
}

/// The last `width` decimal digits of `n`, with leading zeros.
pub open spec fn padded(n: nat, width: nat) -> Seq<char>
    decreases width,
{
    if width == 0 {
        Seq::empty()
    } else {
        padded(n / 10, (width - 1) as nat).push(digit_char(n % 10))
    }
}

/// Nanoseconds rounded to the nearest microsecond, halves up.
pub open spec fn rounded_micros(nanos: u128) -> nat {
    (nanos / 1000 + if nanos % 1000 >= 500 {
        1int
    } else {
        0int
    }) as nat
}

/// One line of a report: the section, then its seconds with six decimals.
pub open spec fn report_line(name: Seq<char>, nanos: u128) -> Seq<char> {
    let us = rounded_micros(nanos);
    name + ": "@ + decimal(us / 1_000_000) + "."@ + padded(us % 1_000_000, 6) + " seconds\n"@
}

pub open spec fn report_lines(rows: Seq<(Seq<char>, u128)>) -> Seq<char>
    decreases rows.len(),
{
    if rows.len() == 0 {
        Seq::empty()
    } else {
        report_lines(rows.drop_last()) + report_line(rows.last().0, rows.last().1)
    }
}

/// The whole report for rows in the order given.
pub open spec fn report_text(rows: Seq<(Seq<char>, u128)>) -> Seq<char> {
    "Cumulative timing report:\n"@ + report_lines(rows)
}

pub open spec fn sorted_longest_first(rows: Seq<(Seq<char>, u128)>) -> bool {
    forall|i: int, j: int| 0 <= i < j < rows.len() ==> #[trigger] rows[i].1 >= #[trigger] rows[j].1
}

/// `rows` lists every entry of `totals` once, longest first.
pub open spec fn is_ranking(rows: Seq<(Seq<char>, u128)>, totals: Map<Seq<char>, u128>) -> bool {
    &&& sorted_longest_first(rows)
    &&& forall|i: int, j: int|
        0 <= i < rows.len() && 0 <= j < rows.len() && i != j ==> #[trigger] rows[i].0
            != #[trigger] rows[j].0
    &&& forall|i: int|
        0 <= i < rows.len() ==> totals.contains_key(#[trigger] rows[i].0) && totals[rows[i].0]
            == rows[i].1
    &&& forall|k: Seq<char>|
        totals.contains_key(k) ==> exists|i: int| 0 <= i < rows.len() && #[trigger] rows[i].0 == k
}

pub open spec fn rows_view(v: Seq<(String, u128)>) -> Seq<(Seq<char>, u128)> {
    v.map_values(|e: (String, u128)| (e.0@, e.1))
}

/// What a timer holds.
pub struct TimerState {
    /// Whether `start` and `stop` record anything.
    pub enabled: bool,
    /// Cumulative nanoseconds of each section that was stopped at least once.
    pub totals: Map<Seq<char>, u128>,
    /// Clock reading at which each running section was started.
    pub running: Map<Seq<char>, u128>,
}

/// A set of cumulative section timers.
pub struct CumulativeTimer {
    origin: Instant,
    enabled: bool,
    totals: Vec<(String, u128)>,
    starts: Vec<(String, u128)>,
}

proof fn lemma_entries_map_at(entries: Seq<(String, u128)>, i: int)
    requires
        unique_names(entries),
        0 <= i < entries.len(),
    ensures
        entries_map(entries).contains_key(entries[i].0@),
        entries_map(entries)[entries[i].0@] == entries[i].1,
{
    let k = entries[i].0@;
    assert(0 <= i < entries.len() && entries[i].0@ == k);
    let c = choose|j: int| 0 <= j < entries.len() && entries[j].0@ == k;
    assert(c == i);
}

proof fn lemma_entries_map_update(entries: Seq<(String, u128)>, i: int, e: (String, u128))
    requires
        unique_names(entries),
        0 <= i < entries.len(),
        entries[i].0@ == e.0@,
    ensures
        unique_names(entries.update(i, e)),
        entries_map(entries.update(i, e)) == entries_map(entries).insert(e.0@, e.1),
{
    let n = entries.update(i, e);
    assert(unique_names(n));
    assert forall|k: Seq<char>| #[trigger] entries_map(n).contains_key(k) implies entries_map(
        entries,
    ).insert(e.0@, e.1).contains_key(k) && entries_map(n)[k] == entries_map(entries).insert(
        e.0@,
        e.1,
    )[k] by {
        let j = choose|j: int| 0 <= j < n.len() && n[j].0@ == k;
        lemma_entries_map_at(n, j);
        if j != i {
            lemma_entries_map_at(entries, j);
        }
    }
    assert forall|k: Seq<char>| #[trigger] entries_map(entries).insert(
        e.0@,
        e.1,
    ).contains_key(k) implies entries_map(n).contains_key(k) by {
        if k == e.0@ {
            lemma_entries_map_at(n, i);
        } else {
            let j = choose|j: int| 0 <= j < entries.len() && entries[j].0@ == k;
            lemma_entries_map_at(n, j);
        }
    }
    assert(entries_map(n) =~= entries_map(entries).insert(e.0@, e.1));
}

proof fn lemma_entries_map_push(entries: Seq<(String, u128)>, e: (String, u128))
    requires
        unique_names(entries),
        !entries_map(entries).contains_key(e.0@),
    ensures
        unique_names(entries.push(e)),
        entries_map(entries.push(e)) == entries_map(entries).insert(e.0@, e.1),
{
    let n = entries.push(e);
    assert forall|j: int| 0 <= j < entries.len() implies #[trigger] entries[j].0@ != e.0@ by {
        lemma_entries_map_at(entries, j);
    }
    assert(unique_names(n));
    assert forall|k: Seq<char>| #[trigger] entries_map(n).contains_key(k) implies entries_map(
        entries,
    ).insert(e.0@, e.1).contains_key(k) && entries_map(n)[k] == entries_map(entries).insert(
        e.0@,
        e.1,
    )[k] by {
        let j = choose|j: int| 0 <= j < n.len() && n[j].0@ == k;
        lemma_entries_map_at(n, j);
        if j != entries.len() {
            lemma_entries_map_at(entries, j);
        }
    }
    assert forall|k: Seq<char>| #[trigger] entries_map(entries).insert(
        e.0@,
        e.1,
    ).contains_key(k) implies entries_map(n).contains_key(k) by {
        if k == e.0@ {
            lemma_entries_map_at(n, entries.len() as int);
        } else {
            let j = choose|j: int| 0 <= j < entries.len() && entries[j].0@ == k;
            lemma_entries_map_at(n, j);
        }
    }
    assert(entries_map(n) =~= entries_map(entries).insert(e.0@, e.1));
}

proof fn lemma_entries_map_remove(entries: Seq<(String, u128)>, i: int)
    requires
        unique_names(entries),
        0 <= i < entries.len(),
    ensures
        unique_names(entries.remove(i)),
        entries_map(entries.remove(i)) == entries_map(entries).remove(entries[i].0@),
{
    let n = entries.remove(i);
    let name = entries[i].0@;
    assert(unique_names(n)) by {
        assert forall|a: int, b: int|
            0 <= a < n.len() && 0 <= b < n.len() && a != b implies n[a].0@ != n[b].0@ by {
            let a2 = if a < i {
                a
            } else {
                a + 1
            };
            let b2 = if b < i {
                b
            } else {
                b + 1
            };
            assert(n[a] == entries[a2] && n[b] == entries[b2]);
        }
    }
    assert forall|k: Seq<char>| #[trigger] entries_map(n).contains_key(k) implies entries_map(
        entries,
    ).remove(name).contains_key(k) && entries_map(n)[k] == entries_map(entries).remove(name)[k] by {
        let j = choose|j: int| 0 <= j < n.len() && n[j].0@ == k;
        lemma_entries_map_at(n, j);
        let j2 = if j < i {
            j
        } else {
            j + 1
        };
        assert(n[j] == entries[j2]);
        lemma_entries_map_at(entries, j2);
    }
    assert forall|k: Seq<char>| #[trigger] entries_map(entries).remove(name).contains_key(
        k,
    ) implies entries_map(n).contains_key(k) by {
        let j = choose|j: int| 0 <= j < entries.len() && entries[j].0@ == k;
        assert(j != i);
        let j2 = if j < i {
            j
        } else {
            j - 1
        };
        assert(n[j2] == entries[j]);
        lemma_entries_map_at(n, j2);
    }
    assert(entries_map(n) =~= entries_map(entries).remove(name));
}

/// Where `name` stands in `entries`, if it does.
fn find_name(entries: &Vec<(String, u128)>, name: &String) -> (r: Option<usize>)
    requires
        unique_names(entries@),
    ensures
        match r {
            Some(i) => i < entries@.len() && entries@[i as int].0@ == name@,
            None => !entries_map(entries@).contains_key(name@),
        },
{
    let mut i: usize = 0;
    while i < entries.len()
        invariant
            i <= entries@.len(),
            forall|j: int| 0 <= j < i ==> #[trigger] entries@[j].0@ != name@,
        decreases entries@.len() - i,
    {
        if entries[i].0 == *name {
            return Some(i);
        }
        i += 1;
    }
    None
}

/// Sets the value of `name` in `entries`, adding it if it is not there.
fn put_entry(entries: &mut Vec<(String, u128)>, name: String, value: u128)
    requires
        unique_names(old(entries)@),
    ensures
        unique_names(final(entries)@),
        entries_map(final(entries)@) == entries_map(old(entries)@).insert(name@, value),
{
    match find_name(entries, &name) {
        Some(i) => {
            proof {
                lemma_entries_map_update(entries@, i as int, (name, value));
            }
            entries.set(i, (name, value));
        },
        None => {
            proof {
                lemma_entries_map_push(entries@, (name, value));
            }
            entries.push((name, value));
        },
    }
}


fn digit(d: u128) -> (r: char)
    requires
        d < 10,
    ensures
        r == digit_char(d as nat),
{
    if d == 0 {
        '0'
    } else if d == 1 {
        '1'
    } else if d == 2 {
        '2'
    } else if d == 3 {
        '3'
    } else if d == 4 {
        '4'
    } else if d == 5 {
        '5'
    } else if d == 6 {
        '6'
    } else if d == 7 {
        '7'
    } else if d == 8 {
        '8'
    } else {
        '9'
    }
}

/// Appends `n` in decimal.
fn push_decimal(s: &mut String, n: u128)
    ensures
        final(s)@ == old(s)@ + decimal(n as nat),
    decreases n,
{
    if n >= 10 {
        push_decimal(s, n / 10);
    }
    push_char(s, digit(n % 10));
    assert(s@ =~= old(s)@ + decimal(n as nat));
}

/// Appends the last `width` digits of `n`, with leading zeros.
fn push_padded(s: &mut String, n: u128, width: u64)
    ensures
        final(s)@ == old(s)@ + padded(n as nat, width as nat),
    decreases width,
{
    if width > 0 {
        push_padded(s, n / 10, width - 1);
        push_char(s, digit(n % 10));
        assert(s@ =~= old(s)@ + padded(n as nat, width as nat));
    } else {
        assert(s@ =~= old(s)@ + padded(n as nat, width as nat));
    }
}

proof fn lemma_ranking(out: Seq<(Seq<char>, u128)>, entries: Seq<(String, u128)>)
    requires
        unique_names(entries),
        out.to_multiset() == rows_view(entries).to_multiset(),
        sorted_longest_first(out),
    ensures
        is_ranking(out, entries_map(entries)),
{
    broadcast use vstd::seq_lib::group_to_multiset_ensures;

    let ev = rows_view(entries);
    let m = entries_map(entries);
    assert forall|i: int| 0 <= i < out.len() implies m.contains_key(#[trigger] out[i].0)
        && m[out[i].0] == out[i].1 by {
        assert(out.contains(out[i]));
        assert(out.to_multiset().count(out[i]) > 0);
        assert(ev.to_multiset().count(out[i]) > 0);
        assert(ev.contains(out[i]));
        let a = choose|a: int| 0 <= a < ev.len() && ev[a] == out[i];
        lemma_entries_map_at(entries, a);
    }
    assert forall|k: Seq<char>| m.contains_key(k) implies exists|i: int|
        0 <= i < out.len() && #[trigger] out[i].0 == k by {
        let a = choose|a: int| 0 <= a < entries.len() && entries[a].0@ == k;
        assert(ev.contains(ev[a]));
        assert(ev.to_multiset().count(ev[a]) > 0);
        assert(out.to_multiset().count(ev[a]) > 0);
        assert(out.contains(ev[a]));
        let i = choose|i: int| 0 <= i < out.len() && out[i] == ev[a];
        assert(0 <= i < out.len() && out[i].0 == k);
    }
    assert(ev.no_duplicates()) by {
        assert forall|i: int, j: int|
            0 <= i < ev.len() && 0 <= j < ev.len() && i != j implies ev[i] != ev[j] by {
            assert(entries[i].0@ != entries[j].0@);
        }
    }
    ev.lemma_multiset_has_no_duplicates();
    out.lemma_multiset_has_no_duplicates_conv();
    assert forall|i: int, j: int|
        0 <= i < out.len() && 0 <= j < out.len() && i != j implies #[trigger] out[i].0
        != #[trigger] out[j].0 by {
        if out[i].0 == out[j].0 {
            assert(out.contains(out[i]) && out.contains(out[j]));
            assert(out.to_multiset().count(out[i]) > 0);
            assert(out.to_multiset().count(out[j]) > 0);
            assert(ev.to_multiset().count(out[i]) > 0);
            assert(ev.to_multiset().count(out[j]) > 0);
            assert(ev.contains(out[i]) && ev.contains(out[j]));
            let a = choose|a: int| 0 <= a < ev.len() && ev[a] == out[i];
            let b = choose|b: int| 0 <= b < ev.len() && ev[b] == out[j];
            assert(entries[a].0@ == entries[b].0@);
            assert(a == b);
            assert(out[i] == out[j]);
        }
    }
}

/// The entries of `entries`, longest first.
fn ranked(entries: &Vec<(String, u128)>) -> (r: Vec<(String, u128)>)
    requires
        unique_names(entries@),
    ensures
        is_ranking(rows_view(r@), entries_map(entries@)),
{
    broadcast use vstd::seq_lib::group_to_multiset_ensures;

    let mut work: Vec<(String, u128)> = Vec::with_capacity(entries.len());
    let mut i: usize = 0;
    while i < entries.len()
        invariant
            i <= entries@.len(),
            work@.len() == i,
            forall|k: int|
                0 <= k < i ==> #[trigger] work@[k].0@ == entries@[k].0@ && work@[k].1
                    == entries@[k].1,
        decreases entries@.len() - i,
    {
        let name = entries[i].0.clone();
        work.push((name, entries[i].1));
        i += 1;
    }
    assert(rows_view(work@) =~= rows_view(entries@));
    let mut out: Vec<(String, u128)> = Vec::with_capacity(entries.len());
    assert(rows_view(out@).to_multiset() =~= Multiset::empty());
    while work.len() > 0
        invariant
            rows_view(work@).to_multiset().add(rows_view(out@).to_multiset()) == rows_view(
                entries@,
            ).to_multiset(),
            sorted_longest_first(rows_view(out@)),
            forall|a: int, b: int|
                0 <= a < out@.len() && 0 <= b < work@.len() ==> #[trigger] out@[a].1
                    >= #[trigger] work@[b].1,
        decreases work@.len(),
    {
        let mut m: usize = 0;
        let mut j: usize = 1;
        while j < work.len()
            invariant
                0 <= m < j <= work@.len(),
                forall|b: int| 0 <= b < j ==> work@[m as int].1 >= #[trigger] work@[b].1,
            decreases work@.len() - j,
        {
            if work[j].1 > work[m].1 {
                m = j;
            }
            j += 1;
        }
        let ghost w0 = work@;
        let ghost o0 = out@;
        let e = work.remove(m);
        assert(rows_view(work@) =~= rows_view(w0).remove(m as int));
        out.push(e);
        assert(rows_view(out@) =~= rows_view(o0).push((e.0@, e.1)));
        assert(rows_view(w0)[m as int] == (e.0@, e.1));
        let ghost x = (e.0@, e.1);
        proof {
            rows_view(w0).to_multiset_ensures();
            rows_view(o0).to_multiset_ensures();
        }
        assert(rows_view(w0).remove(m as int).to_multiset() =~= rows_view(w0).to_multiset().remove(
            x,
        ));
        assert(rows_view(o0).push(x).to_multiset() =~= rows_view(o0).to_multiset().insert(x));
        assert(rows_view(w0).contains(x));
        assert(rows_view(w0).to_multiset().count(x) > 0);
        assert(rows_view(work@).to_multiset().add(rows_view(out@).to_multiset())
            =~= rows_view(w0).to_multiset().add(rows_view(o0).to_multiset()));
        assert forall|a: int, b: int|
            0 <= a < out@.len() && 0 <= b < work@.len() implies #[trigger] out@[a].1
            >= #[trigger] work@[b].1 by {
            let b2 = if b < m {
                b
            } else {
                b + 1
            };
            assert(work@[b] == w0[b2]);
        }
    }
    assert(rows_view(work@).to_multiset() =~= Multiset::empty());
    assert(rows_view(out@).to_multiset() =~= rows_view(entries@).to_multiset());
    proof {
        lemma_ranking(rows_view(out@), entries@);
    }
    out
}

impl CumulativeTimer {
    /// The totals as a text, one line per section, longest first; sections
    /// with equal totals come in no promised order.
    pub fn report(&self) -> (r: String)
        requires
            self.wf(),
        ensures
            exists|rows: Seq<(Seq<char>, u128)>|
                is_ranking(rows, self@.totals) && r@ == #[trigger] report_text(rows),
    {
        let rows = ranked(&self.totals);
        let ghost rv = rows_view(rows@);
        let mut s: String = "Cumulative timing report:\n".to_owned();
        let mut i: usize = 0;
        while i < rows.len()
            invariant
                i <= rows@.len(),
                rv == rows_view(rows@),
                s@ == "Cumulative timing report:\n"@ + report_lines(rv.subrange(0, i as int)),
            decreases rows@.len() - i,
        {
            let nanos: u128 = rows[i].1;
            let us: u128 = nanos / 1000 + if nanos % 1000 >= 500 {
                1
            } else {
                0
            };
            let ghost before = s@;
            s.append(rows[i].0.as_str());
            s.append(": ");
            push_decimal(&mut s, us / 1_000_000);
            s.append(".");
            push_padded(&mut s, us % 1_000_000, 6);
            s.append(" seconds\n");
            proof {
                let sub = rv.subrange(0, i + 1);
                assert(sub.drop_last() =~= rv.subrange(0, i as int));
                assert(sub.last() == (rows@[i as int].0@, nanos));
                assert(s@ =~= before + report_line(rows@[i as int].0@, nanos));
            }
            i += 1;
        }
        assert(rv.subrange(0, rows@.len() as int) =~= rv);
        assert(is_ranking(rv, self@.totals) && s@ == report_text(rv));
        s
    }
}

impl View for CumulativeTimer {
    type V = TimerState;

    closed spec fn view(&self) -> TimerState {
        TimerState {
            enabled: self.enabled,
            totals: entries_map(self.totals@),
            running: entries_map(self.starts@),
        }
    }
}

impl CumulativeTimer {
    /// The timer's own consistency: each section is listed once.
    pub closed spec fn wf(&self) -> bool {
        unique_names(self.totals@) && unique_names(self.starts@)
    }

    /// A timer with no totals and no running sections, recording.
    pub fn new() -> (r: Self)
        ensures
            r.wf(),
            r@.enabled,
            r@.totals == Map::<Seq<char>, u128>::empty(),
            r@.running == Map::<Seq<char>, u128>::empty(),
    {
        let r = CumulativeTimer {
            origin: clock_origin(),
            enabled: true,
            totals: Vec::new(),
            starts: Vec::new(),
        };
        assert(entries_map(r.totals@) =~= Map::<Seq<char>, u128>::empty());
        assert(entries_map(r.starts@) =~= Map::<Seq<char>, u128>::empty());
        r
    }

    /// Turns recording on or off; nothing else changes.
    pub fn set_enabled(&mut self, on: bool)
        requires
            old(self).wf(),
        ensures
            final(self).wf(),
            final(self)@.enabled == on,
            final(self)@.totals == old(self)@.totals,
            final(self)@.running == old(self)@.running,
    {
        self.enabled = on;
    }

    /// Whether `start` and `stop` record anything.
    pub fn is_enabled(&self) -> (r: bool)
        ensures
            r == self@.enabled,
    {
        self.enabled
    }

    /// The clock reading of this timer: nanoseconds since it was made.
    pub fn now(&self) -> u128 {
        nanos_since(&self.origin)
    }

    /// Records that `section_name` started at clock reading `now`, replacing
    /// an unfinished start of the same section. Does nothing when disabled.
    pub fn start_at(&mut self, section_name: &str, now: u128)
        requires
            old(self).wf(),
        ensures
            final(self).wf(),
            final(self)@.enabled == old(self)@.enabled,
            final(self)@.totals == old(self)@.totals,
            final(self)@.running == if old(self)@.enabled {
                old(self)@.running.insert(section_name@, now)
            } else {
                old(self)@.running
            },
    {
        if self.enabled {
            put_entry(&mut self.starts, section_name.to_owned(), now);
        }
    }

    /// Records that `section_name` starts now.
    pub fn start(&mut self, section_name: &str)
        requires
            old(self).wf(),
        ensures
            final(self).wf(),
            final(self)@.enabled == old(self)@.enabled,
            final(self)@.totals == old(self)@.totals,
            old(self)@.enabled ==> exists|now: u128|
                final(self)@.running == #[trigger] old(self)@.running.insert(section_name@, now),
            !old(self)@.enabled ==> final(self)@.running == old(self)@.running,
    {
        let ghost before = self@;
        let now = self.now();
        self.start_at(section_name, now);
        assert(before.enabled ==> self@.running == before.running.insert(section_name@, now));
    }

    /// Whether `section_name` has been started and not yet stopped.
    pub fn is_running(&self, section_name: &str) -> (r: bool)
        requires
            self.wf(),
        ensures
            r == self@.running.contains_key(section_name@),
    {
        let name = section_name.to_owned();
        match find_name(&self.starts, &name) {
            Some(i) => {
                proof {
                    lemma_entries_map_at(self.starts@, i as int);
                }
                true
            },
            None => false,
        }
    }

    /// The cumulative nanoseconds of `section_name`, if it was ever stopped.
    pub fn total_nanos(&self, section_name: &str) -> (r: Option<u128>)
        requires
            self.wf(),
        ensures
            r == if self@.totals.contains_key(section_name@) {
                Some(self@.totals[section_name@])
            } else {
                None::<u128>
            },
    {
        let name = section_name.to_owned();
        match find_name(&self.totals, &name) {
            Some(i) => {
                proof {
                    lemma_entries_map_at(self.totals@, i as int);
                }
                Some(self.totals[i].1)
            },
            None => None,
        }
    }

    /// Ends the running section `section_name` at clock reading `now` and
    /// adds the time since its start to its total. Stopping a section that
    /// is not running is a fault of the caller. Does nothing when disabled.
    pub fn stop_at(&mut self, section_name: &str, now: u128)
        requires
            old(self).wf(),
            old(self)@.enabled ==> old(self)@.running.contains_key(section_name@),
        ensures
            final(self).wf(),
            final(self)@.enabled == old(self)@.enabled,
            old(self)@.enabled ==> final(self)@.running == old(self)@.running.remove(
                section_name@,
            ),
            old(self)@.enabled ==> final(self)@.totals == old(self)@.totals.insert(
                section_name@,
                accumulated(
                    old(self)@.totals,
                    section_name@,
                    elapsed_between(old(self)@.running[section_name@], now),
                ),
            ),
            !old(self)@.enabled ==> final(self)@ == old(self)@,
    {
        if !self.enabled {
            return;
        }
        let name = section_name.to_owned();
        let i = match find_name(&self.starts, &name) {
            Some(i) => i,
            None => {
                return;
            },
        };
        proof {
            lemma_entries_map_at(self.starts@, i as int);
            lemma_entries_map_remove(self.starts@, i as int);
        }
        let (_, started) = self.starts.remove(i);
        let elapsed: u128 = if now >= started {
            now - started
        } else {
            0
        };
        let before: u128 = match self.total_nanos(section_name) {
            Some(t) => t,
            None => 0,
        };
        let total: u128 = before.saturating_add(elapsed);
        put_entry(&mut self.totals, name, total);
    }

    /// Ends the running section `section_name` now and adds its time to its
    /// total.
    pub fn stop(&mut self, section_name: &str)
        requires
            old(self).wf(),
            old(self)@.enabled ==> old(self)@.running.contains_key(section_name@),
        ensures
            final(self).wf(),
            final(self)@.enabled == old(self)@.enabled,
            old(self)@.enabled ==> final(self)@.running == old(self)@.running.remove(
                section_name@,
            ),
            old(self)@.enabled ==> exists|elapsed: u128|
                final(self)@.totals == old(self)@.totals.insert(
                    section_name@,
                    accumulated(old(self)@.totals, section_name@, elapsed),
                ),
            !old(self)@.enabled ==> final(self)@ == old(self)@,
    {
        let ghost before = self@;
        let now = self.now();
        self.stop_at(section_name, now);
        proof {
            if before.enabled {
                let elapsed = elapsed_between(before.running[section_name@], now);
                assert(self@.totals == before.totals.insert(
                    section_name@,
                    accumulated(before.totals, section_name@, elapsed),
                ));
            }
        }
    }

    /// Clears every total; running sections keep their starts.
    pub fn reset(&mut self)
        requires
            old(self).wf(),
        ensures
            final(self).wf(),
            final(self)@.enabled == old(self)@.enabled,
            final(self)@.totals == Map::<Seq<char>, u128>::empty(),
            final(self)@.running == old(self)@.running,
    {
        self.totals = Vec::new();
        assert(entries_map(self.totals@) =~= Map::<Seq<char>, u128>::empty());
    }
}

/// The report of `timer`: its totals, longest first.
pub fn get_timing_report(timer: &CumulativeTimer) -> (r: String)
    requires
        timer.wf(),
    ensures
        exists|rows: Seq<(Seq<char>, u128)>|
            is_ranking(rows, timer@.totals) && r@ == #[trigger] report_text(rows),
{
    timer.report()
}

/// Clears the totals of `timer`.
pub fn reset_timers(timer: &mut CumulativeTimer)
    requires
        old(timer).wf(),
    ensures
        final(timer).wf(),
        final(timer)@.enabled == old(timer)@.enabled,
        final(timer)@.totals == Map::<Seq<char>, u128>::empty(),
        final(timer)@.running == old(timer)@.running,
{
    timer.reset();
}

} // verus!
