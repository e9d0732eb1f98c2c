//! The weight log: at most one observation for each calendar day, the most
//! recent day first.

use crate::calendar::Date;
use crate::estimator::Window;
use crate::estimator::WindowStats;
use crate::sequences::lemma_filter_implied;
use crate::sequences::lemma_filter_keeps_all;
use crate::sequences::lemma_filter_members;
use crate::sequences::lemma_filter_keeps_none;
use crate::sequences::lemma_filter_split;
use crate::Db;
use vstd::prelude::*;

verus! {

/// A body weight observed on a day.
#[derive(Clone, Copy, Debug, PartialEq, Eq, Structural)]
pub struct WeightEntry {
    /// Thousandths of a pound.
    pub amount: u32,
    pub created_at: Date,
}

/// Each observation is of an earlier day than the one before it. No day
/// then occurs twice.
pub open spec fn descending(s: Seq<WeightEntry>) -> bool {
    forall|i: int, j: int| 0 <= i < j < s.len() ==> s[i].created_at@ > s[j].created_at@
}

/// Every amount is positive.
pub open spec fn positive(s: Seq<WeightEntry>) -> bool {
    forall|i: int| 0 <= i < s.len() ==> (#[trigger] s[i]).amount > 0
}

/// The test that an observation's day lies in the closed interval of day
/// numbers from `from` to `to`.
pub open spec fn in_window(from: int, to: int) -> spec_fn(WeightEntry) -> bool {
    |e: WeightEntry| e.created_at.within(from, to)
}

/// The observations of `s` whose day lies in the closed interval from `from`
/// to `to`, in the order of `s`.
pub open spec fn window(s: Seq<WeightEntry>, from: int, to: int) -> Seq<WeightEntry> {
    s.filter(in_window(from, to))
}

/// The amounts of `s` added up.
pub open spec fn total(s: Seq<WeightEntry>) -> int
    decreases s.len(),
{
    if s.len() == 0 {
        0
    } else {
        total(s.drop_last()) + s.last().amount
    }
}

/// Total and count of the observations of `s` in the window from `from` to
/// `to`.
pub open spec fn window_stats(s: Seq<WeightEntry>, from: int, to: int) -> Window {
    Window { sum: total(window(s, from, to)), count: window(s, from, to).len() as int }
}

/// Every observation of a window comes from the log and lies in the window,
/// and every observation of the log that lies in the window is in it.
pub proof fn lemma_window_members(s: Seq<WeightEntry>, from: int, to: int, e: WeightEntry)
    ensures
        window(s, from, to).contains(e) <==> s.contains(e) && e.created_at.within(from, to),
{
    lemma_filter_members(s, in_window(from, to), e);
}

/// Taking a window keeps the order.
pub proof fn lemma_window_descending(s: Seq<WeightEntry>, from: int, to: int)
    requires
        descending(s),
    ensures
        descending(window(s, from, to)),
    decreases s.len(),
{
    let p = in_window(from, to);
    reveal(Seq::filter);
    if s.len() > 0 {
        let rest = s.drop_last();
        lemma_window_descending(rest, from, to);
        let kept = rest.filter(p);
        if p(s.last()) {
            assert forall|i: int| 0 <= i < kept.len() implies kept[i].created_at@
                > s.last().created_at@ by {
                assert(kept.contains(kept[i]));
                rest.lemma_filter_contains_rev(p, kept[i]);
                let k = choose|k: int| 0 <= k < rest.len() && rest[k] == kept[i];
                assert(s[k] == kept[i]);
            }
        }
    }
}

/// A run of observations on ever earlier days, all within an interval of
/// days, holds no more observations than the interval has days.
pub proof fn lemma_descending_length(s: Seq<WeightEntry>, from: int, to: int)
    requires
        descending(s),
        forall|i: int| 0 <= i < s.len() ==> (#[trigger] s[i]).created_at.within(from, to),
    ensures
        s.len() <= if from <= to {
            to - from + 1
        } else {
            0
        },
    decreases s.len(),
{
    if s.len() > 0 {
        let rest = s.drop_last();
        assert(s[0].created_at.within(from, to));
        if rest.len() > 0 {
            let floor = s.last().created_at@ + 1;
            assert forall|i: int| 0 <= i < rest.len() implies (#[trigger] rest[i]).created_at.within(
                floor,
                to,
            ) by {
                assert(s[i].created_at.within(from, to));
            }
            lemma_descending_length(rest, floor, to);
            assert(s.last().created_at.within(from, to));
        }
    }
}

/// A window of a log in order holds no more observations than it has days.
pub proof fn lemma_window_length(s: Seq<WeightEntry>, from: int, to: int)
    requires
        descending(s),
    ensures
        window(s, from, to).len() <= if from <= to {
            to - from + 1
        } else {
            0
        },
{
    let w = window(s, from, to);
    lemma_window_descending(s, from, to);
    assert forall|i: int| 0 <= i < w.len() implies (#[trigger] w[i]).created_at.within(
        from,
        to,
    ) by {
        s.lemma_filter_pred(in_window(from, to), i);
    }
    lemma_descending_length(w, from, to);
}

/// An observation of a day outside a window, put anywhere into a sequence,
/// leaves the window as it was.
pub proof fn lemma_window_ignores_outsider(
    s: Seq<WeightEntry>,
    from: int,
    to: int,
    at: int,
    e: WeightEntry,
)
    requires
        0 <= at <= s.len(),
        !e.created_at.within(from, to),
    ensures
        window(s.insert(at, e), from, to) == window(s, from, to),
{
    let p = in_window(from, to);
    assert(s.insert(at, e) =~= s.take(at) + seq![e] + s.skip(at));
    Seq::filter_distributes_over_add(s.take(at) + seq![e], s.skip(at), p);
    Seq::filter_distributes_over_add(s.take(at), seq![e], p);
    lemma_filter_keeps_none(seq![e], p);
    lemma_filter_split(s, p, at);
    assert(s.take(at).filter(p) + Seq::<WeightEntry>::empty() =~= s.take(at).filter(p));
}

/// The test that an observation is of a later day than day number `day`.
pub open spec fn on_later_day(day: int) -> spec_fn(WeightEntry) -> bool {
    |e: WeightEntry| e.created_at@ > day
}

/// The test that an observation is of an earlier day than day number `day`.
pub open spec fn on_earlier_day(day: int) -> spec_fn(WeightEntry) -> bool {
    |e: WeightEntry| e.created_at@ < day
}

/// The test that an observation is of another day than day number `day`.
pub open spec fn on_other_day(day: int) -> spec_fn(WeightEntry) -> bool {
    |e: WeightEntry| e.created_at@ != day
}

/// What `s` holds after an observation was written: the observations of later
/// days, then the new one, then those of earlier days. One that `s` held for
/// the same day is gone.
pub open spec fn with_entry(s: Seq<WeightEntry>, entry: WeightEntry) -> Seq<WeightEntry> {
    s.filter(on_later_day(entry.created_at@)) + seq![entry] + s.filter(
        on_earlier_day(entry.created_at@),
    )
}

/// What `s` holds after the observation of day number `day` was deleted.
pub open spec fn without_day(s: Seq<WeightEntry>, day: int) -> Seq<WeightEntry> {
    s.filter(on_other_day(day))
}

/// Whether `s` holds an observation of day number `day`.
pub open spec fn has_day(s: Seq<WeightEntry>, day: int) -> bool {
    exists|i: int| 0 <= i < s.len() && (#[trigger] s[i]).created_at@ == day
}

/// In a log in order, the observations of later days than `day` are those
/// before index `at`, where `at` is the first index of a day that is not
/// later.
proof fn lemma_later_is_prefix(s: Seq<WeightEntry>, day: int, at: int)
    requires
        descending(s),
        0 <= at <= s.len(),
        forall|k: int| 0 <= k < at ==> (#[trigger] s[k]).created_at@ > day,
        at < s.len() ==> s[at].created_at@ <= day,
    ensures
        s.filter(on_later_day(day)) == s.take(at),
{
    let p = on_later_day(day);
    lemma_filter_split(s, p, at);
    assert forall|k: int| 0 <= k < s.take(at).len() implies p(#[trigger] s.take(at)[k]) by {
        assert(s[k].created_at@ > day);
    }
    lemma_filter_keeps_all(s.take(at), p);
    assert forall|k: int| 0 <= k < s.skip(at).len() implies !p(#[trigger] s.skip(at)[k]) by {
        assert(s[at + k].created_at@ <= s[at].created_at@);
    }
    lemma_filter_keeps_none(s.skip(at), p);
    assert(s.take(at) + Seq::<WeightEntry>::empty() =~= s.take(at));
}

/// In a log in order, the observations of earlier days than `day` are those
/// from index `at` on, where `at` is the first index of an earlier day.
proof fn lemma_earlier_is_suffix(s: Seq<WeightEntry>, day: int, at: int)
    requires
        descending(s),
        0 <= at <= s.len(),
        forall|k: int| 0 <= k < at ==> (#[trigger] s[k]).created_at@ >= day,
        at < s.len() ==> s[at].created_at@ < day,
    ensures
        s.filter(on_earlier_day(day)) == s.skip(at),
{
    let p = on_earlier_day(day);
    lemma_filter_split(s, p, at);
    assert forall|k: int| 0 <= k < s.take(at).len() implies !p(#[trigger] s.take(at)[k]) by {
        assert(s[k].created_at@ >= day);
    }
    lemma_filter_keeps_none(s.take(at), p);
    assert forall|k: int| 0 <= k < s.skip(at).len() implies p(#[trigger] s.skip(at)[k]) by {
        assert(s[at + k].created_at@ <= s[at].created_at@);
    }
    lemma_filter_keeps_all(s.skip(at), p);
    assert(Seq::<WeightEntry>::empty() + s.skip(at) =~= s.skip(at));
}

/// In a log in order, deleting the day at index `at` leaves what lies before
/// and after that index.
proof fn lemma_other_days_around(s: Seq<WeightEntry>, at: int)
    requires
        descending(s),
        0 <= at < s.len(),
    ensures
        without_day(s, s[at].created_at@) == s.remove(at),
{
    let day = s[at].created_at@;
    let p = on_other_day(day);
    lemma_filter_split(s, p, at);
    lemma_filter_split(s.skip(at), p, 1);
    assert forall|k: int| 0 <= k < s.take(at).len() implies p(#[trigger] s.take(at)[k]) by {
        assert(s[k].created_at@ > day);
    }
    lemma_filter_keeps_all(s.take(at), p);
    let one = s.skip(at).take(1);
    let rest = s.skip(at).skip(1);
    assert forall|k: int| 0 <= k < one.len() implies !p(#[trigger] one[k]) by {
        assert(one[k] == s[at]);
    }
    lemma_filter_keeps_none(one, p);
    assert forall|k: int| 0 <= k < rest.len() implies p(#[trigger] rest[k]) by {
        assert(rest[k] == s[at + 1 + k]);
        assert(s[at + 1 + k].created_at@ < day);
    }
    lemma_filter_keeps_all(rest, p);
    assert(s.take(at) + (Seq::<WeightEntry>::empty() + rest) =~= s.remove(at));
}

/// A log in order that holds no observation of a day is left as it is when
/// that day is deleted.
proof fn lemma_absent_day(s: Seq<WeightEntry>, day: int)
    requires
        !has_day(s, day),
    ensures
        without_day(s, day) == s,
{
    lemma_filter_keeps_all(s, on_other_day(day));
}

/// In a log in order, the index of the first observation that is not of a
/// later day than `day`; the length of the log where there is none.
pub proof fn lemma_split_point(s: Seq<WeightEntry>, day: int) -> (at: int)
    requires
        descending(s),
    ensures
        0 <= at <= s.len(),
        forall|k: int| 0 <= k < at ==> (#[trigger] s[k]).created_at@ > day,
        at < s.len() ==> s[at].created_at@ <= day,
    decreases s.len(),
{
    if s.len() == 0 || s[0].created_at@ <= day {
        0
    } else {
        let rest = s.skip(1);
        assert forall|i: int, j: int| 0 <= i < j < rest.len() implies rest[i].created_at@
            > rest[j].created_at@ by {
            assert(s[i + 1].created_at@ > s[j + 1].created_at@);
        }
        let at = lemma_split_point(rest, day);
        assert forall|k: int| 0 <= k < at + 1 implies (#[trigger] s[k]).created_at@ > day by {
            if k > 0 {
                assert(rest[k - 1].created_at@ > day);
            }
        }
        if at < rest.len() {
            assert(rest[at] == s[at + 1]);
        }
        at + 1
    }
}

/// Writing an observation into a log in order leaves what lies before the
/// place of its day, then the observation, then what lies after that place.
/// The log is in order again.
pub proof fn lemma_with_entry_parts(s: Seq<WeightEntry>, entry: WeightEntry) -> (ends: (int, int))
    requires
        descending(s),
    ensures
        0 <= ends.0 <= ends.1 <= s.len(),
        ends.1 == ends.0 || (ends.1 == ends.0 + 1 && s[ends.0].created_at@ == entry.created_at@),
        ends.1 == ends.0 ==> !has_day(s, entry.created_at@),
        with_entry(s, entry) == s.take(ends.0) + seq![entry] + s.skip(ends.1),
        descending(with_entry(s, entry)),
{
    let day = entry.created_at@;
    let at = lemma_split_point(s, day);
    let next = if at < s.len() && s[at].created_at@ == day {
        at + 1
    } else {
        at
    };
    lemma_later_is_prefix(s, day, at);
    assert forall|k: int| 0 <= k < next implies (#[trigger] s[k]).created_at@ >= day by {}
    if next < s.len() {
        if next == at {
            assert(s[at].created_at@ < day);
        } else {
            assert(s[at].created_at@ > s[next].created_at@);
        }
    }
    lemma_earlier_is_suffix(s, day, next);
    let after = s.take(at) + seq![entry] + s.skip(next);
    assert forall|i: int, j: int| 0 <= i < j < after.len() implies after[i].created_at@
        > after[j].created_at@ by {
        if j > at {
            assert(after[j] == s[next + (j - at - 1)]);
            if next < s.len() {
                assert(s[next + (j - at - 1)].created_at@ <= s[next].created_at@);
            }
        }
        if i < at {
            assert(after[i] == s[i]);
        }
        if i > at {
            assert(after[i] == s[next + (i - at - 1)]);
        }
    }
    if next == at {
        assert forall|k: int| 0 <= k < s.len() implies (#[trigger] s[k]).created_at@ != day by {
            if k >= at {
                assert(s[k].created_at@ <= s[at].created_at@);
            }
        }
    }
    (at, next)
}

/// Writing an observation of a day outside a window into a log in order
/// leaves the window as it was.
pub proof fn lemma_with_entry_outside_window(
    s: Seq<WeightEntry>,
    entry: WeightEntry,
    from: int,
    to: int,
)
    requires
        descending(s),
        !entry.created_at.within(from, to),
    ensures
        window(with_entry(s, entry), from, to) == window(s, from, to),
{
    let p = in_window(from, to);
    let (at, next) = lemma_with_entry_parts(s, entry);
    let head = s.take(at);
    let tail = s.skip(next);
    Seq::filter_distributes_over_add(head + seq![entry], tail, p);
    Seq::filter_distributes_over_add(head, seq![entry], p);
    lemma_filter_keeps_none(seq![entry], p);
    assert(head.filter(p) + Seq::<WeightEntry>::empty() =~= head.filter(p));
    lemma_filter_split(s, p, at);
    if next == at + 1 {
        lemma_filter_split(s.skip(at), p, 1);
        let one = s.skip(at).take(1);
        assert forall|k: int| 0 <= k < one.len() implies !p(#[trigger] one[k]) by {
            assert(one[k] == s[at]);
        }
        lemma_filter_keeps_none(one, p);
        assert(s.skip(at).skip(1) =~= tail);
        assert(Seq::<WeightEntry>::empty() + tail.filter(p) =~= tail.filter(p));
    }
}

/// Deleting the observation of a day outside a window leaves the window as
/// it was.
pub proof fn lemma_without_day_outside_window(s: Seq<WeightEntry>, day: int, from: int, to: int)
    requires
        !(from <= day <= to),
    ensures
        window(without_day(s, day), from, to) == window(s, from, to),
{
    lemma_filter_implied(s, on_other_day(day), in_window(from, to));
}

/// After an observation was written, the log holds it and whatever it held
/// before for other days.
pub proof fn lemma_with_entry_members(s: Seq<WeightEntry>, entry: WeightEntry, e: WeightEntry)
    ensures
        with_entry(s, entry).contains(e) <==> e == entry || (s.contains(e) && e.created_at@
            != entry.created_at@),
{
    let day = entry.created_at@;
    let later = s.filter(on_later_day(day));
    let earlier = s.filter(on_earlier_day(day));
    let after = with_entry(s, entry);
    lemma_filter_members(s, on_later_day(day), e);
    lemma_filter_members(s, on_earlier_day(day), e);
    if after.contains(e) {
        let i = choose|i: int| 0 <= i < after.len() && after[i] == e;
        if i < later.len() {
            assert(later[i] == e);
        } else if i > later.len() {
            assert(earlier[i - later.len() - 1] == e);
        }
    }
    if e == entry {
        assert(after[later.len() as int] == e);
    }
    if later.contains(e) {
        let i = choose|i: int| 0 <= i < later.len() && later[i] == e;
        assert(after[i] == e);
    }
    if earlier.contains(e) {
        let i = choose|i: int| 0 <= i < earlier.len() && earlier[i] == e;
        assert(after[later.len() + 1 + i] == e);
    }
}

/// A run of observations on ever earlier days, all within an interval of
/// days and one for each of its days, holds as many observations as the
/// interval has days.
pub proof fn lemma_full_window(w: Seq<WeightEntry>, from: int, to: int)
    requires
        from <= to,
        descending(w),
        forall|i: int| 0 <= i < w.len() ==> (#[trigger] w[i]).created_at.within(from, to),
        forall|day: int| from <= day <= to ==> has_day(w, day),
    ensures
        w.len() == to - from + 1,
    decreases to - from,
{
    assert(has_day(w, from));
    let k = choose|k: int| 0 <= k < w.len() && (#[trigger] w[k]).created_at@ == from;
    if k < w.len() - 1 {
        assert(w[k].created_at@ > w[w.len() - 1].created_at@);
        assert(w[w.len() - 1].created_at.within(from, to));
    }
    let rest = w.drop_last();
    assert forall|i: int| 0 <= i < rest.len() implies (#[trigger] rest[i]).created_at.within(
        from + 1,
        to,
    ) by {
        assert(w[i].created_at.within(from, to));
        assert(w[i].created_at@ > w[k].created_at@);
    }
    if from == to {
        if rest.len() > 0 {
            assert(rest[0].created_at.within(from + 1, to));
        }
    } else {
        assert forall|day: int| from + 1 <= day <= to implies has_day(rest, day) by {
            assert(has_day(w, day));
            let j = choose|j: int| 0 <= j < w.len() && (#[trigger] w[j]).created_at@ == day;
            assert(rest[j].created_at@ == day);
        }
        lemma_full_window(rest, from + 1, to);
    }
}

/// Observations of one amount add up to that amount for each of them.
pub proof fn lemma_total_of_equals(w: Seq<WeightEntry>, amount: int)
    requires
        forall|i: int| 0 <= i < w.len() ==> (#[trigger] w[i]).amount == amount,
    ensures
        total(w) == w.len() * amount,
    decreases w.len(),
{
    if w.len() > 0 {
        let rest = w.drop_last();
        assert forall|i: int| 0 <= i < rest.len() implies (#[trigger] rest[i]).amount == amount by {
            assert(w[i].amount == amount);
        }
        lemma_total_of_equals(rest, amount);
        assert(w[w.len() - 1].amount == amount);
        assert((w.len() - 1) * amount + amount == w.len() * amount) by (nonlinear_arith);
    }
}

/// The log of body weights.
pub struct WeightLog {
    entries: Vec<WeightEntry>,
}

impl View for WeightLog {
    type V = Seq<WeightEntry>;

    closed spec fn view(&self) -> Seq<WeightEntry> {
        self.entries@
    }
}

impl WeightLog {
    /// The log is in order, the most recent day first and no day twice, and
    /// every amount is positive.
    pub open spec fn wf(&self) -> bool {
        descending(self@) && positive(self@)
    }

    /// A log without observations.
    pub fn new() -> (log: WeightLog)
        ensures
            log.wf(),
            log@ == Seq::<WeightEntry>::empty(),
    {
        WeightLog { entries: Vec::new() }
    }

    /// How many observations the log holds.
    pub fn len(&self) -> (n: usize)
        ensures
            n == self@.len(),
    {
        self.entries.len()
    }

    /// The observations whose day lies in the closed interval of day numbers
    /// from `from` to `to`, in the order of the log.
    pub fn between(&self, from: i64, to: i64) -> (found: Vec<WeightEntry>)
        ensures
            found@ == window(self@, from as int, to as int),
    {
        let ghost p = in_window(from as int, to as int);
        let mut found: Vec<WeightEntry> = Vec::new();
        let mut i: usize = 0;
        proof {
            reveal(Seq::filter);
            assert(self.entries@.take(0) =~= Seq::<WeightEntry>::empty());
        }
        while i < self.entries.len()
            invariant
                i <= self.entries.len(),
                p == in_window(from as int, to as int),
                found@ == self.entries@.take(i as int).filter(p),
            decreases self.entries.len() - i,
        {
            let entry = self.entries[i];
            proof {
                self.entries@.take(i as int).lemma_filter_push(entry, p);
                assert(self.entries@.take(i as int).push(entry) =~= self.entries@.take(i + 1));
            }
            if entry.created_at.is_within(from, to) {
                found.push(entry);
            }
            i += 1;
        }
        proof {
            assert(self.entries@.take(i as int) =~= self.entries@);
        }
        found
    }

    /// Every observation of the log, in its order.
    pub fn all(&self) -> (found: Vec<WeightEntry>)
        ensures
            found@ == self@,
    {
        self.entries.clone()
    }

    /// Writes an observation. It takes the place of the one the log held for
    /// the same day, if there was one.
    ///
    /// Nothing is written, and `false` returned, exactly where the amount is
    /// zero.
    pub fn put(&mut self, entry: WeightEntry) -> (done: bool)
        requires
            old(self).wf(),
        ensures
            final(self).wf(),
            done <==> entry.amount > 0,
            done ==> final(self)@ == with_entry(old(self)@, entry),
            !done ==> final(self)@ == old(self)@,
    {
        if entry.amount == 0 {
            return false;
        }
        let ghost before = self.entries@;
        let ghost day = entry.created_at@;
        let mut i: usize = 0;
        while i < self.entries.len() && self.entries[i].created_at.number > entry.created_at.number
            invariant
                i <= self.entries.len(),
                self.entries@ == before,
                forall|k: int| 0 <= k < i ==> (#[trigger] before[k]).created_at@ > entry.created_at@,
            decreases self.entries.len() - i,
        {
            i += 1;
        }
        proof {
            lemma_later_is_prefix(before, day, i as int);
        }
        if i < self.entries.len() && self.entries[i].created_at.number == entry.created_at.number {
            proof {
                lemma_earlier_is_suffix(before, day, i + 1);
            }
            self.entries.set(i, entry);
            assert(self.entries@ =~= before.take(i as int) + seq![entry] + before.skip(i + 1));
            assert forall|k: int| 0 <= k < self.entries@.len() implies (#[trigger] self.entries@[k]).amount
                > 0 by {
                if k != i {
                    assert(before[k].amount > 0);
                }
            }
        } else {
            proof {
                lemma_earlier_is_suffix(before, day, i as int);
            }
            self.entries.insert(i, entry);
            assert(self.entries@ =~= before.take(i as int) + seq![entry] + before.skip(i as int));
            assert forall|k: int| 0 <= k < self.entries@.len() implies (#[trigger] self.entries@[k]).amount
                > 0 by {
                if k < i {
                    assert(before[k].amount > 0);
                } else if k > i {
                    assert(before[k - 1].amount > 0);
                }
            }
        }
        true
    }

    /// Deletes the observation of a day. Tells whether there was one.
    pub fn remove(&mut self, date: Date) -> (found: bool)
        requires
            old(self).wf(),
        ensures
            final(self).wf(),
            final(self)@ == without_day(old(self)@, date@),
            found == has_day(old(self)@, date@),
    {
        let ghost before = self.entries@;
        let mut i: usize = 0;
        while i < self.entries.len() && self.entries[i].created_at.number > date.number
            invariant
                i <= self.entries.len(),
                self.entries@ == before,
                forall|k: int| 0 <= k < i ==> (#[trigger] before[k]).created_at@ > date@,
            decreases self.entries.len() - i,
        {
            i += 1;
        }
        if i < self.entries.len() && self.entries[i].created_at.number == date.number {
            proof {
                lemma_other_days_around(before, i as int);
            }
            self.entries.remove(i);
            proof {
                assert forall|k: int| 0 <= k < self.entries@.len() implies (#[trigger] self.entries@[k]).amount
                    > 0 by {
                    if k < i {
                        assert(before[k].amount > 0);
                    } else {
                        assert(before[k + 1].amount > 0);
                    }
                }
            }
            true
        } else {
            proof {
                assert forall|k: int| 0 <= k < before.len() implies (#[trigger] before[k]).created_at@
                    != date@ by {
                    if k >= i {
                        assert(before[k].created_at@ <= before[i as int].created_at@);
                    }
                }
                lemma_absent_day(before, date@);
            }
            false
        }
    }

    /// The first `limit` observations of the log, or all where it holds
    /// fewer.
    pub fn newest(&self, limit: usize) -> (found: Vec<WeightEntry>)
        ensures
            found@ == self@.take(
                if limit <= self@.len() {
                    limit as int
                } else {
                    self@.len() as int
                },
            ),
    {
        let mut found: Vec<WeightEntry> = Vec::new();
        let mut i: usize = 0;
        while i < self.entries.len() && i < limit
            invariant
                i <= self.entries.len(),
                i <= limit,
                found@ == self.entries@.take(i as int),
            decreases self.entries.len() - i,
        {
            found.push(self.entries[i]);
            assert(self.entries@.take(i as int).push(self.entries@[i as int]) =~= self.entries@.take(
                i + 1,
            ));
            i += 1;
        }
        found
    }
}

/// Adds up the amounts of at most `u32::MAX` observations.
pub fn stats_of(entries: &Vec<WeightEntry>) -> (stats: WindowStats)
    requires
        entries.len() <= u32::MAX,
    ensures
        stats@ == (Window { sum: total(entries@), count: entries@.len() as int }),
{
    let mut sum: u64 = 0;
    let mut i: usize = 0;
    proof {
        assert(entries@.take(0) =~= Seq::<WeightEntry>::empty());
    }
    while i < entries.len()
        invariant
            i <= entries.len() <= u32::MAX,
            sum == total(entries@.take(i as int)),
            sum <= i * u32::MAX,
        decreases entries.len() - i,
    {
        proof {
            assert(entries@.take(i + 1).drop_last() =~= entries@.take(i as int));
            assert(i * u32::MAX + u32::MAX <= u32::MAX * u32::MAX) by (nonlinear_arith)
                requires
                    i < u32::MAX,
            ;
        }
        sum = sum + entries[i].amount as u64;
        i += 1;
    }
    proof {
        assert(entries@.take(i as int) =~= entries@);
    }
    WindowStats { sum, count: i as u32 }
}

/// The observations of the days from `from` to `to`, both included, the most
/// recent first. Where `to` precedes `from` there are none.
pub fn get_by_date_range(db: &Db, from: Date, to: Date) -> (found: Vec<WeightEntry>)
    requires
        db.wf(),
    ensures
        found@ == window(db.weights@, from@, to@),
        descending(found@),
        to@ < from@ ==> found@.len() == 0,
{
    proof {
        lemma_window_descending(db.weights@, from@, to@);
        if to@ < from@ {
            lemma_filter_keeps_none(db.weights@, in_window(from@, to@));
        }
    }
    db.weights.between(from.number as i64, to.number as i64)
}

} // verus!
