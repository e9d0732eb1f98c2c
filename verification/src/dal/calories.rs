//! The calorie log: any number of entries for a day, each with an
//! identifier of its own, the most recent moment first.

use crate::calendar::Date;
use crate::calendar::Timestamp;
use crate::sequences::lemma_filter_implied;
use crate::sequences::lemma_filter_keeps_all;
use crate::sequences::lemma_filter_members;
use crate::sequences::lemma_filter_keeps_none;
use crate::sequences::lemma_filter_split;
use crate::Db;
use vstd::prelude::*;

verus! {

/// Calories eaten at a moment.
#[derive(Clone, Copy, Debug, PartialEq, Eq, Structural)]
pub struct CalorieEntry {
    pub id: u32,
    /// Kilocalories.
    pub amount: i32,
    pub created_at: Timestamp,
}

/// No entry is of a later moment than one before it.
pub open spec fn newest_first(s: Seq<CalorieEntry>) -> bool {
    forall|i: int, j: int| 0 <= i < j < s.len() ==> s[j].created_at.at_or_before(s[i].created_at)
}

/// No identifier occurs twice.
pub open spec fn distinct_ids(s: Seq<CalorieEntry>) -> bool {
    forall|i: int, j: int| 0 <= i < j < s.len() ==> s[i].id != s[j].id
}

/// No amount is negative.
pub open spec fn non_negative(s: Seq<CalorieEntry>) -> bool {
    forall|i: int| 0 <= i < s.len() ==> (#[trigger] s[i]).amount >= 0
}

/// The test that an entry's day lies in the closed interval of day numbers
/// from `from` to `to`.
pub open spec fn in_window(from: int, to: int) -> spec_fn(CalorieEntry) -> bool {
    |e: CalorieEntry| e.created_at.date.within(from, to)
}

/// The entries of `s` whose day lies in the closed interval from `from` to
/// `to`, in the order of `s`.
pub open spec fn window(s: Seq<CalorieEntry>, from: int, to: int) -> Seq<CalorieEntry> {
    s.filter(in_window(from, to))
}

/// The amounts of `s` added up.
pub open spec fn total(s: Seq<CalorieEntry>) -> int
    decreases s.len(),
{
    if s.len() == 0 {
        0
    } else {
        total(s.drop_last()) + s.last().amount
    }
}

/// The calories of the days from `from` to `to`, added up.
pub open spec fn window_total(s: Seq<CalorieEntry>, from: int, to: int) -> int {
    total(window(s, from, to))
}

/// Every entry of a window comes from the log and lies in the window, and
/// every entry of the log that lies in the window is in it.
pub proof fn lemma_window_members(s: Seq<CalorieEntry>, from: int, to: int, e: CalorieEntry)
    ensures
        window(s, from, to).contains(e) <==> s.contains(e) && e.created_at.date.within(from, to),
{
    lemma_filter_members(s, in_window(from, to), e);
}

/// An entry of a day outside a window, put anywhere into a sequence, leaves
/// the window as it was.
pub proof fn lemma_window_ignores_outsider(
    s: Seq<CalorieEntry>,
    from: int,
    to: int,
    at: int,
    e: CalorieEntry,
)
    requires
        0 <= at <= s.len(),
        !e.created_at.date.within(from, to),
    ensures
        window(s.insert(at, e), from, to) == window(s, from, to),
{
    let p = in_window(from, to);
    assert(s.insert(at, e) =~= s.take(at) + seq![e] + s.skip(at));
    Seq::filter_distributes_over_add(s.take(at) + seq![e], s.skip(at), p);
    Seq::filter_distributes_over_add(s.take(at), seq![e], p);
    lemma_filter_keeps_none(seq![e], p);
    lemma_filter_split(s, p, at);
    assert(s.take(at).filter(p) + Seq::<CalorieEntry>::empty() =~= s.take(at).filter(p));
}

/// Whatever is left of a log when entries are taken out is still in order,
/// its identifiers are still distinct and its amounts still not negative.
pub proof fn lemma_filter_keeps_order(s: Seq<CalorieEntry>, p: spec_fn(CalorieEntry) -> bool)
    ensures
        newest_first(s) ==> newest_first(s.filter(p)),
        distinct_ids(s) ==> distinct_ids(s.filter(p)),
        non_negative(s) ==> non_negative(s.filter(p)),
    decreases s.len(),
{
    reveal(Seq::filter);
    if s.len() > 0 {
        let rest = s.drop_last();
        lemma_filter_keeps_order(rest, p);
        let kept = rest.filter(p);
        assert forall|i: int| 0 <= i < kept.len() implies exists|k: int|
            0 <= k < rest.len() && rest[k] == #[trigger] kept[i] by {
            assert(kept.contains(kept[i]));
            rest.lemma_filter_contains_rev(p, kept[i]);
        }
        if newest_first(s) {
            assert forall|i: int, j: int| 0 <= i < j < rest.len() implies rest[j].created_at.at_or_before(
                rest[i].created_at,
            ) by {
                assert(s[j].created_at.at_or_before(s[i].created_at));
            }
            if p(s.last()) {
                assert forall|i: int| 0 <= i < kept.len() implies s.last().created_at.at_or_before(
                    (#[trigger] kept[i]).created_at,
                ) by {
                    let k = choose|k: int| 0 <= k < rest.len() && rest[k] == kept[i];
                    assert(s[s.len() - 1].created_at.at_or_before(s[k].created_at));
                }
            }
        }
        if distinct_ids(s) {
            assert forall|i: int, j: int| 0 <= i < j < rest.len() implies rest[i].id
                != rest[j].id by {
                assert(s[i].id != s[j].id);
            }
            if p(s.last()) {
                assert forall|i: int| 0 <= i < kept.len() implies (#[trigger] kept[i]).id
                    != s.last().id by {
                    let k = choose|k: int| 0 <= k < rest.len() && rest[k] == kept[i];
                    assert(s[k].id != s[s.len() - 1].id);
                }
            }
        }
        if non_negative(s) {
            assert forall|i: int| 0 <= i < rest.len() implies (#[trigger] rest[i]).amount >= 0 by {
                assert(s[i].amount >= 0);
            }
            assert(s[s.len() - 1].amount >= 0);
        }
    }
}

/// Entries with distinct identifiers are no more than there are identifiers.
pub proof fn lemma_distinct_ids_bound(s: Seq<CalorieEntry>)
    requires
        distinct_ids(s),
    ensures
        s.len() <= 0x1_0000_0000,
{
    let ids = Seq::new(s.len(), |i: int| s[i].id as int);
    assert(ids.no_duplicates());
    ids.unique_seq_to_set();
    let every = vstd::set_lib::set_int_range(0, 0x1_0000_0000);
    vstd::set_lib::lemma_int_range(0, 0x1_0000_0000);
    assert forall|id: int| ids.to_set().contains(id) implies every.contains(id) by {
        let i = choose|i: int| 0 <= i < ids.len() && ids[i] == id;
        assert(id == s[i].id as int);
    }
    vstd::set_lib::lemma_len_subset(ids.to_set(), every);
}

/// The total of amounts that are not negative lies between zero and what the
/// greatest amount gives for every entry.
pub proof fn lemma_total_bounds(s: Seq<CalorieEntry>)
    ensures
        s.len() * i32::MIN <= total(s) <= s.len() * i32::MAX,
        non_negative(s) ==> 0 <= total(s),
    decreases s.len(),
{
    if s.len() > 0 {
        lemma_total_bounds(s.drop_last());
        if non_negative(s) {
            assert forall|i: int| 0 <= i < s.drop_last().len() implies (#[trigger] s.drop_last()[i]).amount
                >= 0 by {
                assert(s[i].amount >= 0);
            }
            assert(s[s.len() - 1].amount >= 0);
        }
        assert((s.len() - 1) * i32::MAX + i32::MAX == s.len() * i32::MAX) by (nonlinear_arith);
        assert((s.len() - 1) * i32::MIN + i32::MIN == s.len() * i32::MIN) by (nonlinear_arith);
    }
}

/// The greatest identifier in `s`, or zero where `s` is empty.
pub open spec fn largest_id(s: Seq<CalorieEntry>) -> int
    decreases s.len(),
{
    if s.len() == 0 {
        0
    } else if s.last().id > largest_id(s.drop_last()) {
        s.last().id as int
    } else {
        largest_id(s.drop_last())
    }
}

/// The test that an entry is of a later moment than `moment`.
pub open spec fn later_than(moment: Timestamp) -> spec_fn(CalorieEntry) -> bool {
    |e: CalorieEntry| !e.created_at.at_or_before(moment)
}

/// The test that an entry is of the moment `moment` or of an earlier one.
pub open spec fn not_later_than(moment: Timestamp) -> spec_fn(CalorieEntry) -> bool {
    |e: CalorieEntry| e.created_at.at_or_before(moment)
}

/// The test that an entry has another identifier than `id`.
pub open spec fn with_other_id(id: int) -> spec_fn(CalorieEntry) -> bool {
    |e: CalorieEntry| e.id != id
}

/// What `s` holds after an entry was added: the entries of later moments,
/// then the new one, then those of its own moment and of earlier ones.
pub open spec fn with_entry(s: Seq<CalorieEntry>, entry: CalorieEntry) -> Seq<CalorieEntry> {
    s.filter(later_than(entry.created_at)) + seq![entry] + s.filter(
        not_later_than(entry.created_at),
    )
}

/// What `s` holds after the entry with the identifier `id` was deleted.
pub open spec fn without_id(s: Seq<CalorieEntry>, id: int) -> Seq<CalorieEntry> {
    s.filter(with_other_id(id))
}

/// Whether `s` holds an entry with the identifier `id`.
pub open spec fn has_id(s: Seq<CalorieEntry>, id: int) -> bool {
    exists|i: int| 0 <= i < s.len() && (#[trigger] s[i]).id == id
}

/// No identifier in `s` is greater than `largest_id(s)`, which is itself an
/// identifier or zero.
pub proof fn lemma_largest_id(s: Seq<CalorieEntry>)
    ensures
        0 <= largest_id(s) <= u32::MAX,
        forall|i: int| 0 <= i < s.len() ==> (#[trigger] s[i]).id <= largest_id(s),
        largest_id(s) == 0 || has_id(s, largest_id(s)),
    decreases s.len(),
{
    if s.len() > 0 {
        let rest = s.drop_last();
        lemma_largest_id(rest);
        assert forall|i: int| 0 <= i < s.len() implies (#[trigger] s[i]).id <= largest_id(s) by {
            if i < s.len() - 1 {
                assert(rest[i].id <= largest_id(rest));
            }
        }
        if s.last().id > largest_id(rest) {
            assert(s[s.len() - 1].id == largest_id(s));
        } else if largest_id(rest) != 0 {
            let k = choose|k: int| 0 <= k < rest.len() && (#[trigger] rest[k]).id == largest_id(rest);
            assert(s[k].id == largest_id(s));
        }
    }
}

/// An entry that was added with the identifier after the greatest one holds
/// the greatest identifier of the log.
pub proof fn lemma_largest_id_after_add(s: Seq<CalorieEntry>, entry: CalorieEntry)
    requires
        entry.id == largest_id(s) + 1,
    ensures
        largest_id(with_entry(s, entry)) == entry.id,
{
    let after = with_entry(s, entry);
    let later = s.filter(later_than(entry.created_at));
    let rest = s.filter(not_later_than(entry.created_at));
    lemma_largest_id(s);
    lemma_largest_id(after);
    assert(after[later.len() as int] == entry);
    assert forall|i: int| 0 <= i < after.len() implies (#[trigger] after[i]).id <= entry.id by {
        if i < later.len() {
            assert(later.contains(later[i]));
            s.lemma_filter_contains_rev(later_than(entry.created_at), later[i]);
        } else if i > later.len() {
            let j = i - later.len() - 1;
            assert(rest.contains(rest[j]));
            s.lemma_filter_contains_rev(not_later_than(entry.created_at), rest[j]);
        }
    }
    if largest_id(after) != entry.id {
        let k = choose|k: int| 0 <= k < after.len() && (#[trigger] after[k]).id == largest_id(after);
        assert(after[k].id <= entry.id);
    }
}

/// In a log in order, an index `at` with only later moments before it and a
/// moment that is not later at it parts the log into the two sides of a new
/// entry of the moment `moment`.
proof fn lemma_parts_around(s: Seq<CalorieEntry>, moment: Timestamp, at: int)
    requires
        newest_first(s),
        0 <= at <= s.len(),
        forall|k: int| 0 <= k < at ==> !(#[trigger] s[k]).created_at.at_or_before(moment),
        at < s.len() ==> s[at].created_at.at_or_before(moment),
    ensures
        s.filter(later_than(moment)) == s.take(at),
        s.filter(not_later_than(moment)) == s.skip(at),
{
    let later = later_than(moment);
    let rest = not_later_than(moment);
    lemma_filter_split(s, later, at);
    lemma_filter_split(s, rest, at);
    assert forall|k: int| 0 <= k < s.take(at).len() implies later(#[trigger] s.take(at)[k])
        && !rest(s.take(at)[k]) by {
        assert(!s[k].created_at.at_or_before(moment));
    }
    assert forall|k: int| 0 <= k < s.skip(at).len() implies rest(#[trigger] s.skip(at)[k])
        && !later(s.skip(at)[k]) by {
        if k > 0 {
            assert(s[at + k].created_at.at_or_before(s[at].created_at));
        }
    }
    lemma_filter_keeps_all(s.take(at), later);
    lemma_filter_keeps_none(s.skip(at), later);
    lemma_filter_keeps_none(s.take(at), rest);
    lemma_filter_keeps_all(s.skip(at), rest);
    assert(s.take(at) + Seq::<CalorieEntry>::empty() =~= s.take(at));
    assert(Seq::<CalorieEntry>::empty() + s.skip(at) =~= s.skip(at));
}

/// Where identifiers are distinct, deleting the identifier at index `at`
/// leaves what lies before and after that index.
proof fn lemma_other_ids_around(s: Seq<CalorieEntry>, at: int)
    requires
        distinct_ids(s),
        0 <= at < s.len(),
    ensures
        without_id(s, s[at].id as int) == s.remove(at),
{
    let p = with_other_id(s[at].id as int);
    lemma_filter_split(s, p, at);
    lemma_filter_split(s.skip(at), p, 1);
    assert forall|k: int| 0 <= k < s.take(at).len() implies p(#[trigger] s.take(at)[k]) by {
        assert(s[k].id != s[at].id);
    }
    lemma_filter_keeps_all(s.take(at), p);
    let one = s.skip(at).take(1);
    let rest = s.skip(at).skip(1);
    assert forall|k: int| 0 <= k < one.len() implies !p(#[trigger] one[k]) by {
        assert(one[k] == s[at]);
    }
    lemma_filter_keeps_none(one, p);
    assert forall|k: int| 0 <= k < rest.len() implies p(#[trigger] rest[k]) by {
        assert(rest[k] == s[at + 1 + k]);
        assert(s[at].id != s[at + 1 + k].id);
    }
    lemma_filter_keeps_all(rest, p);
    assert(s.take(at) + (Seq::<CalorieEntry>::empty() + rest) =~= s.remove(at));
}

/// In a log in order, the index of the first entry that is not of a later
/// moment than `moment`; the length of the log where there is none.
pub proof fn lemma_split_point(s: Seq<CalorieEntry>, moment: Timestamp) -> (at: int)
    requires
        newest_first(s),
    ensures
        0 <= at <= s.len(),
        forall|k: int| 0 <= k < at ==> !(#[trigger] s[k]).created_at.at_or_before(moment),
        at < s.len() ==> s[at].created_at.at_or_before(moment),
    decreases s.len(),
{
    if s.len() == 0 || s[0].created_at.at_or_before(moment) {
        0
    } else {
        let rest = s.skip(1);
        assert forall|i: int, j: int| 0 <= i < j < rest.len() implies rest[j].created_at.at_or_before(
            rest[i].created_at,
        ) by {
            assert(s[j + 1].created_at.at_or_before(s[i + 1].created_at));
        }
        let at = lemma_split_point(rest, moment);
        assert forall|k: int| 0 <= k < at + 1 implies !(#[trigger] s[k]).created_at.at_or_before(
            moment,
        ) by {
            if k > 0 {
                assert(!rest[k - 1].created_at.at_or_before(moment));
            }
        }
        if at < rest.len() {
            assert(rest[at] == s[at + 1]);
        }
        at + 1
    }
}

/// Adding an entry to a log in order puts it at an index of the log and
/// moves nothing else.
pub proof fn lemma_with_entry_parts(s: Seq<CalorieEntry>, entry: CalorieEntry) -> (at: int)
    requires
        newest_first(s),
    ensures
        0 <= at <= s.len(),
        with_entry(s, entry) == s.insert(at, entry),
        newest_first(with_entry(s, entry)),
{
    let at = lemma_split_point(s, entry.created_at);
    lemma_parts_around(s, entry.created_at, at);
    let after = s.insert(at, entry);
    assert(after =~= s.take(at) + seq![entry] + s.skip(at));
    assert forall|a: int, b: int| 0 <= a < b < after.len() implies after[b].created_at.at_or_before(
        after[a].created_at,
    ) by {
        let x = if a < at {
            s[a]
        } else if a == at {
            entry
        } else {
            s[a - 1]
        };
        let y = if b < at {
            s[b]
        } else if b == at {
            entry
        } else {
            s[b - 1]
        };
        assert(after[a] == x && after[b] == y);
        if b > at && at < s.len() {
            assert(s[b - 1].created_at.at_or_before(s[at].created_at));
        }
    }
    at
}

/// The total of two sequences joined is the sum of their totals.
pub proof fn lemma_total_of_joined(a: Seq<CalorieEntry>, b: Seq<CalorieEntry>)
    ensures
        total(a + b) == total(a) + total(b),
    decreases b.len(),
{
    if b.len() == 0 {
        assert(a + b =~= a);
    } else {
        assert((a + b).drop_last() =~= a + b.drop_last());
        lemma_total_of_joined(a, b.drop_last());
    }
}

/// An entry put anywhere into a sequence adds its amount to the total of a
/// window that takes in its day, and nothing to the total of another.
pub proof fn lemma_window_total_after_insert(
    s: Seq<CalorieEntry>,
    from: int,
    to: int,
    at: int,
    e: CalorieEntry,
)
    requires
        0 <= at <= s.len(),
    ensures
        window_total(s.insert(at, e), from, to) == window_total(s, from, to) + if e.created_at.date.within(
            from,
            to,
        ) {
            e.amount as int
        } else {
            0
        },
{
    let p = in_window(from, to);
    if !p(e) {
        lemma_window_ignores_outsider(s, from, to, at, e);
    } else {
        assert(s.insert(at, e) =~= s.take(at) + seq![e] + s.skip(at));
        Seq::filter_distributes_over_add(s.take(at) + seq![e], s.skip(at), p);
        Seq::filter_distributes_over_add(s.take(at), seq![e], p);
        lemma_filter_keeps_all(seq![e], p);
        lemma_filter_split(s, p, at);
        lemma_total_of_joined(s.take(at).filter(p) + seq![e], s.skip(at).filter(p));
        lemma_total_of_joined(s.take(at).filter(p), seq![e]);
        lemma_total_of_joined(s.take(at).filter(p), s.skip(at).filter(p));
        assert(seq![e].drop_last() =~= Seq::<CalorieEntry>::empty());
        assert(total(seq![e]) == e.amount) by {
            assert(total(seq![e].drop_last()) == 0);
        }
    }
}

/// Adding an entry to a log in order adds its amount to the total of a
/// window that takes in its day, and leaves another window as it was.
pub proof fn lemma_with_entry_window(s: Seq<CalorieEntry>, entry: CalorieEntry, from: int, to: int)
    requires
        newest_first(s),
    ensures
        window_total(with_entry(s, entry), from, to) == window_total(s, from, to)
            + if entry.created_at.date.within(from, to) {
            entry.amount as int
        } else {
            0
        },
        !entry.created_at.date.within(from, to) ==> window(with_entry(s, entry), from, to)
            == window(s, from, to),
{
    let at = lemma_with_entry_parts(s, entry);
    lemma_window_total_after_insert(s, from, to, at, entry);
    if !entry.created_at.date.within(from, to) {
        lemma_window_ignores_outsider(s, from, to, at, entry);
    }
}

/// Deleting an identifier that no entry of a window has leaves the window as
/// it was.
pub proof fn lemma_without_id_outside_window(s: Seq<CalorieEntry>, id: int, from: int, to: int)
    requires
        forall|i: int|
            0 <= i < s.len() && (#[trigger] s[i]).id == id ==> !s[i].created_at.date.within(
                from,
                to,
            ),
    ensures
        window(without_id(s, id), from, to) == window(s, from, to),
{
    lemma_filter_implied(s, with_other_id(id), in_window(from, to));
}

/// The log of calories.
pub struct CalorieLog {
    entries: Vec<CalorieEntry>,
}

impl View for CalorieLog {
    type V = Seq<CalorieEntry>;

    closed spec fn view(&self) -> Seq<CalorieEntry> {
        self.entries@
    }
}

impl CalorieLog {
    /// The log is in order, its identifiers are distinct and no amount is
    /// negative.
    pub open spec fn wf(&self) -> bool {
        &&& newest_first(self@)
        &&& distinct_ids(self@)
        &&& non_negative(self@)
    }

    /// A log without entries.
    pub fn new() -> (log: CalorieLog)
        ensures
            log.wf(),
            log@ == Seq::<CalorieEntry>::empty(),
    {
        CalorieLog { entries: Vec::new() }
    }

    /// How many entries the log holds.
    pub fn len(&self) -> (n: usize)
        ensures
            n == self@.len(),
    {
        self.entries.len()
    }

    /// The entries whose day lies in the closed interval of day numbers from
    /// `from` to `to`, in the order of the log.
    pub fn between(&self, from: i64, to: i64) -> (found: Vec<CalorieEntry>)
        ensures
            found@ == window(self@, from as int, to as int),
    {
        let ghost p = in_window(from as int, to as int);
        let mut found: Vec<CalorieEntry> = Vec::new();
        let mut i: usize = 0;
        proof {
            reveal(Seq::filter);
            assert(self.entries@.take(0) =~= Seq::<CalorieEntry>::empty());
        }
        while i < self.entries.len()
            invariant
                i <= self.entries.len(),
                p == in_window(from as int, to as int),
                found@ == self.entries@.take(i as int).filter(p),
            decreases self.entries.len() - i,
        {
            let entry = self.entries[i];
            proof {
                self.entries@.take(i as int).lemma_filter_push(entry, p);
                assert(self.entries@.take(i as int).push(entry) =~= self.entries@.take(i + 1));
            }
            if entry.created_at.date.is_within(from, to) {
                found.push(entry);
            }
            i += 1;
        }
        proof {
            assert(self.entries@.take(i as int) =~= self.entries@);
        }
        found
    }

    /// The greatest identifier in the log, or zero where the log is empty.
    pub fn largest_id(&self) -> (id: u32)
        ensures
            id == largest_id(self@),
    {
        let mut id: u32 = 0;
        let mut i: usize = 0;
        proof {
            assert(self.entries@.take(0) =~= Seq::<CalorieEntry>::empty());
        }
        while i < self.entries.len()
            invariant
                i <= self.entries.len(),
                id == largest_id(self.entries@.take(i as int)),
            decreases self.entries.len() - i,
        {
            proof {
                assert(self.entries@.take(i + 1).drop_last() =~= self.entries@.take(i as int));
            }
            if self.entries[i].id > id {
                id = self.entries[i].id;
            }
            i += 1;
        }
        proof {
            assert(self.entries@.take(i as int) =~= self.entries@);
        }
        id
    }

    /// Whether the log holds an entry with the given identifier.
    pub fn has(&self, id: u32) -> (found: bool)
        ensures
            found == has_id(self@, id as int),
    {
        let mut i: usize = 0;
        while i < self.entries.len() && self.entries[i].id != id
            invariant
                i <= self.entries.len(),
                forall|k: int| 0 <= k < i ==> (#[trigger] self.entries@[k]).id != id,
            decreases self.entries.len() - i,
        {
            i += 1;
        }
        i < self.entries.len()
    }

    /// Every entry of the log, in its order.
    pub fn all(&self) -> (found: Vec<CalorieEntry>)
        ensures
            found@ == self@,
    {
        self.entries.clone()
    }

    /// Puts an entry with a new identifier where its moment belongs.
    fn place(&mut self, entry: CalorieEntry)
        requires
            old(self).wf(),
            entry.amount >= 0,
            !has_id(old(self)@, entry.id as int),
        ensures
            final(self).wf(),
            final(self)@ == with_entry(old(self)@, entry),
    {
        let ghost before = self.entries@;
        let mut i: usize = 0;
        while i < self.entries.len() && !self.entries[i].created_at.is_at_or_before(
            &entry.created_at,
        )
            invariant
                i <= self.entries.len(),
                self.entries@ == before,
                forall|k: int|
                    0 <= k < i ==> !(#[trigger] before[k]).created_at.at_or_before(
                        entry.created_at,
                    ),
            decreases self.entries.len() - i,
        {
            i += 1;
        }
        proof {
            lemma_parts_around(before, entry.created_at, i as int);
        }
        self.entries.insert(i, entry);
        proof {
            let after = self.entries@;
            assert(after =~= before.take(i as int) + seq![entry] + before.skip(i as int));
            assert forall|a: int, b: int| 0 <= a < b < after.len() implies after[b].created_at.at_or_before(
                after[a].created_at,
            ) && after[a].id != after[b].id by {
                let x = if a < i {
                    before[a]
                } else if a == i {
                    entry
                } else {
                    before[a - 1]
                };
                let y = if b < i {
                    before[b]
                } else if b == i {
                    entry
                } else {
                    before[b - 1]
                };
                assert(after[a] == x && after[b] == y);
                if b > i && i < before.len() {
                    assert(before[b - 1].created_at.at_or_before(before[i as int].created_at));
                }
            }
            assert forall|a: int| 0 <= a < after.len() implies (#[trigger] after[a]).amount >= 0 by {
                if a < i {
                    assert(before[a].amount >= 0);
                } else if a > i {
                    assert(before[a - 1].amount >= 0);
                }
            }
        }
    }

    /// Adds an entry and gives it the identifier after the greatest one in
    /// the log. Among entries of one moment the new one comes first.
    ///
    /// Nothing is added, and `None` returned, exactly where the amount is
    /// negative or no identifier is left after the greatest one.
    pub fn add(&mut self, amount: i32, created_at: Timestamp) -> (id: Option<u32>)
        requires
            old(self).wf(),
        ensures
            final(self).wf(),
            id is None <==> amount < 0 || largest_id(old(self)@) >= u32::MAX,
            id is None ==> final(self)@ == old(self)@,
            id matches Some(n) ==> n == largest_id(old(self)@) + 1 && final(self)@ == with_entry(
                old(self)@,
                CalorieEntry { id: n, amount, created_at },
            ),
    {
        let largest = self.largest_id();
        if amount < 0 || largest == u32::MAX {
            return None;
        }
        proof {
            lemma_largest_id(self@);
        }
        self.place(CalorieEntry { id: largest + 1, amount, created_at });
        Some(largest + 1)
    }

    /// Puts back an entry that has its identifier already. Among entries of
    /// one moment it comes first.
    ///
    /// Nothing is written, and `false` returned, exactly where the amount is
    /// negative or the log holds the identifier.
    pub fn restore(&mut self, entry: CalorieEntry) -> (done: bool)
        requires
            old(self).wf(),
        ensures
            final(self).wf(),
            done <==> entry.amount >= 0 && !has_id(old(self)@, entry.id as int),
            done ==> final(self)@ == with_entry(old(self)@, entry),
            !done ==> final(self)@ == old(self)@,
    {
        if entry.amount < 0 || self.has(entry.id) {
            return false;
        }
        self.place(entry);
        true
    }

    /// Deletes the entry with the given identifier. Tells whether there was
    /// one.
    pub fn remove(&mut self, id: u32) -> (found: bool)
        requires
            old(self).wf(),
        ensures
            final(self).wf(),
            final(self)@ == without_id(old(self)@, id as int),
            found == has_id(old(self)@, id as int),
    {
        let ghost before = self.entries@;
        proof {
            lemma_filter_keeps_order(before, with_other_id(id as int));
        }
        let mut i: usize = 0;
        while i < self.entries.len() && self.entries[i].id != id
            invariant
                i <= self.entries.len(),
                self.entries@ == before,
                forall|k: int| 0 <= k < i ==> (#[trigger] before[k]).id != id,
            decreases self.entries.len() - i,
        {
            i += 1;
        }
        if i < self.entries.len() {
            proof {
                lemma_other_ids_around(before, i as int);
            }
            self.entries.remove(i);
            true
        } else {
            proof {
                lemma_filter_keeps_all(before, with_other_id(id as int));
            }
            false
        }
    }
}

/// Adds up the amounts of the entries.
pub fn total_of(entries: &Vec<CalorieEntry>) -> (sum: i128)
    ensures
        sum == total(entries@),
{
    let mut sum: i128 = 0;
    let mut i: usize = 0;
    proof {
        assert(entries@.take(0) =~= Seq::<CalorieEntry>::empty());
    }
    while i < entries.len()
        invariant
            i <= entries.len(),
            sum == total(entries@.take(i as int)),
        decreases entries.len() - i,
    {
        proof {
            assert(entries@.take(i + 1).drop_last() =~= entries@.take(i as int));
            lemma_total_bounds(entries@.take(i as int));
            assert(i * i32::MAX <= usize::MAX * i32::MAX && usize::MAX * i32::MIN <= i * i32::MIN)
                by (nonlinear_arith)
                requires
                    0 <= i <= usize::MAX,
            ;
            assert(usize::MAX * i32::MAX <= 0x1_0000_0000_0000_0000 * 0x8000_0000)
                by (nonlinear_arith)
                requires
                    usize::MAX <= 0x1_0000_0000_0000_0000,
            ;
            assert(usize::MAX * i32::MIN >= 0x1_0000_0000_0000_0000 * -0x8000_0000)
                by (nonlinear_arith)
                requires
                    usize::MAX <= 0x1_0000_0000_0000_0000,
            ;
        }
        sum = sum + entries[i].amount as i128;
        i += 1;
    }
    proof {
        assert(entries@.take(i as int) =~= entries@);
    }
    sum
}

/// The entries of the days from `from` to `to`, both included, the most
/// recent first. Where `to` precedes `from` there are none.
pub fn get_by_date_range(db: &Db, from: Date, to: Date) -> (found: Vec<CalorieEntry>)
    requires
        db.wf(),
    ensures
        found@ == window(db.calories@, from@, to@),
        newest_first(found@),
        distinct_ids(found@),
        to@ < from@ ==> found@.len() == 0,
{
    proof {
        lemma_filter_keeps_order(db.calories@, in_window(from@, to@));
        if to@ < from@ {
            lemma_filter_keeps_none(db.calories@, in_window(from@, to@));
        }
    }
    db.calories.between(from.number as i64, to.number as i64)
}

} // verus!
