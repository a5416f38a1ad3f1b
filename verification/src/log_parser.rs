//! The aggregation data model: per-application running totals and the
//! accumulator that owns one entry per distinct application name.

use vstd::prelude::*;

verus! {

/// Running totals for one application, with `total_time` kept equal to
/// `cpu_time + io_wait` after every update.
#[derive(Clone)]
pub struct ApplicationStat {
    pub name: String,
    pub total_time: i64,
    pub cpu_time: i64,
    pub io_wait: i64,
}

impl ApplicationStat {
    /// The accumulated times are non-negative, their sum is representable,
    /// and `total_time` is exactly that sum.
    pub open spec fn wf(self) -> bool {
        &&& 0 <= self.cpu_time
        &&& 0 <= self.io_wait
        &&& self.cpu_time + self.io_wait <= i64::MAX
        &&& self.total_time == self.cpu_time + self.io_wait
    }

    /// Fold one measurement into the running totals and recompute the
    /// derived `total_time`.
    pub fn update(&mut self, cpu_time: i64, io_wait: i64)
        requires
            0 <= cpu_time,
            0 <= io_wait,
            0 <= old(self).cpu_time,
            0 <= old(self).io_wait,
            old(self).cpu_time + cpu_time + old(self).io_wait + io_wait <= i64::MAX,
        ensures
            final(self).cpu_time == old(self).cpu_time + cpu_time,
            final(self).io_wait == old(self).io_wait + io_wait,
            final(self).total_time == final(self).cpu_time + final(self).io_wait,
            final(self).name == old(self).name,
            final(self).wf(),
    {
        self.cpu_time = self.cpu_time + cpu_time;
        self.io_wait = self.io_wait + io_wait;
        self.total_time = self.cpu_time + self.io_wait;
    }
}

impl Default for ApplicationStat {
    /// The zero state: empty name, all three totals zero.
    fn default() -> (r: ApplicationStat)
        ensures
            r.name@ == Seq::<char>::empty(),
            r.cpu_time == 0,
            r.io_wait == 0,
            r.total_time == 0,
            r.wf(),
    {
        ApplicationStat { name: String::new(), total_time: 0, cpu_time: 0, io_wait: 0 }
    }
}

/// The totals recorded for `name`, or `(0, 0)` when no entry exists yet.
pub open spec fn prev_totals(m: Map<Seq<char>, (int, int)>, name: Seq<char>) -> (int, int) {
    if m.dom().contains(name) {
        m[name]
    } else {
        (0, 0)
    }
}

/// The effect of one `Statistics::add` call on the abstract totals map:
/// the entry for `name` (implicitly zero when absent) grows by the given
/// amounts, and every other entry is untouched.
pub open spec fn spec_add(
    m: Map<Seq<char>, (int, int)>,
    name: Seq<char>,
    cpu_time: int,
    io_wait: int,
) -> Map<Seq<char>, (int, int)> {
    let prev = prev_totals(m, name);
    m.insert(name, (prev.0 + cpu_time, prev.1 + io_wait))
}

/// Additivity: folding two measurements into the same name, one after the
/// other, leaves the same totals as folding their sums in once.
pub proof fn lemma_add_additive(
    m: Map<Seq<char>, (int, int)>,
    name: Seq<char>,
    a: int,
    b: int,
    c: int,
    d: int,
)
    ensures
        spec_add(spec_add(m, name, a, b), name, c, d) == spec_add(m, name, a + c, b + d),
{
    assert(spec_add(spec_add(m, name, a, b), name, c, d) =~= spec_add(m, name, a + c, b + d));
}

/// Isolation: an add under one name neither creates, removes, nor changes
/// the entry of any other name.
pub proof fn lemma_add_isolation(
    m: Map<Seq<char>, (int, int)>,
    name: Seq<char>,
    a: int,
    b: int,
    other: Seq<char>,
)
    requires
        other != name,
    ensures
        spec_add(m, name, a, b).dom().contains(other) <==> m.dom().contains(other),
        m.dom().contains(other) ==> spec_add(m, name, a, b)[other] == m[other],
{
}

/// Two adds commute, whether their names agree or differ.
pub proof fn lemma_add_commutes(
    m: Map<Seq<char>, (int, int)>,
    n1: Seq<char>,
    a: int,
    b: int,
    n2: Seq<char>,
    c: int,
    d: int,
)
    ensures
        spec_add(spec_add(m, n1, a, b), n2, c, d) == spec_add(spec_add(m, n2, c, d), n1, a, b),
{
    assert(spec_add(spec_add(m, n1, a, b), n2, c, d) =~= spec_add(
        spec_add(m, n2, c, d),
        n1,
        a,
        b,
    ));
}

/// The totals map left by a sequence of `(name, cpu_time, io_wait)` add
/// calls applied in order, starting from `m`.
pub open spec fn apply_calls(
    m: Map<Seq<char>, (int, int)>,
    calls: Seq<(Seq<char>, int, int)>,
) -> Map<Seq<char>, (int, int)>
    decreases calls.len(),
{
    if calls.len() == 0 {
        m
    } else {
        spec_add(
            apply_calls(m, calls.drop_last()),
            calls.last().0,
            calls.last().1,
            calls.last().2,
        )
    }
}

/// Any one call may be applied last instead of at its place in the order.
proof fn lemma_apply_pull_out(m: Map<Seq<char>, (int, int)>, calls: Seq<(Seq<char>, int, int)>, j: int)
    requires
        0 <= j < calls.len(),
    ensures
        apply_calls(m, calls) == spec_add(
            apply_calls(m, calls.remove(j)),
            calls[j].0,
            calls[j].1,
            calls[j].2,
        ),
    decreases calls.len(),
{
    if j == calls.len() - 1 {
        assert(calls.remove(j) =~= calls.drop_last());
    } else {
        let s = calls.drop_last();
        let last = calls.last();
        lemma_apply_pull_out(m, s, j);
        lemma_add_commutes(
            apply_calls(m, s.remove(j)),
            s[j].0,
            s[j].1,
            s[j].2,
            last.0,
            last.1,
            last.2,
        );
        assert(calls.remove(j).drop_last() =~= s.remove(j));
        assert(calls.remove(j).last() == last);
        assert(calls[j] == s[j]);
    }
}

/// Order independence: two sequences of add calls holding the same multiset
/// of `(name, cpu_time, io_wait)` triples fold to identical final totals.
pub proof fn lemma_apply_calls_permutation(
    m: Map<Seq<char>, (int, int)>,
    c1: Seq<(Seq<char>, int, int)>,
    c2: Seq<(Seq<char>, int, int)>,
)
    requires
        c1.to_multiset() == c2.to_multiset(),
    ensures
        apply_calls(m, c1) == apply_calls(m, c2),
    decreases c1.len(),
{
    broadcast use vstd::seq_lib::group_to_multiset_ensures;

    if c1.len() == 0 {
        assert(c1.to_multiset().len() == c1.len());
        assert(c2.to_multiset().len() == c2.len());
        assert(c2.len() == 0);
    } else {
        let x = c1.last();
        assert(c1.contains(x));
        assert(c2.to_multiset().count(x) > 0);
        assert(c2.contains(x));
        let j = choose|j: int| 0 <= j < c2.len() && c2[j] == x;
        lemma_apply_pull_out(m, c2, j);
        assert(c1.drop_last() =~= c1.remove(c1.len() - 1));
        assert(c1.remove(c1.len() - 1).to_multiset() =~= c1.to_multiset().remove(x));
        assert(c2.remove(j).to_multiset() =~= c2.to_multiset().remove(x));
        lemma_apply_calls_permutation(m, c1.drop_last(), c2.remove(j));
    }
}

/// No two entries share a name.
spec fn names_distinct(s: Seq<ApplicationStat>) -> bool {
    forall|i: int, j: int|
        0 <= i < j < s.len() ==> (#[trigger] s[i]).name@ != (#[trigger] s[j]).name@
}

/// The abstract totals map held by a sequence of entries with distinct names.
spec fn seq_view(s: Seq<ApplicationStat>) -> Map<Seq<char>, (int, int)> {
    Map::new(
        |k: Seq<char>| exists|i: int| 0 <= i < s.len() && (#[trigger] s[i]).name@ == k,
        |k: Seq<char>|
            ({
                let i = choose|i: int| 0 <= i < s.len() && (#[trigger] s[i]).name@ == k;
                (s[i].cpu_time as int, s[i].io_wait as int)
            }),
    )
}

proof fn lemma_seq_view_at(s: Seq<ApplicationStat>, i: int)
    requires
        names_distinct(s),
        0 <= i < s.len(),
    ensures
        seq_view(s).dom().contains(s[i].name@),
        seq_view(s)[s[i].name@] == (s[i].cpu_time as int, s[i].io_wait as int),
{
    let k = s[i].name@;
    assert(exists|j: int| 0 <= j < s.len() && (#[trigger] s[j]).name@ == k);
    let j = choose|j: int| 0 <= j < s.len() && (#[trigger] s[j]).name@ == k;
    if j < i {
        assert(s[j].name@ != s[i].name@);
    } else if i < j {
        assert(s[i].name@ != s[j].name@);
    }
}

/// The accumulator: one `ApplicationStat` per distinct application name.
pub struct Statistics {
    entries: Vec<ApplicationStat>,
}

impl View for Statistics {
    type V = Map<Seq<char>, (int, int)>;

    closed spec fn view(&self) -> Map<Seq<char>, (int, int)> {
        seq_view(self.entries@)
    }
}

impl Statistics {
    /// Every entry is well formed and no two entries share a name.
    pub closed spec fn wf(self) -> bool {
        &&& forall|i: int|
            0 <= i < self.entries@.len() ==> (#[trigger] self.entries@[i]).wf()
        &&& names_distinct(self.entries@)
    }

    /// A fresh accumulator holds no entries.
    pub fn new() -> (r: Statistics)
        ensures
            r.wf(),
            r@ == Map::<Seq<char>, (int, int)>::empty(),
    {
        let r = Statistics { entries: Vec::new() };
        proof {
            assert(r@ =~= Map::<Seq<char>, (int, int)>::empty());
        }
        r
    }

    /// The totals currently recorded for `name`, if an entry exists.
    #[verifier::loop_isolation(false)]
    pub fn totals_for(&self, name: &String) -> (r: Option<(i64, i64)>)
        requires
            self.wf(),
        ensures
            r is Some <==> self@.dom().contains(name@),
            r matches Some(t) ==> self@[name@] == (t.0 as int, t.1 as int) && 0 <= t.0 && 0 <= t.1
                && t.0 + t.1 <= i64::MAX,
    {
        let n = self.entries.len();
        let mut i: usize = 0;
        while i < n
            invariant
                i <= n,
                n == self.entries@.len(),
                self.wf(),
                forall|j: int| 0 <= j < i ==> (#[trigger] self.entries@[j]).name@ != name@,
            decreases n - i,
        {
            if self.entries[i].name == *name {
                proof {
                    lemma_seq_view_at(self.entries@, i as int);
                }
                return Some((self.entries[i].cpu_time, self.entries[i].io_wait));
            }
            i = i + 1;
        }
        proof {
            if self@.dom().contains(name@) {
                let j = choose|j: int|
                    0 <= j < self.entries@.len() && (#[trigger] self.entries@[j]).name@ == name@;
                assert(self.entries@[j].name@ != name@);
            }
        }
        None
    }

    /// Look up or create the entry for `name` in zero state, then fold the
    /// given measurements into it; no other entry is affected.
    #[verifier::loop_isolation(false)]
    pub fn add(&mut self, name: &String, cpu_time: i64, io_wait: i64)
        requires
            old(self).wf(),
            0 <= cpu_time,
            0 <= io_wait,
            prev_totals(old(self)@, name@).0 + prev_totals(old(self)@, name@).1 + cpu_time
                + io_wait <= i64::MAX,
        ensures
            final(self).wf(),
            final(self)@ == spec_add(old(self)@, name@, cpu_time as int, io_wait as int),
    {
        let ghost s_old = self.entries@;
        let ghost old_map = self@;
        let ghost goal = spec_add(old_map, name@, cpu_time as int, io_wait as int);
        let n = self.entries.len();
        let mut i: usize = 0;
        while i < n
            invariant
                i <= n,
                n == self.entries@.len(),
                self.entries@ == s_old,
                old(self).wf(),
                forall|j: int| 0 <= j < i ==> (#[trigger] self.entries@[j]).name@ != name@,
            decreases n - i,
        {
            if self.entries[i].name == *name {
                proof {
                    lemma_seq_view_at(s_old, i as int);
                }
                self.entries[i].update(cpu_time, io_wait);
                proof {
                    let s_new = self.entries@;
                    lemma_seq_view_at(s_new, i as int);
                    assert forall|k: Seq<char>| #[trigger] goal.dom().contains(k)
                        implies seq_view(s_new).dom().contains(k) && seq_view(s_new)[k]
                        == goal[k] by {
                        if k == name@ {
                            assert(seq_view(s_new)[k] == (s_new[i as int].cpu_time as int,
                            s_new[i as int].io_wait as int));
                        } else {
                            let j = choose|j: int|
                                0 <= j < s_old.len() && (#[trigger] s_old[j]).name@ == k;
                            lemma_seq_view_at(s_old, j);
                            lemma_seq_view_at(s_new, j);
                        }
                    }
                    assert forall|k: Seq<char>| #[trigger] seq_view(s_new).dom().contains(k)
                        implies goal.dom().contains(k) by {
                        let j = choose|j: int|
                            0 <= j < s_new.len() && (#[trigger] s_new[j]).name@ == k;
                        lemma_seq_view_at(s_old, j);
                    }
                    assert(self@ =~= goal);
                }
                return ;
            }
            i = i + 1;
        }
        let mut st = ApplicationStat::default();
        st.name = name.clone();
        st.update(cpu_time, io_wait);
        proof {
            if old_map.dom().contains(name@) {
                let j = choose|j: int|
                    0 <= j < s_old.len() && (#[trigger] s_old[j]).name@ == name@;
                assert(s_old[j].name@ != name@);
            }
        }
        self.entries.push(st);
        proof {
            let s_new = self.entries@;
            assert(s_new[s_old.len() as int].name@ == name@);
            lemma_seq_view_at(s_new, s_old.len() as int);
            assert forall|k: Seq<char>| #[trigger] goal.dom().contains(k)
                implies seq_view(s_new).dom().contains(k) && seq_view(s_new)[k] == goal[k] by {
                if k != name@ {
                    let j = choose|j: int|
                        0 <= j < s_old.len() && (#[trigger] s_old[j]).name@ == k;
                    lemma_seq_view_at(s_old, j);
                    assert(s_new[j] == s_old[j]);
                    lemma_seq_view_at(s_new, j);
                }
            }
            assert forall|k: Seq<char>| #[trigger] seq_view(s_new).dom().contains(k)
                implies goal.dom().contains(k) by {
                let j = choose|j: int|
                    0 <= j < s_new.len() && (#[trigger] s_new[j]).name@ == k;
                if j < s_old.len() {
                    lemma_seq_view_at(s_old, j);
                }
            }
            assert(self@ =~= goal);
        }
    }

    /// The accumulated entries, one per distinct name, in no promised order.
    pub fn application_stats(&self) -> (r: &Vec<ApplicationStat>)
        requires
            self.wf(),
        ensures
            forall|i: int|
                0 <= i < r@.len() ==> {
                    &&& self@.dom().contains((#[trigger] r@[i]).name@)
                    &&& self@[r@[i].name@] == (r@[i].cpu_time as int, r@[i].io_wait as int)
                    &&& r@[i].total_time == r@[i].cpu_time + r@[i].io_wait
                },
            forall|i: int, j: int|
                0 <= i < j < r@.len() ==> (#[trigger] r@[i]).name@ != (#[trigger] r@[j]).name@,
            forall|k: Seq<char>| #[trigger]
                self@.dom().contains(k) ==> exists|i: int|
                    0 <= i < r@.len() && (#[trigger] r@[i]).name@ == k,
    {
        proof {
            assert forall|i: int| 0 <= i < self.entries@.len() implies {
                &&& self@.dom().contains((#[trigger] self.entries@[i]).name@)
                &&& self@[self.entries@[i].name@] == (self.entries@[i].cpu_time as int,
                self.entries@[i].io_wait as int)
            } by {
                lemma_seq_view_at(self.entries@, i);
            }
        }
        &self.entries
    }
}

} // verus!
