//! Metric names and the counter and gauge values modules record.

use vstd::prelude::*;
use crate::text::push_str;

verus! {

/// The namespaced name of a module's metric: `nyarix.module.<module>.<name>`.
pub open spec fn spec_metric_name(module: Seq<char>, name: Seq<char>) -> Seq<char> {
    seq!['n', 'y', 'a', 'r', 'i', 'x', '.', 'm', 'o', 'd', 'u', 'l', 'e', '.'] + module + seq!['.']
        + name
}

/// Build the namespaced name of a module's metric.
pub fn metric_name(module: &str, name: &str) -> (s: String)
    ensures
        s@ == spec_metric_name(module@, name@),
{
    let mut s = String::new();
    push_str(&mut s, "nyarix.module.");
    push_str(&mut s, module);
    push_str(&mut s, ".");
    push_str(&mut s, name);
    proof {
        reveal_strlit("nyarix.module.");
        reveal_strlit(".");
    }
    assert(s@ =~= spec_metric_name(module@, name@));
    s
}

/// A monotonically increasing count; additions wrap around at `u64::MAX`.
#[derive(Debug)]
pub struct Counter {
    pub count: u64,
}

impl Default for Counter {
    /// A counter at zero.
    fn default() -> (c: Self)
        ensures
            c.count == 0,
    {
        Counter { count: 0 }
    }
}

impl Counter {
    /// Add `delta` to the count.
    pub fn increment(&mut self, delta: u64)
        ensures
            final(self).count == old(self).count.wrapping_add(delta),
    {
        self.count = self.count.wrapping_add(delta);
    }

    /// The current count.
    pub fn value(&self) -> (v: u64)
        ensures
            v == self.count,
    {
        self.count
    }
}

/// A value that can be set or adjusted; adjustments wrap around.
#[derive(Debug)]
pub struct Gauge {
    pub level: i64,
}

impl Default for Gauge {
    /// A gauge at zero.
    fn default() -> (g: Self)
        ensures
            g.level == 0,
    {
        Gauge { level: 0 }
    }
}

impl Gauge {
    /// Set the value.
    pub fn set(&mut self, value: i64)
        ensures
            final(self).level == value,
    {
        self.level = value;
    }

    /// Adjust the value by `delta`.
    pub fn add(&mut self, delta: i64)
        ensures
            final(self).level == old(self).level.wrapping_add(delta),
    {
        self.level = self.level.wrapping_add(delta);
    }

    /// The current value.
    pub fn value(&self) -> (v: i64)
        ensures
            v == self.level,
    {
        self.level
    }
}

/// Index of the first of `names` equal to `key`.
pub open spec fn first_named(names: Seq<Seq<char>>, key: Seq<char>) -> Option<int>
    decreases names.len(),
{
    if names.len() == 0 {
        None
    } else if names[0] == key {
        Some(0)
    } else {
        match first_named(names.drop_first(), key) {
            Some(i) => Some(i + 1),
            None => None,
        }
    }
}

pub proof fn lemma_first_named(names: Seq<Seq<char>>, key: Seq<char>)
    ensures
        first_named(names, key) matches Some(i) ==> 0 <= i < names.len() && names[i] == key && forall|j: int| 0 <= j < i ==> names[j] != key,
        first_named(names, key) is None <==> !names.contains(key),
    decreases names.len(),
{
    if names.len() > 0 {
        lemma_first_named(names.drop_first(), key);
        if names[0] != key {
            if let Some(i) = first_named(names, key) {
                assert forall|j: int| 0 <= j < i implies names[j] != key by {
                    if j > 0 {
                        assert(names.drop_first()[j - 1] == names[j]);
                    }
                }
            }
            if names.contains(key) {
                let j = choose|j: int| 0 <= j < names.len() && names[j] == key;
                assert(names.drop_first()[j - 1] == key);
            }
            if names.drop_first().contains(key) {
                let j = choose|j: int| 0 <= j < names.drop_first().len() && names.drop_first()[j] == key;
                assert(names[j + 1] == key);
            }
        }
    }
}

/// The text of each name.
pub open spec fn names_view(v: Seq<String>) -> Seq<Seq<char>> {
    Seq::new(v.len(), |i: int| v[i]@)
}

/// The count of the first counter named `key`, if any.
pub open spec fn lookup_count(names: Seq<Seq<char>>, vals: Seq<Counter>, key: Seq<char>) -> Option<u64> {
    match first_named(names, key) {
        Some(i) => Some(vals[i].count),
        None => None,
    }
}

/// The level of the first gauge named `key`, if any.
pub open spec fn lookup_level(names: Seq<Seq<char>>, vals: Seq<Gauge>, key: Seq<char>) -> Option<i64> {
    match first_named(names, key) {
        Some(i) => Some(vals[i].level),
        None => None,
    }
}

/// Replacing the counter at the first index named `key` leaves every
/// other name's count as it was.
proof fn lemma_count_update(names: Seq<Seq<char>>, vals: Seq<Counter>, key: Seq<char>, i: int)
    requires
        first_named(names, key) == Some(i),
        vals.len() == names.len(),
    ensures
        forall|k: Seq<char>, x: Counter| k != key ==> #[trigger] lookup_count(names, vals.update(i, x), k) == lookup_count(names, vals, k),
{
    lemma_first_named(names, key);
    assert forall|k: Seq<char>, x: Counter| k != key implies #[trigger] lookup_count(names, vals.update(i, x), k) == lookup_count(names, vals, k) by {
        lemma_first_named(names, k);
    }
}

/// Replacing the gauge at the first index named `key` leaves every other
/// name's level as it was.
proof fn lemma_level_update(names: Seq<Seq<char>>, vals: Seq<Gauge>, key: Seq<char>, i: int)
    requires
        first_named(names, key) == Some(i),
        vals.len() == names.len(),
    ensures
        forall|k: Seq<char>, x: Gauge| k != key ==> #[trigger] lookup_level(names, vals.update(i, x), k) == lookup_level(names, vals, k),
{
    lemma_first_named(names, key);
    assert forall|k: Seq<char>, x: Gauge| k != key implies #[trigger] lookup_level(names, vals.update(i, x), k) == lookup_level(names, vals, k) by {
        lemma_first_named(names, k);
    }
}

/// Appending a name not yet present leaves every other name's first
/// index as it was, and gives the new name the last index.
pub proof fn lemma_first_named_push(names: Seq<Seq<char>>, key: Seq<char>)
    requires
        !names.contains(key),
    ensures
        first_named(names.push(key), key) == Some(names.len() as int),
        forall|k: Seq<char>| k != key ==> #[trigger] first_named(names.push(key), k) == first_named(names, k),
{
    let nv = names.push(key);
    let n = names.len() as int;
    lemma_first_named(nv, key);
    assert(nv[n] == key);
    let i0 = first_named(nv, key)->0;
    if i0 < n {
        assert(names[i0] == key);
    }
    assert forall|k: Seq<char>| k != key implies #[trigger] first_named(nv, k) == first_named(names, k) by {
        lemma_first_named(nv, k);
        lemma_first_named(names, k);
        if let Some(j) = first_named(names, k) {
            assert(nv[j] == k);
            let j1 = first_named(nv, k)->0;
            if j1 < j {
                assert(nv[j1] == names[j1]);
            }
            if j < j1 {
                assert(nv[j] != k);
            }
        } else {
            if let Some(j1) = first_named(nv, k) {
                assert(j1 < n);
                assert(names[j1] == k);
            }
        }
    }
}

/// Counters and gauges, each registered under its namespaced name (see
/// `metric_name`) the first time it is asked for.
#[derive(Debug)]
pub struct MetricRegistry {
    counter_names: Vec<String>,
    counters: Vec<Counter>,
    gauge_names: Vec<String>,
    gauges: Vec<Gauge>,
}

impl MetricRegistry {
    /// The names of the registered counters, in registration order.
    pub closed spec fn counter_names_view(&self) -> Seq<Seq<char>> {
        names_view(self.counter_names@)
    }

    /// The names of the registered gauges, in registration order.
    pub closed spec fn gauge_names_view(&self) -> Seq<Seq<char>> {
        names_view(self.gauge_names@)
    }

    /// The value of the counter registered under `key`, if any.
    pub closed spec fn counter_value(&self, key: Seq<char>) -> Option<u64> {
        lookup_count(self.counter_names_view(), self.counters@, key)
    }

    /// The value of the gauge registered under `key`, if any.
    pub closed spec fn gauge_value(&self, key: Seq<char>) -> Option<i64> {
        lookup_level(self.gauge_names_view(), self.gauges@, key)
    }

    /// Each name has its value.
    pub closed spec fn wf(&self) -> bool {
        &&& self.counter_names@.len() == self.counters@.len()
        &&& self.gauge_names@.len() == self.gauges@.len()
    }

    /// An empty registry.
    pub fn new() -> (r: Self)
        ensures
            r.wf(),
            forall|k: Seq<char>| r.counter_value(k) is None && r.gauge_value(k) is None,
    {
        let r = MetricRegistry { counter_names: Vec::new(), counters: Vec::new(), gauge_names: Vec::new(), gauges: Vec::new() };
        assert forall|k: Seq<char>| r.counter_value(k) is None && r.gauge_value(k) is None by {
            lemma_first_named(r.counter_names_view(), k);
            lemma_first_named(r.gauge_names_view(), k);
        }
        r
    }

    /// The counter named `name` under `module`, registered at zero the
    /// first time it is asked for.
    pub fn counter(&mut self, module: &str, name: &str) -> (c: &mut Counter)
        requires
            old(self).wf(),
        ensures
            final(self).wf(),
            c.count == (match old(self).counter_value(spec_metric_name(module@, name@)) {
                Some(v) => v,
                None => 0,
            }),
            final(self).counter_value(spec_metric_name(module@, name@)) == Some(final(c).count),
            forall|k: Seq<char>| k != spec_metric_name(module@, name@) ==> #[trigger] final(self).counter_value(k) == old(self).counter_value(k),
            forall|k: Seq<char>| #[trigger] final(self).gauge_value(k) == old(self).gauge_value(k),
    {
        let key = metric_name(module, name);
        let ghost kv = key@;
        let i = match Self::find(&self.counter_names, key.as_str()) {
            Some(i) => {
                assert(first_named(self.counter_names_view(), kv) == Some(i as int));
                i
            },
            None => {
                let ghost names0 = self.counter_names_view();
                let ghost vals0 = self.counters@;
                proof {
                    lemma_first_named(names0, kv);
                    lemma_first_named_push(names0, kv);
                }
                self.counter_names.push(key);
                self.counters.push(Counter { count: 0 });
                proof {
                    assert(self.counter_names_view() =~= names0.push(kv));
                    assert(first_named(self.counter_names_view(), kv) == Some(names0.len() as int));
                    assert forall|k: Seq<char>| k != kv implies #[trigger] lookup_count(self.counter_names_view(), self.counters@, k)
                        == lookup_count(names0, vals0, k) by {
                        lemma_first_named(names0, k);
                    }
                }
                self.counters.len() - 1
            },
        };
        proof {
            assert(forall|k: Seq<char>| k != kv ==> #[trigger] lookup_count(self.counter_names_view(), self.counters@, k) == old(self).counter_value(k));
            lemma_first_named(self.counter_names_view(), kv);
            lemma_count_update(self.counter_names_view(), self.counters@, kv, i as int);
        }
        &mut self.counters[i]
    }

    /// The gauge named `name` under `module`, registered at zero the
    /// first time it is asked for.
    pub fn gauge(&mut self, module: &str, name: &str) -> (g: &mut Gauge)
        requires
            old(self).wf(),
        ensures
            final(self).wf(),
            g.level == (match old(self).gauge_value(spec_metric_name(module@, name@)) {
                Some(v) => v,
                None => 0,
            }),
            final(self).gauge_value(spec_metric_name(module@, name@)) == Some(final(g).level),
            forall|k: Seq<char>| k != spec_metric_name(module@, name@) ==> #[trigger] final(self).gauge_value(k) == old(self).gauge_value(k),
            forall|k: Seq<char>| #[trigger] final(self).counter_value(k) == old(self).counter_value(k),
    {
        let key = metric_name(module, name);
        let ghost kv = key@;
        let i = match Self::find(&self.gauge_names, key.as_str()) {
            Some(i) => {
                assert(first_named(self.gauge_names_view(), kv) == Some(i as int));
                i
            },
            None => {
                let ghost names0 = self.gauge_names_view();
                let ghost vals0 = self.gauges@;
                proof {
                    lemma_first_named(names0, kv);
                    lemma_first_named_push(names0, kv);
                }
                self.gauge_names.push(key);
                self.gauges.push(Gauge { level: 0 });
                proof {
                    assert(self.gauge_names_view() =~= names0.push(kv));
                    assert(first_named(self.gauge_names_view(), kv) == Some(names0.len() as int));
                    assert forall|k: Seq<char>| k != kv implies #[trigger] lookup_level(self.gauge_names_view(), self.gauges@, k)
                        == lookup_level(names0, vals0, k) by {
                        lemma_first_named(names0, k);
                    }
                }
                self.gauges.len() - 1
            },
        };
        proof {
            assert(forall|k: Seq<char>| k != kv ==> #[trigger] lookup_level(self.gauge_names_view(), self.gauges@, k) == old(self).gauge_value(k));
            lemma_first_named(self.gauge_names_view(), kv);
            lemma_level_update(self.gauge_names_view(), self.gauges@, kv, i as int);
        }
        &mut self.gauges[i]
    }

    /// The counter named `name` under `module`, if it was ever asked for;
    /// looking does not register it.
    pub fn get_counter(&self, module: &str, name: &str) -> (r: Option<&Counter>)
        requires
            self.wf(),
        ensures
            r is None <==> self.counter_value(spec_metric_name(module@, name@)) is None,
            r matches Some(c) ==> self.counter_value(spec_metric_name(module@, name@)) == Some(c.count),
    {
        let key = metric_name(module, name);
        match Self::find(&self.counter_names, key.as_str()) {
            Some(i) => {
                proof {
                    lemma_first_named(self.counter_names_view(), key@);
                }
                Some(&self.counters[i])
            },
            None => None,
        }
    }

    /// The gauge named `name` under `module`, if it was ever asked for;
    /// looking does not register it.
    pub fn get_gauge(&self, module: &str, name: &str) -> (r: Option<&Gauge>)
        requires
            self.wf(),
        ensures
            r is None <==> self.gauge_value(spec_metric_name(module@, name@)) is None,
            r matches Some(g) ==> self.gauge_value(spec_metric_name(module@, name@)) == Some(g.level),
    {
        let key = metric_name(module, name);
        match Self::find(&self.gauge_names, key.as_str()) {
            Some(i) => {
                proof {
                    lemma_first_named(self.gauge_names_view(), key@);
                }
                Some(&self.gauges[i])
            },
            None => None,
        }
    }

    fn find(names: &Vec<String>, key: &str) -> (r: Option<usize>)
        ensures
            r matches Some(i) ==> first_named(names_view(names@), key@) == Some(i as int),
            r is None ==> first_named(names_view(names@), key@) is None,
    {
        let ghost nv = names_view(names@);
        proof {
            lemma_first_named(nv, key@);
        }
        let mut i: usize = 0;
        while i < names.len()
            invariant
                i <= names@.len(),
                nv == names_view(names@),
                forall|j: int| 0 <= j < i ==> nv[j] != key@,
            decreases names@.len() - i,
        {
            if crate::text::str_eq(names[i].as_str(), key) {
                proof {
                    assert(nv[i as int] == key@);
                    assert(nv.contains(key@));
                    lemma_first_named(nv, key@);
                    let i0 = first_named(nv, key@)->0;
                    if i0 < i {
                        assert(nv[i0] != key@);
                    }
                    if i < i0 {
                        assert(nv[i as int] != key@);
                    }
                    assert(i0 == i);
                }
                return Some(i);
            }
            i += 1;
        }
        proof {
            lemma_first_named(nv, key@);
            if nv.contains(key@) {
                let j = choose|j: int| 0 <= j < nv.len() && nv[j] == key@;
                assert(nv[j] != key@);
            }
        }
        None
    }
}

} // verus!
