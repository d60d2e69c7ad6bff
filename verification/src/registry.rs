//! The device registry: the mapping from device name to the device's
//! live handle, fixed at startup and mutated at runtime only by the
//! session-refresh bookkeeping of a single device. The transport state
//! itself is owned by the external device driver; the registry records,
//! per device, how many times its session-refresh operation has been
//! invoked, which is exactly what the refresh path is allowed to touch.

use vstd::prelude::*;

verus! {

/// The registry's mathematical model: per device, its name and how many
/// refresh invocations it has seen.
pub open spec fn wf_model(m: Seq<(Seq<char>, u64)>) -> bool {
    forall|i: int, j: int|
        0 <= i < m.len() && 0 <= j < m.len() && i != j ==> m[i].0 != m[j].0
}

/// Whether a device of this name stands in the model.
pub open spec fn model_contains(m: Seq<(Seq<char>, u64)>, n: Seq<char>) -> bool {
    exists|i: int| 0 <= i < m.len() && m[i].0 == n
}

/// A refresh count after one more invocation; the count pegs at its
/// maximum rather than wrap.
pub open spec fn bumped(c: u64) -> u64 {
    if c < 0xffff_ffff_ffff_ffff {
        (c + 1) as u64
    } else {
        c
    }
}

/// The model after one refresh of the device at index `i`: that device's
/// count moves on, everything else stands.
pub open spec fn bump(m: Seq<(Seq<char>, u64)>, i: int) -> Seq<(Seq<char>, u64)>
    recommends
        0 <= i < m.len(),
{
    m.update(i, (m[i].0, bumped(m[i].1)))
}

/// The device names, in registry order.
pub open spec fn names_of(m: Seq<(Seq<char>, u64)>) -> Seq<Seq<char>> {
    Seq::new(m.len(), |i: int| m[i].0)
}

/// The index at which a name stands; meaningful when the name is present
/// and the model is well formed (names unique).
pub open spec fn index_of_name(m: Seq<(Seq<char>, u64)>, n: Seq<char>) -> int {
    choose|i: int| 0 <= i < m.len() && m[i].0 == n
}

/// The refresh counts as a map from device name to count.
pub open spec fn counts_of(m: Seq<(Seq<char>, u64)>) -> Map<Seq<char>, u64>
    recommends
        wf_model(m),
{
    Map::new(|n: Seq<char>| model_contains(m, n), |n: Seq<char>| m[index_of_name(m, n)].1)
}

/// Law: refreshing a known device touches exactly that device. The name
/// set is unchanged, uniqueness is kept, and the count map afterwards is
/// the old map with the one refreshed device's entry moved on.
pub proof fn lemma_refresh_touches_exactly_one(m: Seq<(Seq<char>, u64)>, i: int)
    requires
        wf_model(m),
        0 <= i < m.len(),
    ensures
        names_of(bump(m, i)) == names_of(m),
        wf_model(bump(m, i)),
        counts_of(bump(m, i)) == counts_of(m).insert(m[i].0, bumped(m[i].1)),
{
    let b = bump(m, i);
    assert(names_of(b) =~= names_of(m));
    assert forall|k: int, l: int|
        0 <= k < b.len() && 0 <= l < b.len() && k != l implies b[k].0 != b[l].0 by {
        assert(b[k].0 == m[k].0);
        assert(b[l].0 == m[l].0);
    }
    let target = m[i].0;
    assert forall|n: Seq<char>| model_contains(b, n) implies model_contains(m, n) by {
        let k = choose|k: int| 0 <= k < b.len() && b[k].0 == n;
        assert(m[k].0 == n);
    }
    assert forall|n: Seq<char>| model_contains(m, n) implies model_contains(b, n) by {
        let k = choose|k: int| 0 <= k < m.len() && m[k].0 == n;
        assert(b[k].0 == n);
    }
    assert forall|n: Seq<char>| model_contains(b, n) implies counts_of(b)[n] == counts_of(
        m,
    ).insert(target, bumped(m[i].1))[n] by {
        let kb = index_of_name(b, n);
        assert(0 <= kb < b.len() && b[kb].0 == n);
        if n == target {
            assert(b[i].0 == n);
            assert(kb == i);
            assert(counts_of(b)[n] == bumped(m[i].1));
        } else {
            assert(kb != i);
            assert(b[kb].1 == m[kb].1);
            let km = index_of_name(m, n);
            assert(0 <= km < m.len() && m[km].0 == n);
            assert(km == kb);
            assert(counts_of(m)[n] == m[km].1);
        }
    }
    assert(counts_of(b) =~= counts_of(m).insert(target, bumped(m[i].1)));
}

/// Law: refreshes of two different devices commute; the registry ends the
/// same whichever order the exclusive guard serialized them in, so no
/// interleaving of refreshes can corrupt it.
pub proof fn lemma_refreshes_commute(m: Seq<(Seq<char>, u64)>, i: int, j: int)
    requires
        0 <= i < m.len(),
        0 <= j < m.len(),
        i != j,
    ensures
        bump(bump(m, i), j) == bump(bump(m, j), i),
{
    assert(bump(bump(m, i), j) =~= bump(bump(m, j), i));
}

/// One controllable device: its unique name and its refresh bookkeeping.
pub struct Device {
    name: String,
    refresh_count: u64,
}

/// The registry itself. Names are unique; the set of devices never
/// changes after startup.
pub struct DeviceRegistry {
    devices: Vec<Device>,
}

impl DeviceRegistry {
    /// The registry as its mathematical model.
    pub closed spec fn model(self) -> Seq<(Seq<char>, u64)> {
        Seq::new(self.devices@.len(), |i: int| (self.devices@[i].name@, self.devices@[i].refresh_count))
    }

    pub open spec fn wf(self) -> bool {
        wf_model(self.model())
    }

    pub open spec fn contains_name(self, n: Seq<char>) -> bool {
        model_contains(self.model(), n)
    }

    /// Builds the registry from the startup device list. A name given
    /// twice yields one device (the first occurrence); every listed name
    /// is present, every count starts at zero.
    pub fn new(names: Vec<String>) -> (r: DeviceRegistry)
        ensures
            r.wf(),
            forall|n: Seq<char>|
                #[trigger] r.contains_name(n) <==> (exists|i: int|
                    0 <= i < names@.len() && names@[i]@ == n),
            forall|i: int| 0 <= i < r.model().len() ==> r.model()[i].1 == 0,
    {
        let mut reg = DeviceRegistry { devices: Vec::new() };
        proof {
            assert(reg.model() =~= Seq::<(Seq<char>, u64)>::empty());
        }
        let total = names.len();
        let mut k: usize = 0;
        while k < total
            invariant
                k <= total,
                total == names@.len(),
                reg.wf(),
                forall|n: Seq<char>|
                    #[trigger] reg.contains_name(n) <==> (exists|i: int|
                        0 <= i < k && names@[i]@ == n),
                forall|i: int| 0 <= i < reg.model().len() ==> reg.model()[i].1 == 0,
            decreases total - k,
        {
            let nm = names[k].clone();
            let ghost before = reg.model();
            proof {
                assert(nm@ == names@[k as int]@);
                assert forall|n: Seq<char>| #[trigger] model_contains(before, n) <==> (exists|i: int|
                    0 <= i < k && names@[i]@ == n) by {
                    assert(reg.contains_name(n) <==> (exists|i: int| 0 <= i < k && names@[i]@ == n));
                }
            }
            if !reg.contains(&nm) {
                reg.devices.push(Device { name: nm, refresh_count: 0 });
                proof {
                    assert(reg.model() =~= before.push((names@[k as int]@, 0u64)));
                    assert forall|p: int, q: int|
                        0 <= p < reg.model().len() && 0 <= q < reg.model().len() && p != q
                        implies reg.model()[p].0 != reg.model()[q].0 by {
                        if p < before.len() && q < before.len() {
                            assert(before[p].0 != before[q].0);
                        } else if p < before.len() {
                            assert(!model_contains(before, names@[k as int]@));
                            assert(before[p].0 != names@[k as int]@);
                        } else {
                            assert(!model_contains(before, names@[k as int]@));
                            assert(before[q].0 != names@[k as int]@);
                        }
                    }
                }
            }
            proof {
                assert forall|n: Seq<char>| #[trigger] reg.contains_name(n) implies (exists|i: int|
                    0 <= i < k + 1 && names@[i]@ == n) by {
                    let w = choose|w: int| 0 <= w < reg.model().len() && reg.model()[w].0 == n;
                    if w < before.len() {
                        assert(model_contains(before, n));
                    } else {
                        assert(names@[k as int]@ == n);
                    }
                }
                assert forall|n: Seq<char>| (exists|i: int| 0 <= i < k + 1 && names@[i]@ == n)
                    implies #[trigger] reg.contains_name(n) by {
                    let w = choose|i: int| 0 <= i < k + 1 && names@[i]@ == n;
                    if w < k {
                        assert(model_contains(before, n));
                        let v = choose|v: int| 0 <= v < before.len() && before[v].0 == n;
                        assert(reg.model()[v].0 == n);
                    } else {
                        assert(names@[k as int]@ == n);
                        if model_contains(before, n) {
                            let v = choose|v: int| 0 <= v < before.len() && before[v].0 == n;
                            assert(reg.model()[v].0 == n);
                        } else {
                            assert(reg.model()[before.len() as int].0 == n);
                        }
                    }
                }
            }
            k = k + 1;
        }
        reg
    }

    /// Whether a device of this name is registered.
    pub fn contains(&self, name: &String) -> (r: bool)
        ensures
            r == self.contains_name(name@),
    {
        self.lookup(name).is_some()
    }

    /// Finds the device of this name; `Some` exactly when it is registered,
    /// and then the index of the device bearing the name.
    pub fn lookup(&self, name: &String) -> (r: Option<usize>)
        ensures
            r matches Some(i) ==> (i < self.model().len() && self.model()[i as int].0 == name@),
            r is Some <==> self.contains_name(name@),
    {
        let total = self.devices.len();
        let mut k: usize = 0;
        while k < total
            invariant
                k <= total,
                total == self.devices@.len(),
                forall|j: int| 0 <= j < k ==> self.model()[j].0 != name@,
            decreases total - k,
        {
            if self.devices[k].name == *name {
                proof {
                    assert(self.model()[k as int].0 == name@);
                }
                return Some(k);
            }
            k = k + 1;
        }
        proof {
            assert(!model_contains(self.model(), name@));
        }
        None
    }

    /// How many devices are registered.
    pub fn device_count(&self) -> (r: usize)
        ensures
            r == self.model().len(),
    {
        self.devices.len()
    }

    /// The name of the device at an index.
    pub fn name_at(&self, i: usize) -> (r: &String)
        requires
            i < self.model().len(),
        ensures
            r@ == self.model()[i as int].0,
    {
        &self.devices[i].name
    }

    /// How many refresh invocations the device at an index has seen.
    pub fn count_at(&self, i: usize) -> (r: u64)
        requires
            i < self.model().len(),
        ensures
            r == self.model()[i as int].1,
    {
        self.devices[i].refresh_count
    }

    /// Records one refresh invocation of the device at an index: exactly
    /// that device's bookkeeping moves, nothing else in the registry does.
    pub fn record_refresh(&mut self, i: usize)
        requires
            i < old(self).model().len(),
        ensures
            final(self).model() == bump(old(self).model(), i as int),
    {
        let ghost before = self.model();
        let current: u64 = self.devices[i].refresh_count;
        let next: u64 = if current < 0xffff_ffff_ffff_ffff {
            current + 1
        } else {
            current
        };
        self.devices[i].refresh_count = next;
        proof {
            assert(self.model() =~= bump(before, i as int));
        }
    }
}

} // verus!
