use vstd::prelude::*;
use std::collections::BTreeMap;
use vstd::std_specs::btree::{axiom_spec_keys_iter, increasing_seq, spec_keys_iter};
use vstd::std_specs::iter::IteratorSpec;
use vstd::std_specs::cmp::OrdSpec;
use vstd::laws_cmp::obeys_cmp;
use crate::cpu::debug::{hex_digits, push_hex_digits};
use vstd::string::StringExecFns;
use crate::qemu::{self, InitError, header_ok, le_u32, parsed, region_count, regions_complete};

verus! {

broadcast use vstd::std_specs::btree::group_btree_axioms, vstd::laws_cmp::group_laws_cmp;

/// A region of the program image: where its bytes lie in the file, where they
/// are cached (if they are), and whether it may be written.
#[derive(Clone, Copy)]
pub struct Address {
    pub data: Option<u16>,
    pub file: u64,
    pub write: bool,
}

/// Whether the keys of `s` strictly increase.
pub open spec fn keys_increasing(s: Seq<(u64, Address)>) -> bool {
    forall|i: int, j: int| 0 <= i < j < s.len() ==> s[i].0 < s[j].0
}

/// The position of the first entry of `s` whose key is at least `k`
/// (the length of `s` where there is none).
pub open spec fn first_at_least(s: Seq<(u64, Address)>, k: u64) -> nat
    decreases s.len(),
{
    if s.len() == 0 {
        0
    } else if s[0].0 < k {
        1 + first_at_least(s.drop_first(), k)
    } else {
        0
    }
}

/// `s` with the entry `(k, a)` put in its place by key: it replaces the entry
/// with key `k` where there is one.
pub open spec fn insert_entry(s: Seq<(u64, Address)>, k: u64, a: Address) -> Seq<(u64, Address)> {
    let p = first_at_least(s, k) as int;
    if p < s.len() && s[p].0 == k {
        s.update(p, (k, a))
    } else {
        s.insert(p, (k, a))
    }
}

/// Whether `s` has an entry with key `k`.
pub open spec fn has_key(s: Seq<(u64, Address)>, k: u64) -> bool {
    exists|i: int| 0 <= i < s.len() && s[i].0 == k
}

/// The first entry whose key is at least `k` is the one at `i`, if all before
/// `i` are below `k` and the one at `i` is not.
pub proof fn lemma_first_at_least(s: Seq<(u64, Address)>, k: u64, i: int)
    requires
        0 <= i <= s.len(),
        forall|j: int| 0 <= j < i ==> s[j].0 < k,
        i < s.len() ==> s[i].0 >= k,
    ensures
        first_at_least(s, k) == i,
    decreases i,
{
    if i > 0 {
        assert forall|j: int| 0 <= j < i - 1 implies s.drop_first()[j].0 < k by {
            assert(s[j + 1].0 < k);
        }
        lemma_first_at_least(s.drop_first(), k, i - 1);
    }
}

/// The first position whose key is at least `k` lies within `s` or just past it.
pub proof fn lemma_first_at_least_le(s: Seq<(u64, Address)>, k: u64)
    ensures
        first_at_least(s, k) <= s.len(),
    decreases s.len(),
{
    if s.len() > 0 {
        lemma_first_at_least_le(s.drop_first(), k);
    }
}

/// In a sequence with increasing keys, the key `k` is present exactly at the
/// first position whose key is at least `k`.
pub proof fn lemma_has_key(s: Seq<(u64, Address)>, k: u64)
    requires
        keys_increasing(s),
    ensures
        first_at_least(s, k) <= s.len(),
        forall|j: int| 0 <= j < first_at_least(s, k) ==> s[j].0 < k,
        first_at_least(s, k) < s.len() ==> s[first_at_least(s, k) as int].0 >= k,
        has_key(s, k) <==> (first_at_least(s, k) < s.len() && s[first_at_least(s, k) as int].0 == k),
    decreases s.len(),
{
    if s.len() > 0 && s[0].0 < k {
        let t = s.drop_first();
        assert(keys_increasing(t));
        lemma_has_key(t, k);
        assert forall|j: int| 0 <= j < first_at_least(s, k) implies s[j].0 < k by {
            if j > 0 {
                assert(s[j].0 == t[j - 1].0);
            }
        }
        if has_key(s, k) {
            let i = choose|i: int| 0 <= i < s.len() && s[i].0 == k;
            assert(i > 0);
            assert(t[i - 1].0 == k);
        }
        if has_key(t, k) {
            let i = choose|i: int| 0 <= i < t.len() && t[i].0 == k;
            assert(s[i + 1].0 == k);
        }
    }
}

/// The region recorded at address `k` in `s`.
pub open spec fn lookup(s: Seq<(u64, Address)>, k: u64) -> Address {
    s[first_at_least(s, k) as int].1
}

/// Recording a region keeps the keys in order, adds its address to the keys,
/// and a lookup of that address then gives the region while lookups of the
/// other addresses give what they gave before.
pub proof fn lemma_insert_entry(s: Seq<(u64, Address)>, k: u64, a: Address)
    requires
        keys_increasing(s),
    ensures
        keys_increasing(insert_entry(s, k, a)),
        forall|k2: u64| has_key(insert_entry(s, k, a), k2) <==> (k2 == k || has_key(s, k2)),
        lookup(insert_entry(s, k, a), k) == a,
        forall|k2: u64| k2 != k && has_key(s, k2) ==> lookup(insert_entry(s, k, a), k2) == lookup(s, k2),
{
    let t = insert_entry(s, k, a);
    let p = first_at_least(s, k) as int;
    lemma_has_key(s, k);
    if p < s.len() && s[p].0 == k {
        assert(t == s.update(p, (k, a)));
        assert forall|i: int| 0 <= i < t.len() implies t[i].0 == s[i].0 by {}
        lemma_same_keys(s, t, k);
        assert forall|k2: u64| has_key(t, k2) <==> (k2 == k || has_key(s, k2)) by {
            lemma_same_keys(s, t, k2);
        }
        assert forall|k2: u64| k2 != k && has_key(s, k2) implies lookup(t, k2) == lookup(s, k2) by {
            lemma_same_keys(s, t, k2);
            lemma_has_key(s, k2);
        }
    } else {
        assert(t == s.insert(p, (k, a)));
        assert(keys_increasing(t)) by {
            assert forall|i: int, j: int| 0 <= i < j < t.len() implies t[i].0 < t[j].0 by {
                if j < p {
                } else if i < p && j == p {
                } else if i < p && j > p {
                    assert(t[j] == s[j - 1]);
                    if p < s.len() {
                        assert(s[p].0 > k);
                        assert(s[p].0 <= s[j - 1].0);
                    }
                } else if i == p {
                    assert(t[j] == s[j - 1]);
                    assert(s[p].0 >= k);
                    assert(s[p].0 <= s[j - 1].0);
                } else {
                    assert(t[i] == s[i - 1] && t[j] == s[j - 1]);
                }
            }
        }
        lemma_has_key(t, k);
        assert forall|j: int| 0 <= j < p implies t[j].0 < k by {}
        lemma_first_at_least(t, k, p);
        assert forall|k2: u64| has_key(t, k2) <==> (k2 == k || has_key(s, k2)) by {
            if has_key(t, k2) {
                let i = choose|i: int| 0 <= i < t.len() && t[i].0 == k2;
                if i < p {
                    assert(s[i].0 == k2);
                } else if i > p {
                    assert(s[i - 1].0 == k2);
                }
            }
            if has_key(s, k2) {
                let i = choose|i: int| 0 <= i < s.len() && s[i].0 == k2;
                if i < p {
                    assert(t[i].0 == k2);
                } else {
                    assert(t[i + 1].0 == k2);
                }
            }
            if k2 == k {
                assert(t[p].0 == k);
            }
        }
        assert forall|k2: u64| k2 != k && has_key(s, k2) implies lookup(t, k2) == lookup(s, k2) by {
            lemma_has_key(s, k2);
            lemma_has_key(t, k2);
            let q = first_at_least(s, k2) as int;
            if q < p {
                assert forall|j: int| 0 <= j < q implies t[j].0 < k2 by {}
                lemma_first_at_least(t, k2, q);
            } else {
                assert(q > p || s[q].0 != k);
                assert(q >= p);
                assert(s[q].0 > k);
                assert forall|j: int| 0 <= j < q + 1 implies t[j].0 < k2 by {
                    if j < p {
                    } else if j == p {
                    } else {
                        assert(t[j] == s[j - 1]);
                    }
                }
                assert(t[q + 1] == s[q]);
                lemma_first_at_least(t, k2, q + 1);
            }
        }
    }
}

/// The regions of the program image, by the virtual address where each starts,
/// in increasing order of address.
pub struct AddressMap {
    map: BTreeMap<u64, Address>,
}

/// Two sequences whose values strictly increase and which hold the same
/// values are equal.
pub proof fn lemma_increasing_unique(s: Seq<u64>, t: Seq<u64>)
    requires
        forall|i: int, j: int| 0 <= i < j < s.len() ==> s[i] < s[j],
        forall|i: int, j: int| 0 <= i < j < t.len() ==> t[i] < t[j],
        forall|x: u64| s.contains(x) <==> t.contains(x),
    ensures
        s == t,
    decreases s.len(),
{
    if s.len() == 0 {
        if t.len() > 0 {
            assert(t.contains(t[0]));
        }
        assert(s =~= t);
    } else {
        assert(s.contains(s[0]));
        assert(t.contains(s[0]));
        assert(t.len() > 0);
        assert(t.contains(t[0]));
        assert(s.contains(t[0]));
        let i = choose|i: int| 0 <= i < s.len() && s[i] == t[0];
        let j = choose|j: int| 0 <= j < t.len() && t[j] == s[0];
        if i > 0 {
            assert(s[0] < s[i]);
        }
        if j > 0 {
            assert(t[0] < t[j]);
        }
        assert(s[0] == t[0]);
        let s1 = s.drop_first();
        let t1 = t.drop_first();
        assert forall|x: u64| s1.contains(x) <==> t1.contains(x) by {
            if s1.contains(x) {
                let a = choose|a: int| 0 <= a < s1.len() && s1[a] == x;
                assert(s[a + 1] == x);
                assert(s.contains(x));
                assert(t.contains(x));
                let b = choose|b: int| 0 <= b < t.len() && t[b] == x;
                assert(s[0] < s[a + 1]);
                assert(b != 0);
                assert(t1[b - 1] == x);
            }
            if t1.contains(x) {
                let a = choose|a: int| 0 <= a < t1.len() && t1[a] == x;
                assert(t[a + 1] == x);
                assert(t.contains(x));
                assert(s.contains(x));
                let b = choose|b: int| 0 <= b < s.len() && s[b] == x;
                assert(t[0] < t[a + 1]);
                assert(b != 0);
                assert(s1[b - 1] == x);
            }
        }
        lemma_increasing_unique(s1, t1);
        assert(s =~= t) by {
            assert forall|k: int| 0 <= k < s.len() implies s[k] == t[k] by {
                if k > 0 {
                    assert(s[k] == s1[k - 1]);
                    assert(t[k] == t1[k - 1]);
                }
            }
        }
    }
}

/// The keys of `s`, in order.
pub open spec fn keys_of(s: Seq<(u64, Address)>) -> Seq<u64> {
    s.map_values(|e: (u64, Address)| e.0)
}

/// The order of `u64` keys obeys the laws a `BTreeMap` relies on.
proof fn lemma_u64_keys_ordered()
    ensures
        obeys_cmp::<u64>(),
{
}

/// Whether the values of `s` strictly increase.
pub open spec fn increasing(s: Seq<u64>) -> bool {
    forall|i: int, j: int| 0 <= i < j < s.len() ==> s[i] < s[j]
}

/// The values of the set `d`, in increasing order.
pub open spec fn sorted_keys(d: Set<u64>) -> Seq<u64> {
    choose|s: Seq<u64>| increasing(s) && forall|x: u64| s.contains(x) <==> d.contains(x)
}

impl AddressMap {
    /// The addresses of the regions, in increasing order.
    closed spec fn keys_seq(&self) -> Seq<u64> {
        sorted_keys(self.map@.dom())
    }

    /// The keys in order strictly increase and are those of the map; they
    /// are the keys the map's iterator gives.
    proof fn lemma_keys(&self)
        ensures
            increasing(self.keys_seq()),
            forall|x: u64| self.keys_seq().contains(x) <==> self.map@.dom().contains(x),
            self.keys_seq().len() == self.map@.dom().len(),
            self.keys_seq() == spec_keys_iter(&self.map).remaining().map_values(|r: &u64| *r),
    {
        let ks = spec_keys_iter(&self.map).remaining();
        let u = ks.map_values(|r: &u64| *r);
        axiom_spec_keys_iter(&self.map);
        lemma_u64_keys_ordered();
        assert(obeys_cmp::<&u64>());
        assert(increasing_seq(ks));
        vstd::std_specs::btree::axiom_increasing_seq_meaning(ks);
        assert forall|i: int, j: int| 0 <= i < j < u.len() implies u[i] < u[j] by {
            assert(u.len() == ks.len());
            assert(OrdSpec::cmp_spec(&ks[i], &ks[j]) is Less);
            assert(u[i] == *ks[i] && u[j] == *ks[j]);
        }
        assert forall|x: u64| u.contains(x) <==> self.map@.dom().contains(x) by {
            if u.contains(x) {
                let i = choose|i: int| 0 <= i < u.len() && u[i] == x;
                assert(ks.unref()[i] == x);
                assert(ks.unref().to_set().contains(x));
            }
            if self.map@.dom().contains(x) {
                assert(ks.unref().to_set().contains(x));
                assert(ks.unref().contains(x));
                let i = choose|i: int| 0 <= i < ks.unref().len() && ks.unref()[i] == x;
                assert(u[i] == x);
            }
        }
        let d = self.map@.dom();
        assert(increasing(u));
        assert(exists|t: Seq<u64>| increasing(t) && forall|x: u64| t.contains(x) <==> d.contains(x)) by {
            assert(increasing(u) && forall|x: u64| u.contains(x) <==> d.contains(x));
        }
        let c = self.keys_seq();
        assert(increasing(c) && forall|x: u64| c.contains(x) <==> d.contains(x));
        lemma_increasing_unique(c, u);
    }

    /// The keys of the view are those of the map, and each entry's region is
    /// the one the map holds at its key.
    proof fn lemma_view(&self)
        ensures
            keys_of(self@) == self.keys_seq(),
            forall|i: int| 0 <= i < self@.len() ==> (#[trigger] self@[i]).1 == self.map@[self@[i].0],
            keys_increasing(self@),
            forall|k: u64| has_key(self@, k) <==> self.map@.dom().contains(k),
    {
        self.lemma_keys();
        assert(keys_of(self@) =~= self.keys_seq());
        assert forall|k: u64| has_key(self@, k) <==> self.map@.dom().contains(k) by {
            if has_key(self@, k) {
                let i = choose|i: int| 0 <= i < self@.len() && self@[i].0 == k;
                assert(self.keys_seq()[i] == k);
            }
            if self.map@.dom().contains(k) {
                assert(self.keys_seq().contains(k));
                let i = choose|i: int| 0 <= i < self.keys_seq().len() && self.keys_seq()[i] == k;
                assert(self@[i].0 == k);
            }
        }
    }

    /// The addresses of the regions, in increasing order.
    fn key_list(&self) -> (ret: Vec<u64>)
        ensures
            ret@ == keys_of(self@),
    {
        let ghost ks = spec_keys_iter(&self.map).remaining();
        proof {
            axiom_spec_keys_iter(&self.map);
            self.lemma_keys();
            self.lemma_view();
        }
        let mut v: Vec<u64> = Vec::new();
        for k in it: self.map.keys()
            invariant
                it.seq() == ks,
                v@ == ks.take(it.index() as int).map_values(|r: &u64| *r),
        {
            v.push(*k);
            assert(ks.take(it.index() as int + 1).map_values(|r: &u64| *r) =~= v@);
        }
        assert(v@ =~= ks.map_values(|r: &u64| *r));
        v
    }
}

impl View for AddressMap {
    type V = Seq<(u64, Address)>;

    closed spec fn view(&self) -> Seq<(u64, Address)> {
        self.keys_seq().map_values(|k: u64| (k, self.map@[k]))
    }
}

impl AddressMap {
    /// The map with no region.
    pub fn new() -> (ret: Self)
        ensures
            ret@ == Seq::<(u64, Address)>::empty(),
    {
        let ret = AddressMap { map: BTreeMap::new() };
        proof {
            ret.lemma_keys();
            assert(ret@ =~= Seq::<(u64, Address)>::empty());
        }
        ret
    }

    /// The number of regions.
    pub fn len(&self) -> (ret: usize)
        ensures
            ret == self@.len(),
    {
        proof {
            self.lemma_keys();
        }
        self.map.len()
    }

    /// The region at position `i`, with its address.
    fn entry(&self, i: usize) -> (ret: (u64, Address))
        requires
            i < self@.len(),
        ensures
            ret == self@[i as int],
    {
        proof {
            self.lemma_view();
        }
        let keys = self.key_list();
        let k = keys[i];
        assert(self@[i as int].0 == k);
        assert(has_key(self@, k));
        proof {
            lemma_u64_keys_ordered();
        }
        match self.map.get(&k) {
            Some(a) => (k, *a),
            None => {
                assert(false);
                (k, Address { data: None, file: 0, write: false })
            },
        }
    }

    /// The position of the first region whose address is at least `k`.
    fn lower_bound(&self, k: u64) -> (ret: usize)
        ensures
            ret == first_at_least(self@, k),
    {
        let keys = self.key_list();
        let mut i: usize = 0;
        while i < keys.len() && keys[i] < k
            invariant
                keys@ == keys_of(self@),
                i <= self@.len(),
                forall|j: int| 0 <= j < i ==> self@[j].0 < k,
            decreases self@.len() - i,
        {
            assert(keys@[i as int] == self@[i as int].0);
            i += 1;
        }
        proof {
            if i < self@.len() {
                assert(keys@[i as int] == self@[i as int].0);
            }
            lemma_first_at_least(self@, k, i as int);
        }
        i
    }

    /// Whether a region is recorded at address `k`.
    pub fn contains_key(&self, k: u64) -> (ret: bool)
        ensures
            ret == has_key(self@, k),
    {
        proof {
            self.lemma_view();
            lemma_u64_keys_ordered();
        }
        self.map.contains_key(&k)
    }

    /// The region recorded at address `k`, if there is one.
    pub fn get(&self, k: u64) -> (ret: Option<&Address>)
        ensures
            ret == if has_key(self@, k) {
                Some(&lookup(self@, k))
            } else {
                None::<&Address>
            },
    {
        proof {
            self.lemma_view();
            lemma_has_key(self@, k);
            lemma_u64_keys_ordered();
        }
        self.map.get(&k)
    }

    /// Records the region `a` at address `k`, replacing the one recorded there.
    pub fn insert(&mut self, k: u64, a: Address)
        ensures
            final(self)@ == insert_entry(old(self)@, k, a),
            keys_increasing(final(self)@),
    {
        proof {
            self.lemma_view();
        }
        let ghost o = self@;
        let ghost om = self.map@;
        proof {
            lemma_u64_keys_ordered();
        }
        self.map.insert(k, a);
        assert(self.map@ == om.insert(k, a));
        proof {
            self.lemma_view();
            let e = insert_entry(o, k, a);
            lemma_insert_entry(o, k, a);
            lemma_has_key(o, k);
            let p = first_at_least(o, k) as int;
            lemma_first_at_least_le(o, k);
            assert forall|x: u64| has_key(e, x) <==> has_key(self@, x) by {
                assert(has_key(e, x) == (x == k || has_key(o, x)));
                assert(has_key(o, x) == om.dom().contains(x));
                assert(self.map@.dom().contains(x) == (x == k || om.dom().contains(x)));
            }
            assert forall|x: u64| keys_of(e).contains(x) <==> keys_of(self@).contains(x) by {
                if keys_of(e).contains(x) {
                    let i = choose|i: int| 0 <= i < keys_of(e).len() && keys_of(e)[i] == x;
                    assert(e[i].0 == x);
                    assert(has_key(e, x));
                    assert(has_key(self@, x));
                    let j = choose|j: int| 0 <= j < self@.len() && self@[j].0 == x;
                    assert(keys_of(self@)[j] == x);
                }
                if keys_of(self@).contains(x) {
                    let i = choose|i: int| 0 <= i < keys_of(self@).len() && keys_of(self@)[i] == x;
                    assert(self@[i].0 == x);
                    assert(has_key(self@, x));
                    assert(has_key(e, x));
                    let j = choose|j: int| 0 <= j < e.len() && e[j].0 == x;
                    assert(keys_of(e)[j] == x);
                }
            }
            lemma_increasing_unique(keys_of(e), keys_of(self@));
            assert forall|i: int| 0 <= i < e.len() implies e[i].1 == self.map@[e[i].0] by {
                if p < o.len() && o[p].0 == k {
                    if i != p {
                        assert(e[i] == o[i]);
                        assert(o[i].0 != k);
                    }
                } else {
                    if i < p {
                        assert(e[i] == o[i]);
                        assert(o[i].0 != k) by {
                            if o[i].0 == k {
                                assert(has_key(o, k));
                            }
                        }
                    } else if i > p {
                        assert(e[i] == o[i - 1]);
                        assert(o[i - 1].0 != k) by {
                            if o[i - 1].0 == k {
                                assert(has_key(o, k));
                            }
                        }
                    }
                }
            }
            assert forall|i: int| 0 <= i < e.len() implies e[i] == self@[i] by {
                assert(keys_of(e)[i] == keys_of(self@)[i]);
            }
            assert(self@ =~= e);
        }
    }
}

/// Why a read of memory cannot be served; the emulator stops on each.
pub enum RamError {
    /// The region at the address (first value) holds more bytes (third value)
    /// than the cache (second value).
    CacheTooBig(u64, u64, u64),
    /// A region is empty.
    ZeroSize,
    /// The last region, at the address, starts past the end of the file.
    RegionPastEnd(u64),
    /// The last region, at the address, holds more bytes than a cache index reaches.
    RegionTooLarge(u64),
    /// The address read (first value) lies before the region found for it (second value).
    AddressBeforeRegion(u64, u64),
    /// The region at the address ends past the last address.
    RegionEndOverflow(u64),
}

/// The contents of memory: the regions, the cache, the file image and the
/// position where the next region is cached.
pub ghost struct RamView {
    pub entries: Seq<(u64, Address)>,
    pub data: Seq<u8>,
    pub file: Seq<u8>,
    pub offset: u64,
    pub data_pos: u16,
    pub log: Seq<Seq<char>>,
}

/// Memory with the line `line` added to the lines it has printed.
pub open spec fn with_line(v: RamView, line: Seq<char>) -> RamView {
    RamView { log: v.log.push(line), ..v }
}

/// The line printed when the region at address `k` is cached.
pub open spec fn caching_line(k: u64) -> Seq<char> {
    "CACHING --- 0x"@ + hex_digits(k as nat)
}

/// The line printed when `virt` is read, given the region `cached` last read from.
pub open spec fn reading_line(virt: u64, cached: Option<u64>) -> Seq<char> {
    match cached {
        Some(c) => "reading 0x"@ + hex_digits(virt as nat) + " cached @ 0x"@ + hex_digits(c as nat),
        None => "reading 0x"@ + hex_digits(virt as nat) + " with no cache"@,
    }
}

/// The position of the region at address `k`.
pub open spec fn pos_of(v: RamView, k: u64) -> int {
    first_at_least(v.entries, k) as int
}

/// The number of bytes of the region at position `i`: the distance to the
/// file offset of the next region, or, for the last region, to the end of the
/// file; or why that number is refused.
pub open spec fn region_size(v: RamView, i: int) -> Result<u16, RamError> {
    let cur = v.entries[i].1.file;
    if i + 1 < v.entries.len() {
        let next = v.entries[i + 1].1.file;
        let d: int = if next >= cur { next - cur } else { cur - next };
        if d > 0xFFFF {
            Err(RamError::CacheTooBig(v.entries[i].0, v.data.len() as u64, d as u64))
        } else if d == 0 {
            Err(RamError::ZeroSize)
        } else {
            Ok(d as u16)
        }
    } else if v.file.len() < cur {
        Err(RamError::RegionPastEnd(v.entries[i].0))
    } else if v.file.len() - cur > 0xFFFF {
        Err(RamError::RegionTooLarge(v.entries[i].0))
    } else if v.file.len() == cur {
        Err(RamError::ZeroSize)
    } else {
        Ok((v.file.len() - cur) as u16)
    }
}

/// Where a region of `size` bytes is cached when the next free position is
/// `pos`: right there if it fits below the end of the cache, else at the start.
pub open spec fn slot(pos: u16, size: u16) -> (u16, u16) {
    if 0xFFFF - pos > size {
        (pos, (pos + size) as u16)
    } else {
        (0, size)
    }
}

/// The regions with those cached at a position in `start..end` marked as not cached.
pub open spec fn evict(s: Seq<(u64, Address)>, start: u16, end: u16) -> Seq<(u64, Address)> {
    s.map_values(
        |e: (u64, Address)|
            if e.1.data is Some && start <= e.1.data->0 && e.1.data->0 < end {
                (e.0, Address { data: None, file: e.1.file, write: e.1.write })
            } else {
                e
            },
    )
}

/// The number of bytes a load of `size` bytes from the file offset `fa` finds.
pub open spec fn load_count(file_len: nat, fa: u64, size: u16) -> int {
    if fa >= file_len {
        0
    } else if file_len - fa < size {
        file_len - fa
    } else {
        size as int
    }
}

/// The cache after `size` bytes of the file from offset `fa` are loaded at `start`.
pub open spec fn loaded(data: Seq<u8>, file: Seq<u8>, fa: u64, start: u16, size: u16) -> Seq<u8> {
    let n = load_count(file.len(), fa, size);
    Seq::new(
        data.len(),
        |j: int|
            if start <= j < start + n {
                file[fa + (j - start)]
            } else {
                data[j]
            },
    )
}

/// Memory after the region at position `i` is cached, or why it cannot be.
pub open spec fn cached_view(v: RamView, i: int) -> Result<RamView, RamError> {
    match region_size(v, i) {
        Err(e) => Err(e),
        Ok(size) => {
            let (start, end) = slot(v.data_pos, size);
            let ev = evict(v.entries, start, end);
            let e = ev[i];
            Ok(
                RamView {
                    entries: ev.update(i, (e.0, Address { data: Some(start), file: e.1.file, write: e.1.write })),
                    data: loaded(v.data, v.file, e.1.file, start, size),
                    file: v.file,
                    offset: v.offset,
                    data_pos: end,
                    log: v.log,
                },
            )
        },
    }
}

/// Whether the region at address `c` is cached and holds `virt`.
pub open spec fn cached_contains(v: RamView, c: u64, virt: u64) -> Result<bool, RamError> {
    let i = pos_of(v, c);
    if !has_key(v.entries, c) || v.entries[i].1.data is None {
        Ok(false)
    } else {
        match region_size(v, i) {
            Err(e) => Err(e),
            Ok(size) => if c + size > u64::MAX {
                Err(RamError::RegionEndOverflow(c))
            } else {
                Ok(c <= virt && virt < c + size)
            },
        }
    }
}

/// The cached byte for `virt` in the region at address `c`.
pub open spec fn byte_at(v: RamView, c: u64, virt: u64) -> u8 {
    v.data[v.entries[pos_of(v, c)].1.data->0 + (virt - c)]
}

/// A read of `virt` from the first region at or after it, which is cached
/// first (printing a line that says so); nothing where there is none, or where
/// it is the region `cached`.
pub open spec fn read_nearest(v: RamView, virt: u64, cached: Option<u64>) -> (
    Result<Option<(u8, u64)>, RamError>,
    RamView,
) {
    let i = pos_of(v, virt);
    if i >= v.entries.len() {
        (Ok(None), v)
    } else {
        let k = v.entries[i].0;
        if cached == Some(k) {
            (Ok(None), v)
        } else {
            match cached_view(with_line(v, caching_line(k)), i) {
                Err(e) => (Err(e), with_line(v, caching_line(k))),
                Ok(w) => if virt < k {
                    (Err(RamError::AddressBeforeRegion(virt, k)), w)
                } else {
                    (Ok(Some((byte_at(w, k, virt), k))), w)
                },
            }
        }
    }
}

/// A read of `virt` given the region `cached` last read from, which first
/// prints a line that says what is read: the byte and the region it came
/// from, and memory after the read.
pub open spec fn read_result(v0: RamView, cached: Option<u64>, virt: u64) -> (
    Result<Option<(u8, u64)>, RamError>,
    RamView,
) {
    let v = with_line(v0, reading_line(virt, cached));
    match cached {
        Some(c) => match cached_contains(v, c, virt) {
            Err(e) => (Err(e), v),
            Ok(true) => (Ok(Some((byte_at(v, c, virt), c))), v),
            Ok(false) => read_nearest(v, virt, Some(c)),
        },
        None => read_nearest(v, virt, None),
    }
}

/// The cached region at position `i` lies inside the cache, on one side of the
/// next free position, and holds the bytes of the file it stands for.
pub open spec fn slot_ok(v: RamView, i: int) -> bool {
    let p = v.entries[i].1.data->0;
    let fa = v.entries[i].1.file;
    match region_size(v, i) {
        Err(_) => false,
        Ok(s) => {
            &&& p + s <= 0xFFFF
            &&& (p + s <= v.data_pos || p >= v.data_pos)
            &&& forall|j: int|
                0 <= j < s && fa + j < v.file.len() ==> #[trigger] v.data[p + j] == v.file[fa + j]
        },
    }
}

/// Memory is well formed: the regions are in order, the cache has its size,
/// and each cached region holds the bytes of the file it stands for.
pub open spec fn wf(v: RamView) -> bool {
    &&& keys_increasing(v.entries)
    &&& v.data.len() == 0xFFFF
    &&& forall|i: int| 0 <= i < v.entries.len() && v.entries[i].1.data is Some ==> slot_ok(v, i)
    &&& forall|i: int, j: int|
        0 <= i < v.entries.len() && 0 <= j < v.entries.len() && i != j ==> #[trigger] slots_disjoint(v, i, j)
}

/// Where the regions at positions `i` and `j` are both cached, their places
/// in the cache do not overlap.
pub open spec fn slots_disjoint(v: RamView, i: int, j: int) -> bool {
    v.entries[i].1.data is Some && v.entries[j].1.data is Some ==> {
        let pi = v.entries[i].1.data->0;
        let pj = v.entries[j].1.data->0;
        match (region_size(v, i), region_size(v, j)) {
            (Ok(si), Ok(sj)) => pi + si <= pj || pj + sj <= pi,
            _ => false,
        }
    }
}

/// The memory of the machine: the regions of the program, a cache of their
/// bytes, and the image of the program file they come from.
pub struct RAM {
    data: Vec<u8>,
    file: Vec<u8>,
    addrs: AddressMap,
    offset: u64,
    data_pos: u16,
    log: Vec<String>,
}

impl View for RAM {
    type V = RamView;

    closed spec fn view(&self) -> RamView {
        RamView {
            entries: self.addrs@,
            data: self.data@,
            file: self.file@,
            offset: self.offset,
            data_pos: self.data_pos,
            log: self.log@.map_values(|s: String| s@),
        }
    }
}

/// The text of the line printed when the region at address `k` is cached.
fn caching_text(k: u64) -> (ret: String)
    ensures
        ret@ == caching_line(k),
{
    let mut s = String::from_str("CACHING --- 0x");
    push_hex_digits(&mut s, k);
    s
}

/// The text of the line printed when `virt` is read, given the region `cached`.
fn reading_text(virt: u64, cached: Option<u64>) -> (ret: String)
    ensures
        ret@ == reading_line(virt, cached),
{
    let mut s = String::from_str("reading 0x");
    push_hex_digits(&mut s, virt);
    match cached {
        Some(c) => {
            s.append(" cached @ 0x");
            push_hex_digits(&mut s, c);
        },
        None => {
            s.append(" with no cache");
        },
    }
    s
}

impl RAM {
    /// Adds `line` to the lines printed.
    fn log_line(&mut self, line: String)
        ensures
            final(self)@ == with_line(old(self)@, line@),
            wf(final(self)@) == wf(old(self)@),
    {
        proof {
            lemma_with_line(self@, line@);
        }
        let ghost l0 = self.log@;
        self.log.push(line);
        assert(self.log@.map_values(|s: String| s@) =~= l0.map_values(|s: String| s@).push(line@));
    }

    /// Hands out the lines printed so far, oldest first, and forgets them.
    pub fn take_log(&mut self) -> (ret: Vec<String>)
        ensures
            ret@.map_values(|s: String| s@) == old(self)@.log,
            final(self)@ == (RamView { log: Seq::empty(), ..old(self)@ }),
    {
        let mut ret: Vec<String> = Vec::new();
        std::mem::swap(&mut ret, &mut self.log);
        assert(self@.log =~= Seq::<Seq<char>>::empty());
        ret
    }
}

impl RAM {
    fn get_file_addr_size(&self, virt_addr: u64) -> (ret: Result<u16, RamError>)
        requires
            keys_increasing(self@.entries),
            has_key(self@.entries, virt_addr),
        ensures
            ret == region_size(self@, pos_of(self@, virt_addr)),
    {
        proof {
            lemma_has_key(self@.entries, virt_addr);
        }
        let i = self.addrs.lower_bound(virt_addr);
        let n = self.addrs.len();
        let cur = self.addrs.entry(i).1.file;
        let size: u16;
        if i + 1 < n {
            let next = self.addrs.entry(i + 1).1.file;
            let possible = if next >= cur { next - cur } else { cur - next };
            if possible > 0xFFFF {
                return Err(RamError::CacheTooBig(virt_addr, self.data.len() as u64, possible));
            }
            size = possible as u16;
        } else {
            let len = self.file.len() as u64;
            if len < cur {
                return Err(RamError::RegionPastEnd(virt_addr));
            }
            if len - cur > 0xFFFF {
                return Err(RamError::RegionTooLarge(virt_addr));
            }
            size = (len - cur) as u16;
        }
        if size == 0 {
            return Err(RamError::ZeroSize);
        }
        Ok(size)
    }
}


/// Two sequences with the same keys place each key at the same position.
pub proof fn lemma_same_keys(s: Seq<(u64, Address)>, t: Seq<(u64, Address)>, k: u64)
    requires
        s.len() == t.len(),
        forall|x: int| 0 <= x < s.len() ==> s[x].0 == t[x].0,
    ensures
        first_at_least(s, k) == first_at_least(t, k),
        has_key(s, k) == has_key(t, k),
        keys_increasing(s) == keys_increasing(t),
    decreases s.len(),
{
    if s.len() > 0 {
        lemma_same_keys(s.drop_first(), t.drop_first(), k);
    }
    if has_key(s, k) {
        let i = choose|i: int| 0 <= i < s.len() && s[i].0 == k;
        assert(t[i].0 == k);
    }
    if has_key(t, k) {
        let i = choose|i: int| 0 <= i < t.len() && t[i].0 == k;
        assert(s[i].0 == k);
    }
}

/// Caching a region keeps memory well formed.
pub proof fn lemma_cached_view_wf(v: RamView, i: int)
    requires
        wf(v),
        0 <= i < v.entries.len(),
        cached_view(v, i) is Ok,
    ensures
        wf(cached_view(v, i)->Ok_0),
        cached_view(v, i)->Ok_0.entries.len() == v.entries.len(),
        forall|x: int|
            0 <= x < v.entries.len() ==> (#[trigger] cached_view(v, i)->Ok_0.entries[x]).0
                == v.entries[x].0 && cached_view(v, i)->Ok_0.entries[x].1.file == v.entries[x].1.file,
        cached_view(v, i)->Ok_0.file == v.file,
{
    let w = cached_view(v, i)->Ok_0;
    let size = region_size(v, i)->Ok_0;
    let (start, end) = slot(v.data_pos, size);
    let ev = evict(v.entries, start, end);
    let fa = v.entries[i].1.file;
    assert(w.entries.len() == v.entries.len());
    assert forall|x: int| 0 <= x < v.entries.len() implies (#[trigger] w.entries[x]).0
        == v.entries[x].0 && w.entries[x].1.file == v.entries[x].1.file by {
        assert(ev[x].0 == v.entries[x].0);
    }
    lemma_same_keys(v.entries, w.entries, 0);
    assert forall|x: int| 0 <= x < w.entries.len() implies region_size(w, x) == region_size(v, x) by {
        if x + 1 < w.entries.len() {
            assert(w.entries[x + 1].1.file == v.entries[x + 1].1.file);
        }
    }
    assert forall|x: int| 0 <= x < w.entries.len() && w.entries[x].1.data is Some implies slot_ok(w, x) by {
        let p = w.entries[x].1.data->0;
        let sx = region_size(w, x)->Ok_0;
        if x == i {
            assert(p == start);
            assert forall|j: int| 0 <= j < sx && fa + j < w.file.len() implies #[trigger] w.data[p + j]
                == w.file[fa + j] by {
                assert(j < load_count(v.file.len(), fa, size));
            }
        } else {
            assert(ev[x] == w.entries[x]);
            assert(v.entries[x].1.data == w.entries[x].1.data);
            assert(slot_ok(v, x));
            let fx = v.entries[x].1.file;
            assert(p < start || p >= end);
            assert forall|j: int| 0 <= j < sx && fx + j < w.file.len() implies #[trigger] w.data[p + j]
                == w.file[fx + j] by {
                assert(v.data[p + j] == v.file[fx + j]);
            }
        }
    }
    assert forall|x: int, y: int|
        0 <= x < w.entries.len() && 0 <= y < w.entries.len() && x != y implies #[trigger] slots_disjoint(
        w,
        x,
        y,
    ) by {
        if w.entries[x].1.data is Some && w.entries[y].1.data is Some {
            if x != i && y != i {
                assert(ev[x] == w.entries[x] && ev[y] == w.entries[y]);
                assert(v.entries[x].1.data == w.entries[x].1.data);
                assert(v.entries[y].1.data == w.entries[y].1.data);
                assert(slots_disjoint(v, x, y));
            } else {
                let o = if x == i { y } else { x };
                assert(ev[o] == w.entries[o]);
                assert(v.entries[o].1.data == w.entries[o].1.data);
                assert(slot_ok(v, o));
                let po = w.entries[o].1.data->0;
                assert(po < start || po >= end);
            }
        }
    }
}

impl RAM {
    fn load_from_file(&mut self, file_addr: u64, virt_addr: u64, data_addr: u16, size: u16)
        requires
            old(self)@.data.len() == 0xFFFF,
            data_addr + size <= 0xFFFF,
            keys_increasing(old(self)@.entries),
        ensures
            final(self)@.data == loaded(old(self)@.data, old(self)@.file, file_addr, data_addr, size),
            !has_key(old(self)@.entries, virt_addr) ==> final(self)@.entries == old(self)@.entries,
            has_key(old(self)@.entries, virt_addr) ==> final(self)@.entries == old(self)@.entries.update(
                pos_of(old(self)@, virt_addr),
                (
                    old(self)@.entries[pos_of(old(self)@, virt_addr)].0,
                    Address {
                        data: Some(data_addr),
                        file: old(self)@.entries[pos_of(old(self)@, virt_addr)].1.file,
                        write: old(self)@.entries[pos_of(old(self)@, virt_addr)].1.write,
                    },
                ),
            ),
            final(self)@.file == old(self)@.file,
            final(self)@.offset == old(self)@.offset,
            final(self)@.data_pos == old(self)@.data_pos,
            final(self)@.log == old(self)@.log,
    {
        let len = self.file.len() as u64;
        let n: u64 = if file_addr >= len {
            0
        } else if len - file_addr < size as u64 {
            len - file_addr
        } else {
            size as u64
        };
        assert(n == load_count(self.file@.len(), file_addr, size));
        assert(n > 0 ==> file_addr + n <= self.file@.len());
        let ghost d0 = self.data@;
        let ghost f0 = self.file@;
        let ghost a0 = self.addrs@;
        let ghost o0 = self.offset;
        let ghost p0 = self.data_pos;
        let ghost g0 = self.log@;
        let mut j: u64 = 0;
        while j < n
            invariant
                self.log@ == g0,
                self.file@ == f0,
                f0.len() == len,
                f0.len() <= usize::MAX,
                self.addrs@ == a0,
                self.offset == o0,
                self.data_pos == p0,
                keys_increasing(a0),
                j <= n,
                n <= size,
                n > 0 ==> file_addr + n <= self.file@.len(),
                data_addr + size <= 0xFFFF,
                self.data@.len() == d0.len(),
                d0.len() == 0xFFFF,
                forall|x: int|
                    0 <= x < d0.len() ==> #[trigger] self.data@[x] == if data_addr <= x < data_addr + j {
                        self.file@[file_addr + (x - data_addr)]
                    } else {
                        d0[x]
                    },
            decreases n - j,
        {
            assert(file_addr + j < self.file@.len());
            let fi = (file_addr + j) as usize;
            let di = (data_addr as u64 + j) as usize;
            let b = self.file[fi];
            assert(b == self.file@[file_addr + j]);
            self.data.set(di, b);
            j += 1;
        }
        assert(self.data@ =~= loaded(d0, self.file@, file_addr, data_addr, size));
        proof {
            lemma_has_key(self.addrs@, virt_addr);
        }
        if let Some(a) = self.addrs.get(virt_addr) {
            let cached = Address { data: Some(data_addr), file: a.file, write: a.write };
            self.addrs.insert(virt_addr, cached);
        }
    }

    fn cache_data(&mut self, virt_addr: u64) -> (ret: Result<(), RamError>)
        requires
            wf(old(self)@),
            has_key(old(self)@.entries, virt_addr),
        ensures
            match cached_view(with_line(old(self)@, caching_line(virt_addr)), pos_of(old(self)@, virt_addr)) {
                Err(e) => ret == Err::<(), RamError>(e) && final(self)@ == with_line(
                    old(self)@,
                    caching_line(virt_addr),
                ),
                Ok(w) => ret == Ok::<(), RamError>(()) && final(self)@ == w,
            },
    {
        self.log_line(caching_text(virt_addr));
        let ghost v = self@;
        let ghost i = pos_of(self@, virt_addr);
        let size = match self.get_file_addr_size(virt_addr) {
            Ok(s) => s,
            Err(e) => return Err(e),
        };
        let (start, end) = if 0xFFFF - self.data_pos > size {
            (self.data_pos, self.data_pos + size)
        } else {
            (0, size)
        };
        self.data_pos = end;
        let ghost e0 = self.addrs@;
        let ghost log0 = self.log@;
        let n = self.addrs.len();
        let mut k: usize = 0;
        while k < n
            invariant
                self.data@ == v.data,
                self.file@ == v.file,
                self.offset == v.offset,
                self.log@ == log0,
                self.data_pos == end,
                n == e0.len(),
                k <= n,
                keys_increasing(self.addrs@),
                self.addrs@.len() == e0.len(),
                forall|x: int| 0 <= x < k ==> self.addrs@[x] == evict(e0, start, end)[x],
                forall|x: int| k <= x < e0.len() ==> self.addrs@[x] == e0[x],
            decreases e0.len() - k,
        {
            let e = self.addrs.entry(k);
            if let Some(d) = e.1.data {
                if d >= start && d < end {
                    proof {
                        lemma_pos_of_key(self.addrs@, k as int);
                    }
                    self.addrs.insert(e.0, Address { data: None, file: e.1.file, write: e.1.write });
                }
            }
            k += 1;
        }
        assert(self.addrs@ =~= evict(e0, start, end));
        proof {
            lemma_same_keys(e0, self.addrs@, virt_addr);
        }
        proof {
            lemma_has_key(self.addrs@, virt_addr);
        }
        let j = self.addrs.lower_bound(virt_addr);
        let file_addr = self.addrs.entry(j).1.file;
        self.load_from_file(file_addr, virt_addr, start, size);
        assert(self@.entries =~= cached_view(v, i)->Ok_0.entries);
        Ok(())
    }
}


/// In a sequence with increasing keys, the key at position `i` is found at `i`.
pub proof fn lemma_pos_of_key(s: Seq<(u64, Address)>, i: int)
    requires
        keys_increasing(s),
        0 <= i < s.len(),
    ensures
        first_at_least(s, s[i].0) == i,
        has_key(s, s[i].0),
{
    lemma_first_at_least(s, s[i].0, i);
}

impl RAM {
    fn read_unchecked(&self, cached_virt_addr: u64, virt_addr: u64) -> (ret: Result<u8, RamError>)
        requires
            wf(self@),
            has_key(self@.entries, cached_virt_addr),
            self@.entries[pos_of(self@, cached_virt_addr)].1.data is Some,
            virt_addr >= cached_virt_addr ==> self@.entries[pos_of(self@, cached_virt_addr)].1.data->0
                + (virt_addr - cached_virt_addr) < 0xFFFF,
        ensures
            ret == if virt_addr < cached_virt_addr {
                Err::<u8, RamError>(RamError::AddressBeforeRegion(virt_addr, cached_virt_addr))
            } else {
                Ok::<u8, RamError>(byte_at(self@, cached_virt_addr, virt_addr))
            },
    {
        let i = self.addrs.lower_bound(cached_virt_addr);
        proof {
            lemma_has_key(self@.entries, cached_virt_addr);
        }
        let data_idx = self.addrs.entry(i).1.data.unwrap();
        if virt_addr < cached_virt_addr {
            return Err(RamError::AddressBeforeRegion(virt_addr, cached_virt_addr));
        }
        let addr = virt_addr - cached_virt_addr;
        let data_byte = (data_idx as u64 + addr) as usize;
        Ok(self.data[data_byte])
    }

    fn try_get_nearest_virt_addr(&self, virt_addr: u64) -> (ret: Option<u64>)
        ensures
            ret == if pos_of(self@, virt_addr) < self@.entries.len() {
                Some(self@.entries[pos_of(self@, virt_addr)].0)
            } else {
                None::<u64>
            },
    {
        let i = self.addrs.lower_bound(virt_addr);
        if i < self.addrs.len() {
            Some(self.addrs.entry(i).0)
        } else {
            None
        }
    }

    fn try_get_nearest_virt_data(&mut self, virt_addr: u64, cached_virt_addr: Option<u64>) -> (ret:
        Result<Option<(u8, u64)>, RamError>)
        requires
            wf(old(self)@),
        ensures
            (ret, final(self)@) == read_nearest(old(self)@, virt_addr, cached_virt_addr),
            wf(final(self)@),
    {
        let ghost v = self@;
        let ghost i = pos_of(v, virt_addr);
        let new_cached = self.try_get_nearest_virt_addr(virt_addr);
        if let Some(new_cached_virt_addr) = new_cached {
            if let Some(c) = cached_virt_addr {
                if new_cached_virt_addr == c {
                    return Ok(None);
                }
            }
            proof {
                lemma_has_key(v.entries, virt_addr);
                lemma_pos_of_key(v.entries, i);
                lemma_with_line(v, caching_line(new_cached_virt_addr));
            }
            match self.cache_data(new_cached_virt_addr) {
                Err(e) => {
                    return Err(e);
                },
                Ok(()) => {},
            }
            proof {
                lemma_cached_view_wf(with_line(v, caching_line(new_cached_virt_addr)), i);
                lemma_same_keys(v.entries, self@.entries, new_cached_virt_addr);
                let size = region_size(v, i)->Ok_0;
                assert(region_size(self@, i) == region_size(v, i));
                assert(slot_ok(self@, i));
            }
            let data = match self.read_unchecked(new_cached_virt_addr, virt_addr) {
                Err(e) => {
                    return Err(e);
                },
                Ok(d) => d,
            };
            return Ok(Some((data, new_cached_virt_addr)));
        }
        Ok(None)
    }

    fn cached_addr_contains_addr(&self, cached_virt_addr: u64, virt_addr: u64) -> (ret: Result<
        bool,
        RamError,
    >)
        requires
            keys_increasing(self@.entries),
        ensures
            ret == cached_contains(self@, cached_virt_addr, virt_addr),
    {
        proof {
            lemma_has_key(self@.entries, cached_virt_addr);
        }
        let i = self.addrs.lower_bound(cached_virt_addr);
        if !(i < self.addrs.len() && self.addrs.entry(i).0 == cached_virt_addr)
            || self.addrs.entry(i).1.data.is_none() {
            return Ok(false);
        }
        let cache_size = match self.get_file_addr_size(cached_virt_addr) {
            Ok(s) => s as u64,
            Err(e) => {
                return Err(e);
            },
        };
        if cached_virt_addr > u64::MAX - cache_size {
            return Err(RamError::RegionEndOverflow(cached_virt_addr));
        }
        Ok(cached_virt_addr <= virt_addr && virt_addr < cached_virt_addr + cache_size)
    }

    fn try_read_cached(&self, cached_virt_addr: u64, virt_addr: u64) -> (ret: Result<Option<u8>, RamError>)
        requires
            wf(self@),
        ensures
            ret == match cached_contains(self@, cached_virt_addr, virt_addr) {
                Err(e) => Err::<Option<u8>, RamError>(e),
                Ok(true) => Ok::<Option<u8>, RamError>(Some(byte_at(self@, cached_virt_addr, virt_addr))),
                Ok(false) => Ok::<Option<u8>, RamError>(None),
            },
    {
        match self.cached_addr_contains_addr(cached_virt_addr, virt_addr) {
            Err(e) => Err(e),
            Ok(true) => {
                proof {
                    lemma_has_key(self@.entries, cached_virt_addr);
                    assert(slot_ok(self@, pos_of(self@, cached_virt_addr)));
                }
                match self.read_unchecked(cached_virt_addr, virt_addr) {
                    Ok(b) => Ok(Some(b)),
                    Err(e) => Err(e),
                }
            },
            Ok(false) => Ok(None),
        }
    }

    /// Reads the byte at `virt_addr`, given the region `cached_virt_addr` last
    /// read from. It comes from that region where it holds the address and is
    /// still cached; else from the first region at or after the address, which
    /// is cached first. Returns the byte and the region, or nothing where no
    /// region follows the address or the one found is `cached_virt_addr`.
    pub fn read(&mut self, cached_virt_addr: Option<u64>, virt_addr: u64) -> (ret: Result<
        Option<(u8, u64)>,
        RamError,
    >)
        requires
            wf(old(self)@),
        ensures
            (ret, final(self)@) == read_result(old(self)@, cached_virt_addr, virt_addr),
            wf(final(self)@),
    {
        self.log_line(reading_text(virt_addr, cached_virt_addr));
        if let Some(c) = cached_virt_addr {
            match self.try_read_cached(c, virt_addr) {
                Err(e) => Err(e),
                Ok(Some(data)) => Ok(Some((data, c))),
                Ok(None) => self.try_get_nearest_virt_data(virt_addr, Some(c)),
            }
        } else {
            self.try_get_nearest_virt_data(virt_addr, None)
        }
    }
}


/// Whether `b`, read at `virt` from the region at address `k`, is what the
/// program file holds there: the region starts at or below `virt` and reaches
/// past it, and where the file is long enough, `b` is the file's byte at the
/// region's offset plus the distance from `k` to `virt`.
pub open spec fn is_file_byte(v: RamView, k: u64, virt: u64, b: u8) -> bool {
    let i = pos_of(v, k);
    let fa = v.entries[i].1.file;
    &&& has_key(v.entries, k)
    &&& k <= virt
    &&& region_size(v, i) matches Ok(s) && virt < k + s
    &&& fa + (virt - k) < v.file.len() ==> b == v.file[fa + (virt - k)]
}

/// Printing a line leaves the regions, the cache and the file as they were:
/// the sizes of the regions, whether memory is well formed, and which bytes are
/// the file's, stay as they were.
pub proof fn lemma_with_line(v: RamView, line: Seq<char>)
    ensures
        forall|i: int| region_size(#[trigger] with_line(v, line), i) == region_size(v, i),
        wf(with_line(v, line)) == wf(v),
        forall|k: u64, virt: u64, b: u8| is_file_byte(#[trigger] with_line(v, line), k, virt, b) == is_file_byte(v, k, virt, b),
{
    let w = with_line(v, line);
    assert forall|i: int| region_size(#[trigger] with_line(v, line), i) == region_size(v, i) by {}
    assert forall|i: int| slot_ok(w, i) == slot_ok(v, i) by {}
    assert forall|i: int, j: int| slots_disjoint(w, i, j) == slots_disjoint(v, i, j) by {}
    assert(wf(w) == wf(v));
}

/// A read from well formed memory gives an address inside the region it names
/// and, where the file is long enough to hold it, the byte the program file
/// holds at that address; it leaves the regions' addresses and file offsets and the file as
/// they were, and leaves memory well formed.
pub proof fn lemma_read_returns_file_byte(v: RamView, cached: Option<u64>, virt: u64)
    requires
        wf(v),
    ensures
        read_result(v, cached, virt).0 matches Ok(Some((b, k))) ==> is_file_byte(v, k, virt, b),
        wf(read_result(v, cached, virt).1),
        read_result(v, cached, virt).1.file == v.file,
        read_result(v, cached, virt).1.entries.len() == v.entries.len(),
        forall|x: int|
            0 <= x < v.entries.len() ==> (#[trigger] read_result(v, cached, virt).1.entries[x]).0
                == v.entries[x].0 && read_result(v, cached, virt).1.entries[x].1.file
                == v.entries[x].1.file,
{
    let v0 = v;
    lemma_with_line(v0, reading_line(virt, cached));
    let v = with_line(v0, reading_line(virt, cached));
    let i = pos_of(v, virt);
    if let Some(c) = cached {
        if cached_contains(v, c, virt) == Ok::<bool, RamError>(true) {
            lemma_has_key(v.entries, c);
            let ic = pos_of(v, c);
            assert(slot_ok(v, ic));
            let fa = v.entries[ic].1.file;
            let p = v.entries[ic].1.data->0;
            let j = virt - c;
            if fa + j < v.file.len() {
                assert(v.data[p + j] == v.file[fa + j]);
            }
            return;
        }
    }
    lemma_has_key(v.entries, virt);
    if i < v.entries.len() {
        let k = v.entries[i].0;
        let u = with_line(v, caching_line(k));
        lemma_with_line(v, caching_line(k));
        if cached != Some(k) && cached_view(u, i) is Ok {
            lemma_pos_of_key(v.entries, i);
            lemma_cached_view_wf(u, i);
            let w = cached_view(u, i)->Ok_0;
            lemma_same_keys(v.entries, w.entries, k);
            assert(region_size(w, i) == region_size(v, i));
            assert(slot_ok(w, i));
            if virt >= k {
                let fa = v.entries[i].1.file;
                let p = w.entries[i].1.data->0;
                if fa < v.file.len() {
                    assert(w.data[p + 0] == w.file[fa + 0]);
                }
            }
        }
    }
}


/// The regions read from a file are none of them cached.
pub proof fn lemma_parsed_uncached(f: Seq<u8>, n: nat)
    ensures
        forall|i: int| 0 <= i < parsed(f, n).len() ==> (#[trigger] parsed(f, n)[i]).1.data is None,
    decreases n,
{
    if n > 0 {
        lemma_parsed_uncached(f, (n - 1) as nat);
        let s = parsed(f, (n - 1) as nat);
        let at = 8 + 8 * (n - 1);
        let k = le_u32(f, at) as u64;
        let a = Address { data: None, file: le_u32(f, at + 4) as u64, write: false };
        let p = first_at_least(s, k) as int;
        lemma_first_at_least_le(s, k);
        assert(parsed(f, n) == insert_entry(s, k, a));
        assert forall|i: int| 0 <= i < parsed(f, n).len() implies (#[trigger] parsed(f, n)[i]).1.data is None by {
            if p < s.len() && s[p].0 == k {
                if i != p {
                    assert(parsed(f, n)[i] == s[i]);
                }
            } else {
                if i < p {
                    assert(parsed(f, n)[i] == s[i]);
                } else if i > p {
                    assert(parsed(f, n)[i] == s[i - 1]);
                }
            }
        }
    }
}

impl RAM {
    /// Memory for the program file whose bytes are `file`: the regions its
    /// header lists, none of them cached, and an empty cache; or why the file
    /// cannot be loaded. The offset is where the file's contents follow the
    /// list of regions.
    pub fn new(file: Vec<u8>) -> (ret: Result<Self, InitError>)
        ensures
            ret is Ok <==> header_ok(file@) && regions_complete(file@),
            !header_ok(file@) ==> ret is Err && ret->Err_0 is InvalidFile,
            header_ok(file@) && !regions_complete(file@) ==> ret is Err && ret->Err_0 is CorruptedFile,
            ret matches Ok(r) ==> {
                &&& r@.entries == parsed(file@, region_count(file@))
                &&& r@.file == file@
                &&& r@.data == Seq::new(0xFFFF, |i: int| 0u8)
                &&& r@.data_pos == 0
                &&& r@.offset == 8 + 8 * region_count(file@)
                &&& wf(r@)
            },
    {
        let addrs = match qemu::read(file.as_slice()) {
            Ok(a) => a,
            Err(e) => {
                return Err(e);
            },
        };
        let offset = 8 + 8 * file[4] as u64;
        proof {
            lemma_parsed_uncached(file@, region_count(file@));
        }
        let data = vec![0u8; 0xFFFF];
        assert(data@ =~= Seq::new(0xFFFF, |i: int| 0u8));
        let ram = RAM { data, file, addrs, offset, data_pos: 0, log: Vec::new() };
        assert(ram@.log =~= Seq::<Seq<char>>::empty());
        Ok(ram)
    }
}


/// After a read from well formed memory, the places in the cache of any two
/// cached regions do not overlap.
pub proof fn lemma_read_keeps_cache_disjoint(v: RamView, cached: Option<u64>, virt: u64)
    requires
        wf(v),
    ensures
        forall|i: int, j: int|
            0 <= i < read_result(v, cached, virt).1.entries.len() && 0 <= j < read_result(
                v,
                cached,
                virt,
            ).1.entries.len() && i != j ==> #[trigger] slots_disjoint(read_result(v, cached, virt).1, i, j),
{
    lemma_read_returns_file_byte(v, cached, virt);
}

} // verus!
