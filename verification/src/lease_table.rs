//! The table of leases: at most one lease per hardware address.

use vstd::prelude::*;

use crate::text;

verus! {

/// A lease of one address.
#[derive(Clone, Copy, PartialEq, Eq, Structural, Debug)]
pub struct Lease {
    pub ip: u32,
    /// Unix second at which the lease ends.
    pub expires_unix: u64,
    /// Whether the client has confirmed it.
    pub acked: bool,
}

/// One line of the table.
pub struct LeaseEntry {
    pub mac: String,
    pub lease: Lease,
}

/// Leases by hardware address.
pub struct LeaseTable {
    entries: Vec<LeaseEntry>,
}

spec fn distinct(s: Seq<LeaseEntry>) -> bool {
    forall|i: int, j: int| 0 <= i < j < s.len() ==> (#[trigger] s[i]).mac@ != (#[trigger] s[j]).mac@
}

spec fn map_of(s: Seq<LeaseEntry>) -> Map<Seq<char>, Lease>
    decreases s.len(),
{
    if s.len() == 0 {
        Map::empty()
    } else {
        map_of(s.drop_last()).insert(s.last().mac@, s.last().lease)
    }
}

proof fn lemma_map_of(s: Seq<LeaseEntry>)
    requires
        distinct(s),
    ensures
        map_of(s).dom().finite(),
        map_of(s).len() == s.len(),
        forall|m: Seq<char>| #[trigger]
            map_of(s).contains_key(m) ==> exists|i: int| 0 <= i < s.len() && #[trigger] s[i].mac@ == m,
        forall|i: int|
            0 <= i < s.len() ==> map_of(s).contains_key(#[trigger] s[i].mac@) && map_of(s)[s[i].mac@]
                == s[i].lease,
    decreases s.len(),
{
    if s.len() > 0 {
        let t = s.drop_last();
        assert(distinct(t)) by {
            assert forall|i: int, j: int| 0 <= i < j < t.len() implies (#[trigger] t[i]).mac@ != (
            #[trigger] t[j]).mac@ by {
                assert(s[i].mac@ != s[j].mac@);
            }
        }
        lemma_map_of(t);
        assert(!map_of(t).contains_key(s.last().mac@)) by {
            if map_of(t).contains_key(s.last().mac@) {
                let i = choose|i: int| 0 <= i < t.len() && #[trigger] t[i].mac@ == s.last().mac@;
                assert(s[i].mac@ != s[s.len() - 1].mac@);
            }
        }
        assert forall|m: Seq<char>| #[trigger] map_of(s).contains_key(m) implies exists|i: int|
            0 <= i < s.len() && #[trigger] s[i].mac@ == m by {
            if m == s.last().mac@ {
                assert(s[s.len() - 1].mac@ == m);
            } else {
                let i = choose|i: int| 0 <= i < t.len() && #[trigger] t[i].mac@ == m;
                assert(s[i].mac@ == m);
            }
        }
        assert forall|i: int| 0 <= i < s.len() implies map_of(s).contains_key(#[trigger] s[i].mac@)
            && map_of(s)[s[i].mac@] == s[i].lease by {
            if i < s.len() - 1 {
                assert(t[i].mac@ == s[i].mac@);
                assert(s[i].mac@ != s[s.len() - 1].mac@);
            }
        }
    }
}

/// Some hardware address other than `mac` (letter case aside) holds `ip`.
pub open spec fn held_elsewhere(t: Map<Seq<char>, Lease>, mac: Seq<char>, ip: u32) -> bool {
    exists|m: Seq<char>|
        #![trigger t.contains_key(m)]
        t.contains_key(m) && t[m].ip == ip && !text::same_letters(m, mac)
}

/// Some hardware address holds `ip`.
pub open spec fn held(t: Map<Seq<char>, Lease>, ip: u32) -> bool {
    exists|m: Seq<char>| #![trigger t.contains_key(m)] t.contains_key(m) && t[m].ip == ip
}

/// `snap` lists every lease of `t` exactly once.
pub open spec fn lists(snap: Seq<(String, u32, u64)>, t: Map<Seq<char>, Lease>) -> bool {
    &&& snap.len() == t.len()
    &&& forall|i: int, j: int|
        0 <= i < j < snap.len() ==> (#[trigger] snap[i]).0@ != (#[trigger] snap[j]).0@
    &&& forall|i: int|
        0 <= i < snap.len() ==> t.contains_key((#[trigger] snap[i]).0@) && t[snap[i].0@].ip
            == snap[i].1 && t[snap[i].0@].expires_unix == snap[i].2
    &&& forall|m: Seq<char>| #[trigger]
        t.contains_key(m) ==> exists|i: int| 0 <= i < snap.len() && (#[trigger] snap[i]).0@ == m
}

impl View for LeaseTable {
    type V = Map<Seq<char>, Lease>;

    closed spec fn view(&self) -> Map<Seq<char>, Lease> {
        map_of(self.entries@)
    }
}

impl LeaseTable {
    /// No hardware address has two lines.
    pub closed spec fn wf(&self) -> bool {
        distinct(self.entries@)
    }

    pub fn new() -> (r: Self)
        ensures
            r.wf(),
            r@ == Map::<Seq<char>, Lease>::empty(),
    {
        LeaseTable { entries: Vec::new() }
    }

    /// Number of leases.
    pub fn len(&self) -> (r: usize)
        requires
            self.wf(),
        ensures
            self@.dom().finite(),
            r == self@.len(),
    {
        proof {
            lemma_map_of(self.entries@);
        }
        self.entries.len()
    }

    fn position(&self, mac: &str) -> (r: Option<usize>)
        requires
            self.wf(),
        ensures
            match r {
                Some(i) => i < self.entries@.len() && self.entries@[i as int].mac@ == mac@
                    && self@.contains_key(mac@) && self@[mac@] == self.entries@[i as int].lease,
                None => !self@.contains_key(mac@) && forall|i: int|
                    0 <= i < self.entries@.len() ==> (#[trigger] self.entries@[i]).mac@ != mac@,
            },
    {
        proof {
            lemma_map_of(self.entries@);
        }
        let mut i: usize = 0;
        while i < self.entries.len()
            invariant
                self.wf(),
                i <= self.entries@.len(),
                forall|j: int| 0 <= j < i ==> (#[trigger] self.entries@[j]).mac@ != mac@,
            decreases self.entries@.len() - i,
        {
            if text::same(self.entries[i].mac.as_str(), mac) {
                proof {
                    lemma_map_of(self.entries@);
                    assert(self.entries@[i as int].mac@ == mac@);
                }
                return Some(i);
            }
            i = i + 1;
        }
        None
    }

    /// The lease of a hardware address.
    pub fn get(&self, mac: &str) -> (r: Option<Lease>)
        requires
            self.wf(),
        ensures
            match r {
                Some(l) => self@.contains_key(mac@) && self@[mac@] == l,
                None => !self@.contains_key(mac@),
            },
    {
        match self.position(mac) {
            Some(i) => Some(self.entries[i].lease),
            None => None,
        }
    }

    /// Sets the lease of a hardware address.
    pub fn put(&mut self, mac: &str, lease: Lease)
        requires
            old(self).wf(),
        ensures
            final(self).wf(),
            final(self)@ == old(self)@.insert(mac@, lease),
    {
        let ghost s0 = self.entries@;
        match self.position(mac) {
            Some(i) => {
                let key: String = self.entries[i].mac.clone();
                self.entries.set(i, LeaseEntry { mac: key, lease });
                let ghost s1 = self.entries@;
                proof {
                    assert(distinct(s1)) by {
                        assert forall|a: int, b: int| 0 <= a < b < s1.len() implies (
                        #[trigger] s1[a]).mac@ != (#[trigger] s1[b]).mac@ by {
                            assert(s0[a].mac@ != s0[b].mac@);
                        }
                    }
                    lemma_map_of(s0);
                    lemma_map_of(s1);
                    let want = map_of(s0).insert(mac@, lease);
                    assert forall|m: Seq<char>| map_of(s1).contains_key(m) <==> #[trigger]
                        want.contains_key(m) by {
                        if map_of(s1).contains_key(m) {
                            let k = choose|k: int| 0 <= k < s1.len() && #[trigger] s1[k].mac@ == m;
                            assert(s0[k].mac@ == m);
                        }
                        if want.contains_key(m) {
                            if m == mac@ {
                                assert(s1[i as int].mac@ == m);
                            } else {
                                let k = choose|k: int|
                                    0 <= k < s0.len() && #[trigger] s0[k].mac@ == m;
                                assert(s1[k].mac@ == m);
                            }
                        }
                    }
                    assert forall|m: Seq<char>| #[trigger] want.contains_key(m) implies map_of(s1)[m]
                        == want[m] by {
                        let k = choose|k: int| 0 <= k < s1.len() && #[trigger] s1[k].mac@ == m;
                        if k != i {
                            assert(s0[k].mac@ == m);
                            if m == mac@ {
                                assert(s0[k].mac@ == s0[i as int].mac@);
                                assert(k < i || i < k);
                            }
                        }
                    }
                    assert(map_of(s1) =~= want);
                }
            },
            None => {
                self.entries.push(LeaseEntry { mac: mac.to_owned(), lease });
                let ghost s1 = self.entries@;
                proof {
                    assert(s1.drop_last() == s0);
                    assert(distinct(s1));
                }
            },
        }
    }

    /// Takes a hardware address out of the table; tells whether it was there.
    pub fn remove(&mut self, mac: &str) -> (r: bool)
        requires
            old(self).wf(),
        ensures
            final(self).wf(),
            r == old(self)@.contains_key(mac@),
            final(self)@ == old(self)@.remove(mac@),
    {
        let ghost s0 = self.entries@;
        match self.position(mac) {
            Some(i) => {
                let _gone = self.entries.remove(i);
                let ghost s1 = self.entries@;
                proof {
                    assert forall|a: int| 0 <= a < s1.len() implies #[trigger] s1[a] == s0[if a < i {
                        a
                    } else {
                        a + 1
                    }] by {}
                    assert(distinct(s1)) by {
                        assert forall|a: int, b: int| 0 <= a < b < s1.len() implies (
                        #[trigger] s1[a]).mac@ != (#[trigger] s1[b]).mac@ by {
                            let a0 = if a < i { a } else { a + 1 };
                            let b0 = if b < i { b } else { b + 1 };
                            assert(s0[a0].mac@ != s0[b0].mac@);
                        }
                    }
                    lemma_map_of(s0);
                    lemma_map_of(s1);
                    let want = map_of(s0).remove(mac@);
                    assert forall|m: Seq<char>| map_of(s1).contains_key(m) <==> #[trigger]
                        want.contains_key(m) by {
                        if map_of(s1).contains_key(m) {
                            let k = choose|k: int| 0 <= k < s1.len() && #[trigger] s1[k].mac@ == m;
                            let k0 = if k < i { k } else { k + 1 };
                            assert(s0[k0].mac@ == m);
                            assert(k0 != i);
                            assert(s0[k0].mac@ != s0[i as int].mac@) by {
                                if k0 < i {
                                } else {
                                }
                            }
                        }
                        if want.contains_key(m) {
                            let k0 = choose|k: int| 0 <= k < s0.len() && #[trigger] s0[k].mac@ == m;
                            assert(k0 != i);
                            let k = if k0 < i { k0 } else { k0 - 1 };
                            assert(s1[k].mac@ == m);
                        }
                    }
                    assert forall|m: Seq<char>| #[trigger] want.contains_key(m) implies map_of(s1)[m]
                        == want[m] by {
                        let k = choose|k: int| 0 <= k < s1.len() && #[trigger] s1[k].mac@ == m;
                        let k0 = if k < i { k } else { k + 1 };
                        assert(s0[k0].mac@ == m);
                    }
                    assert(map_of(s1) =~= want);
                }
                true
            },
            None => {
                assert(self@.remove(mac@) =~= self@);
                false
            },
        }
    }

    /// Whether a hardware address other than `mac` (letter case aside) holds `ip`.
    pub fn held_by_other(&self, mac: &str, ip: u32) -> (r: bool)
        requires
            self.wf(),
        ensures
            r == held_elsewhere(self@, mac@, ip),
    {
        proof {
            lemma_map_of(self.entries@);
        }
        let mut i: usize = 0;
        while i < self.entries.len()
            invariant
                self.wf(),
                i <= self.entries@.len(),
                forall|j: int|
                    0 <= j < i ==> !((#[trigger] self.entries@[j]).lease.ip == ip
                        && !text::same_letters(self.entries@[j].mac@, mac@)),
            decreases self.entries@.len() - i,
        {
            if self.entries[i].lease.ip == ip && !text::eq_ignore_ascii_case(
                self.entries[i].mac.as_str(),
                mac,
            ) {
                proof {
                    lemma_map_of(self.entries@);
                    assert(self@.contains_key(self.entries@[i as int].mac@));
                }
                return true;
            }
            i = i + 1;
        }
        proof {
            lemma_map_of(self.entries@);
            assert forall|m: Seq<char>| #[trigger] self@.contains_key(m) implies !(self@[m].ip == ip
                && !text::same_letters(m, mac@)) by {
                let k = choose|k: int|
                    0 <= k < self.entries@.len() && #[trigger] self.entries@[k].mac@ == m;
                assert(self@[self.entries@[k].mac@] == self.entries@[k].lease);
            }
        }
        false
    }

    /// Whether any hardware address holds `ip`.
    pub fn holds(&self, ip: u32) -> (r: bool)
        requires
            self.wf(),
        ensures
            r == held(self@, ip),
    {
        let mut i: usize = 0;
        while i < self.entries.len()
            invariant
                self.wf(),
                i <= self.entries@.len(),
                forall|j: int| 0 <= j < i ==> (#[trigger] self.entries@[j]).lease.ip != ip,
            decreases self.entries@.len() - i,
        {
            if self.entries[i].lease.ip == ip {
                proof {
                    lemma_map_of(self.entries@);
                    assert(self@.contains_key(self.entries@[i as int].mac@));
                }
                return true;
            }
            i = i + 1;
        }
        proof {
            lemma_map_of(self.entries@);
            assert forall|m: Seq<char>| #[trigger] self@.contains_key(m) implies self@[m].ip != ip by {
                let k = choose|k: int|
                    0 <= k < self.entries@.len() && #[trigger] self.entries@[k].mac@ == m;
                assert(self@[self.entries@[k].mac@] == self.entries@[k].lease);
            }
        }
        false
    }

    /// All leases: hardware address, address, end.
    pub fn snapshot(&self) -> (r: Vec<(String, u32, u64)>)
        requires
            self.wf(),
        ensures
            lists(r@, self@),
    {
        let mut out: Vec<(String, u32, u64)> = Vec::new();
        let mut i: usize = 0;
        while i < self.entries.len()
            invariant
                i <= self.entries@.len(),
                out@.len() == i,
                forall|j: int|
                    0 <= j < i ==> (#[trigger] out@[j]).0@ == self.entries@[j].mac@ && out@[j].1
                        == self.entries@[j].lease.ip && out@[j].2
                        == self.entries@[j].lease.expires_unix,
            decreases self.entries@.len() - i,
        {
            let e: &LeaseEntry = &self.entries[i];
            out.push((e.mac.clone(), e.lease.ip, e.lease.expires_unix));
            i = i + 1;
        }
        proof {
            lemma_map_of(self.entries@);
            let t = self@;
            let s = self.entries@;
            assert forall|a: int, b: int| 0 <= a < b < out@.len() implies (#[trigger] out@[a]).0@ != (
            #[trigger] out@[b]).0@ by {
                assert(s[a].mac@ != s[b].mac@);
            }
            assert forall|k: int| 0 <= k < out@.len() implies t.contains_key((#[trigger] out@[k]).0@)
                && t[out@[k].0@].ip == out@[k].1 && t[out@[k].0@].expires_unix == out@[k].2 by {
                assert(t.contains_key(s[k].mac@));
            }
            assert forall|m: Seq<char>| #[trigger] t.contains_key(m) implies exists|k: int|
                0 <= k < out@.len() && (#[trigger] out@[k]).0@ == m by {
                let k = choose|k: int| 0 <= k < s.len() && #[trigger] s[k].mac@ == m;
                assert(out@[k].0@ == m);
            }
        }
        out
    }
}

} // verus!
