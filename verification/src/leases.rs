//! Leases as they are stored between sessions.

use vstd::prelude::*;

use crate::dhcp;
use crate::net;

verus! {

/// One stored lease.
pub struct LeaseRecord {
    pub mac: String,
    pub ip: String,
    /// End of the lease in Unix seconds.
    pub expires_unix: u64,
}

/// What a stored lease says.
pub struct LeaseRecordV {
    pub mac: Seq<char>,
    pub ip: Seq<char>,
    pub expires_unix: u64,
}

impl View for LeaseRecord {
    type V = LeaseRecordV;

    open spec fn view(&self) -> LeaseRecordV {
        LeaseRecordV { mac: self.mac@, ip: self.ip@, expires_unix: self.expires_unix }
    }
}

/// All stored leases.
pub struct LeaseFile {
    pub leases: Vec<LeaseRecord>,
}

impl View for LeaseFile {
    type V = Seq<LeaseRecordV>;

    open spec fn view(&self) -> Seq<LeaseRecordV> {
        self.leases@.map_values(|r: LeaseRecord| r@)
    }
}

impl Default for LeaseFile {
    /// No leases.
    fn default() -> (r: Self)
        ensures
            r@ == Seq::<LeaseRecordV>::empty(),
    {
        let r = LeaseFile { leases: Vec::new() };
        assert(r@ =~= Seq::<LeaseRecordV>::empty());
        r
    }
}

/// What is stored of a lease.
pub open spec fn stored(r: (Seq<char>, u32, u64)) -> LeaseRecordV {
    LeaseRecordV { mac: r.0, ip: net::ip_text(r.1), expires_unix: r.2 }
}

/// What is stored of some leases.
pub open spec fn stored_all(v: Seq<(Seq<char>, u32, u64)>) -> Seq<LeaseRecordV> {
    v.map_values(|r: (Seq<char>, u32, u64)| stored(r))
}

/// The leases that can be read from a store: records whose address is none are left out.
pub open spec fn readable(file: Seq<LeaseRecordV>) -> Seq<(Seq<char>, u32, u64)>
    decreases file.len(),
{
    if file.len() == 0 {
        Seq::empty()
    } else {
        let before = readable(file.drop_last());
        let r = file.last();
        match net::ip_of(r.ip) {
            Some(ip) => before.push((r.mac, ip, r.expires_unix)),
            None => before,
        }
    }
}

/// The leases of a running server as they are stored.
pub fn to_file(snapshot: &Vec<(String, u32, u64)>) -> (r: LeaseFile)
    ensures
        r@ == stored_all(dhcp::record_views(snapshot@)),
{
    let ghost all = stored_all(dhcp::record_views(snapshot@));
    let mut leases: Vec<LeaseRecord> = Vec::new();
    let mut i: usize = 0;
    while i < snapshot.len()
        invariant
            i <= snapshot@.len(),
            all == stored_all(dhcp::record_views(snapshot@)),
            leases@.len() == i,
            forall|j: int| 0 <= j < i ==> (#[trigger] leases@[j])@ == all[j],
        decreases snapshot@.len() - i,
    {
        let s: &(String, u32, u64) = &snapshot[i];
        leases.push(
            LeaseRecord { mac: s.0.clone(), ip: net::ip_string(s.1), expires_unix: s.2 },
        );
        i = i + 1;
    }
    let r = LeaseFile { leases };
    assert(r@ =~= all);
    r
}

/// The stored leases that a server can take over.
pub fn from_file(file: &LeaseFile) -> (r: Vec<(String, u32, u64)>)
    ensures
        dhcp::record_views(r@) == readable(file@),
{
    let ghost all = file@;
    let mut out: Vec<(String, u32, u64)> = Vec::new();
    let mut i: usize = 0;
    assert(dhcp::record_views(out@) =~= readable(all.take(0)));
    while i < file.leases.len()
        invariant
            i <= file.leases@.len(),
            all == file@,
            dhcp::record_views(out@) == readable(all.take(i as int)),
        decreases file.leases@.len() - i,
    {
        let r: &LeaseRecord = &file.leases[i];
        let ghost before = dhcp::record_views(out@);
        proof {
            assert(all.take(i + 1).drop_last() =~= all.take(i as int));
            assert(all.take(i + 1).last() == r@);
        }
        match net::parse_ip(r.ip.as_str()) {
            Some(ip) => {
                let mac: String = r.mac.clone();
                let ghost one = (mac@, ip, r.expires_unix);
                out.push((mac, ip, r.expires_unix));
                assert(dhcp::record_views(out@) =~= before.push(one));
            },
            None => {},
        }
        i = i + 1;
    }
    assert(all.take(i as int) =~= all);
    out
}

/// Leases that were stored are read back as they were.
pub proof fn lemma_store_round_trip(v: Seq<(Seq<char>, u32, u64)>)
    ensures
        readable(stored_all(v)) == v,
    decreases v.len(),
{
    if v.len() > 0 {
        let init = v.drop_last();
        lemma_store_round_trip(init);
        assert(stored_all(v).drop_last() =~= stored_all(init));
        assert(stored_all(v).last() == stored(v.last()));
        net::lemma_ip_round_trip(v.last().1);
        assert(init.push(v.last()) =~= v);
    } else {
        assert(v =~= Seq::<(Seq<char>, u32, u64)>::empty());
    }
}

} // verus!
