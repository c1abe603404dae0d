//! The interface catalog: a point-in-time snapshot of the host's network
//! interfaces, keeping only those that carry at least one address, under a
//! unique name each.

use vstd::prelude::*;
use vstd::pervasive::VecAdditionalExecFns;
use vstd::string::StringExecFns;
use crate::address::IpAddress;

verus! {

/// One network interface: its name and its assigned addresses, in the order
/// the system reports them.
#[derive(Debug)]
pub struct InterfaceRecord {
    pub name: String,
    pub addrs: Vec<IpAddress>,
}

impl Clone for InterfaceRecord {
    /// A clone keeps the name and the address list.
    fn clone(&self) -> (r: Self)
        ensures
            r.name@ == self.name@,
            r.addrs@ == self.addrs@,
    {
        let mut addrs: Vec<IpAddress> = Vec::new();
        let mut i: usize = 0;
        while i < self.addrs.len()
            invariant
                0 <= i <= self.addrs@.len(),
                addrs@ == self.addrs@.subrange(0, i as int),
            decreases self.addrs@.len() - i,
        {
            addrs.push(self.addrs[i]);
            proof {
                assert(addrs@ =~= self.addrs@.subrange(0, i + 1));
            }
            i += 1;
        }
        proof {
            assert(addrs@ =~= self.addrs@);
        }
        InterfaceRecord { name: self.name.clone(), addrs }
    }
}

/// An explicitly requested interface name that the catalog does not hold.
#[derive(Debug)]
pub struct NetworkInterfaceExistanceError {
    pub interface: String,
}

/// The text of the missing-interface message for `name`.
pub open spec fn interface_missing_message(name: Seq<char>) -> Seq<char> {
    "The given network interface doesn't exist: "@ + name
}

impl NetworkInterfaceExistanceError {
    pub fn new(interface: String) -> (e: NetworkInterfaceExistanceError)
        ensures
            e.interface == interface,
    {
        NetworkInterfaceExistanceError { interface }
    }

    /// The user-visible text of this error.
    pub fn message(&self) -> (m: String)
        ensures
            m@ == interface_missing_message(self.interface@),
    {
        let mut m = "The given network interface doesn't exist: ".to_owned();
        m.append(self.interface.as_str());
        m
    }
}

/// The address list of the first record carrying `name`, scanning from the
/// front.
pub open spec fn lookup_rec(s: Seq<InterfaceRecord>, name: Seq<char>) -> Option<Seq<IpAddress>>
    decreases s.len(),
{
    if s.len() == 0 {
        None
    } else if s[0].name@ == name {
        Some(s[0].addrs@)
    } else {
        lookup_rec(s.drop_first(), name)
    }
}

/// The address list of the last record carrying `name` that has at least one
/// address: what a name-keyed snapshot of a raw listing holds for `name`.
pub open spec fn latest_named(s: Seq<InterfaceRecord>, name: Seq<char>) -> Option<Seq<IpAddress>>
    decreases s.len(),
{
    if s.len() == 0 {
        None
    } else if s.last().name@ == name && s.last().addrs@.len() > 0 {
        Some(s.last().addrs@)
    } else {
        latest_named(s.drop_last(), name)
    }
}

/// A catalog snapshot: records with unique names, each carrying at least one
/// address.
#[derive(Debug)]
pub struct InterfaceCatalog {
    pub records: Vec<InterfaceRecord>,
}

impl InterfaceCatalog {
    /// Every entry has at least one address, and no name repeats.
    pub open spec fn wf(self) -> bool {
        &&& (forall|i: int|
            0 <= i < self.records@.len() ==> (#[trigger] self.records@[i].addrs@.len()) > 0)
        &&& (forall|i: int, j: int|
            0 <= i < j < self.records@.len() ==> (#[trigger] self.records@[i].name@) != (
            #[trigger] self.records@[j].name@))
    }
}

proof fn lemma_lookup_push(s: Seq<InterfaceRecord>, x: InterfaceRecord, n: Seq<char>)
    ensures
        lookup_rec(s.push(x), n) == if lookup_rec(s, n) is Some {
            lookup_rec(s, n)
        } else if x.name@ == n {
            Some(x.addrs@)
        } else {
            Option::<Seq<IpAddress>>::None
        },
    decreases s.len(),
{
    if s.len() == 0 {
        assert(s.push(x).drop_first() =~= Seq::<InterfaceRecord>::empty());
    } else {
        assert(s.push(x).drop_first() =~= s.drop_first().push(x));
        lemma_lookup_push(s.drop_first(), x, n);
    }
}

proof fn lemma_lookup_set(s: Seq<InterfaceRecord>, k: int, x: InterfaceRecord, n: Seq<char>)
    requires
        0 <= k < s.len(),
        s[k].name@ == x.name@,
        forall|i: int, j: int| 0 <= i < j < s.len() ==> s[i].name@ != s[j].name@,
    ensures
        lookup_rec(s.update(k, x), n) == if n == x.name@ {
            Some(x.addrs@)
        } else {
            lookup_rec(s, n)
        },
    decreases k,
{
    if k == 0 {
        if n != x.name@ {
            assert(s.update(0, x).drop_first() =~= s.drop_first());
        }
    } else {
        assert(s[0].name@ != s[k].name@);
        assert(s.update(k, x).drop_first() =~= s.drop_first().update(k - 1, x));
        assert(forall|i: int, j: int|
            0 <= i < j < s.drop_first().len() ==> s.drop_first()[i].name@
                != s.drop_first()[j].name@);
        lemma_lookup_set(s.drop_first(), k - 1, x, n);
    }
}

proof fn lemma_latest_push(s: Seq<InterfaceRecord>, x: InterfaceRecord, n: Seq<char>)
    ensures
        latest_named(s.push(x), n) == if x.name@ == n && x.addrs@.len() > 0 {
            Some(x.addrs@)
        } else {
            latest_named(s, n)
        },
{
    assert(s.push(x).drop_last() =~= s);
    assert(s.push(x).last() == x);
}

/// Builds a name-keyed catalog from a raw interface listing: interfaces
/// without addresses are discarded, and of several records under one name
/// the last one listed wins, as rebuilding a name-keyed map by repeated
/// insertion would have it.
pub fn from_records(records: Vec<InterfaceRecord>) -> (r: InterfaceCatalog)
    ensures
        r.wf(),
        forall|n: Seq<char>| #[trigger] lookup_rec(r.records@, n) == latest_named(records@, n),
{
    let mut recs: Vec<InterfaceRecord> = Vec::new();
    let mut i: usize = 0;
    proof {
        assert(records@.subrange(0, 0) =~= Seq::<InterfaceRecord>::empty());
    }
    while i < records.len()
        invariant
            0 <= i <= records@.len(),
            forall|k: int| 0 <= k < recs@.len() ==> (#[trigger] recs@[k].addrs@.len()) > 0,
            forall|k: int, l: int|
                0 <= k < l < recs@.len() ==> (#[trigger] recs@[k].name@) != (
                #[trigger] recs@[l].name@),
            forall|n: Seq<char>| #[trigger]
                lookup_rec(recs@, n) == latest_named(records@.subrange(0, i as int), n),
        decreases records@.len() - i,
    {
        let ghost prefix = records@.subrange(0, i as int);
        proof {
            assert(records@.subrange(0, i + 1) =~= prefix.push(records@[i as int]));
        }
        let rec = records[i].clone();
        let ghost rec_name = rec.name@;
        let ghost rec_addrs = rec.addrs@;
        if rec.addrs.len() > 0 {
            let mut k: usize = 0;
            while k < recs.len() && !(recs[k].name == rec.name)
                invariant
                    0 <= k <= recs@.len(),
                    rec_name == rec.name@,
                    forall|t: int| 0 <= t < k ==> (#[trigger] recs@[t].name@) != rec_name,
                decreases recs@.len() - k,
            {
                k += 1;
            }
            if k < recs.len() {
                let ghost old_recs = recs@;
                recs.set(k, rec);
                proof {
                    assert forall|n: Seq<char>| #[trigger]
                        lookup_rec(recs@, n) == latest_named(
                            records@.subrange(0, i + 1),
                            n,
                        ) by {
                        lemma_lookup_set(old_recs, k as int, recs@[k as int], n);
                        lemma_latest_push(prefix, records@[i as int], n);
                    }
                }
            } else {
                let ghost old_recs = recs@;
                recs.push(rec);
                proof {
                    assert forall|n: Seq<char>| #[trigger]
                        lookup_rec(recs@, n) == latest_named(
                            records@.subrange(0, i + 1),
                            n,
                        ) by {
                        lemma_lookup_push(old_recs, recs@[old_recs.len() as int], n);
                        lemma_latest_push(prefix, records@[i as int], n);
                        if lookup_rec(old_recs, n) is Some {
                            lemma_lookup_found_name(old_recs, n);
                        }
                    }
                }
            }
        } else {
            proof {
                assert forall|n: Seq<char>| #[trigger]
                    lookup_rec(recs@, n) == latest_named(records@.subrange(0, i + 1), n) by {
                    lemma_latest_push(prefix, records@[i as int], n);
                }
            }
        }
        i += 1;
    }
    proof {
        assert(records@.subrange(0, records@.len() as int) =~= records@);
    }
    InterfaceCatalog { records: recs }
}

/// A successful front-to-back lookup means some record carries the name.
proof fn lemma_lookup_found_name(s: Seq<InterfaceRecord>, n: Seq<char>)
    requires
        lookup_rec(s, n) is Some,
    ensures
        exists|i: int| 0 <= i < s.len() && (#[trigger] s[i].name@) == n,
    decreases s.len(),
{
    if s.len() == 0 {
    } else if s[0].name@ == n {
        assert(s[0].name@ == n);
    } else {
        lemma_lookup_found_name(s.drop_first(), n);
        let i = choose|i: int| 0 <= i < s.drop_first().len() && s.drop_first()[i].name@ == n;
        assert(s[i + 1].name@ == n);
    }
}

/// A record carrying the name makes the lookup succeed.
pub proof fn lemma_name_found_lookup(s: Seq<InterfaceRecord>, n: Seq<char>)
    requires
        exists|i: int| 0 <= i < s.len() && (#[trigger] s[i].name@) == n,
    ensures
        lookup_rec(s, n) is Some,
    decreases s.len(),
{
    if s[0].name@ == n {
    } else {
        let i = choose|i: int| 0 <= i < s.len() && s[i].name@ == n;
        assert(s.drop_first()[i - 1].name@ == n);
        lemma_name_found_lookup(s.drop_first(), n);
    }
}

/// In a well-formed catalog every looked-up address list is nonempty.
pub proof fn lemma_lookup_nonempty(s: Seq<InterfaceRecord>, n: Seq<char>)
    requires
        forall|i: int| 0 <= i < s.len() ==> (#[trigger] s[i].addrs@.len()) > 0,
        lookup_rec(s, n) is Some,
    ensures
        lookup_rec(s, n)->0.len() > 0,
    decreases s.len(),
{
    if s.len() == 0 {
    } else if s[0].name@ == n {
    } else {
        assert(forall|i: int|
            0 <= i < s.drop_first().len() ==> (#[trigger] s.drop_first()[i].addrs@.len()) > 0);
        lemma_lookup_nonempty(s.drop_first(), n);
    }
}

proof fn lemma_lookup_skip(s: Seq<InterfaceRecord>, n: Seq<char>, i: int)
    requires
        0 <= i <= s.len(),
        forall|k: int| 0 <= k < i ==> (#[trigger] s[k].name@) != n,
    ensures
        lookup_rec(s, n) == lookup_rec(s.skip(i), n),
    decreases i,
{
    if i == 0 {
        assert(s.skip(0) =~= s);
    } else {
        assert(s.drop_first() =~= s.skip(1));
        lemma_lookup_skip(s.drop_first(), n, i - 1);
        assert(s.drop_first().skip(i - 1) =~= s.skip(i));
    }
}

/// Finds the record standing under a requested name, if any.
pub fn lookup_interface<'a>(catalog: &'a InterfaceCatalog, name: &String) -> (r: Option<
    &'a InterfaceRecord,
>)
    ensures
        match r {
            Some(rec) => {
                &&& lookup_rec(catalog.records@, name@) == Some(rec.addrs@)
                &&& rec.name@ == name@
            },
            None => lookup_rec(catalog.records@, name@) is None,
        },
{
    let mut i: usize = 0;
    while i < catalog.records.len() && !(catalog.records[i].name == *name)
        invariant
            0 <= i <= catalog.records@.len(),
            forall|k: int| 0 <= k < i ==> (#[trigger] catalog.records@[k].name@) != name@,
        decreases catalog.records@.len() - i,
    {
        i += 1;
    }
    proof {
        lemma_lookup_skip(catalog.records@, name@, i as int);
    }
    if i < catalog.records.len() {
        proof {
            assert(catalog.records@.skip(i as int)[0] == catalog.records@[i as int]);
        }
        Some(&catalog.records[i])
    } else {
        proof {
            assert(catalog.records@.skip(i as int) =~= Seq::<InterfaceRecord>::empty());
        }
        None
    }
}

/// Relies on pnet's `datalink::interfaces` for the raw interface listing.
/// The listing depends on the host, so nothing is assumed of its content;
/// each entry is converted field for field into the library's record form.
#[verifier::external_body]
fn query_os_interfaces() -> (r: Vec<InterfaceRecord>) {
    pnet::datalink::interfaces().into_iter().map(|iface| InterfaceRecord {
        name: iface.name,
        addrs: iface.ips.iter().map(|ip| match ip {
            pnet::ipnetwork::IpNetwork::V4(n) => {
                let o = n.ip().octets();
                IpAddress::V4(o[0], o[1], o[2], o[3])
            },
            pnet::ipnetwork::IpNetwork::V6(n) => {
                let g = n.ip().segments();
                IpAddress::V6(g[0], g[1], g[2], g[3], g[4], g[5], g[6], g[7])
            },
        }).collect(),
    }).collect()
}

/// A fresh snapshot of the host's interfaces: queries the system's interface
/// table and keeps, under each name, the last listed interface that carries
/// at least one address.
pub fn get_network_interfaces() -> (r: InterfaceCatalog)
    ensures
        r.wf(),
{
    from_records(query_os_interfaces())
}

} // verus!
