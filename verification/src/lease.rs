use vstd::prelude::*;
use vstd::string::StringExecFns;

verus! {

/// One DHCP lease as the lease source reports it: a link-layer address
/// and the bare hostname of the device that holds it.
#[derive(Debug)]
pub struct Lease {
    pub mac: String,
    pub hostname: String,
}

/// The leases one network device reported, under that device's name.
#[derive(Debug)]
pub struct DeviceLeases {
    pub device: String,
    pub leases: Vec<Lease>,
}

/// Mathematical image of a `Lease`.
pub struct LeaseView {
    pub mac: Seq<char>,
    pub hostname: Seq<char>,
}

impl View for Lease {
    type V = LeaseView;

    open spec fn view(&self) -> LeaseView {
        LeaseView { mac: self.mac@, hostname: self.hostname@ }
    }
}

/// Mathematical image of a `DeviceLeases`.
pub struct DeviceLeasesView {
    pub device: Seq<char>,
    pub leases: Seq<LeaseView>,
}

impl View for DeviceLeases {
    type V = DeviceLeasesView;

    open spec fn view(&self) -> DeviceLeasesView {
        DeviceLeasesView {
            device: self.device@,
            leases: self.leases@.map_values(|l: Lease| l@),
        }
    }
}

/// The domain suffix a device's leases get: the dedicated wireless
/// device gets the isolated-network suffix, every other device the
/// local one.
pub open spec fn spec_suffix(device: Seq<char>) -> Seq<char> {
    if device == "phy1-ap0"@ {
        ".iot"@
    } else {
        ".lan"@
    }
}

/// The lease pairs one device contributes: each lease's link-layer
/// address, mapped to its hostname with the device's suffix appended.
pub open spec fn device_pairs(d: DeviceLeasesView) -> Seq<(Seq<char>, Seq<char>)> {
    d.leases.map_values(|l: LeaseView| (l.mac, l.hostname + spec_suffix(d.device)))
}

/// The lease pairs of all devices, in report order.
pub open spec fn all_pairs(ds: Seq<DeviceLeasesView>) -> Seq<(Seq<char>, Seq<char>)>
    decreases ds.len(),
{
    if ds.len() == 0 {
        Seq::empty()
    } else {
        all_pairs(ds.drop_last()) + device_pairs(ds.last())
    }
}

/// The hostname a table maps a link-layer address to: of the pairs
/// that carry the address, the one recorded last wins.
pub open spec fn spec_lookup(pairs: Seq<(Seq<char>, Seq<char>)>, mac: Seq<char>) -> Option<
    Seq<char>,
>
    decreases pairs.len(),
{
    if pairs.len() == 0 {
        Option::None
    } else if pairs.last().0 == mac {
        Option::Some(pairs.last().1)
    } else {
        spec_lookup(pairs.drop_last(), mac)
    }
}

/// The snapshot mapping from link-layer address to hostname that one
/// resolution cycle works from.
pub struct LeaseTable {
    pub pairs: Vec<(String, String)>,
}

impl View for LeaseTable {
    type V = Seq<(Seq<char>, Seq<char>)>;

    open spec fn view(&self) -> Seq<(Seq<char>, Seq<char>)> {
        self.pairs@.map_values(|p: (String, String)| (p.0@, p.1@))
    }
}

impl LeaseTable {
    /// Maps a link-layer address to the hostname of its lease, or
    /// nothing when no device reported one for it.
    pub fn resolve(&self, mac: &String) -> (r: Option<String>)
        ensures
            match r {
                Some(h) => spec_lookup(self@, mac@) == Some(h@),
                None => spec_lookup(self@, mac@) is None,
            },
    {
        let mut i: usize = self.pairs.len();
        proof {
            assert(self@.take(i as int) =~= self@);
        }
        while i > 0
            invariant
                i <= self.pairs.len(),
                spec_lookup(self@.take(i as int), mac@) == spec_lookup(self@, mac@),
            decreases i,
        {
            i -= 1;
            proof {
                assert(self@.take(i + 1).last() == self@[i as int]);
                assert(self@.take(i + 1).drop_last() =~= self@.take(i as int));
            }
            if self.pairs[i].0 == *mac {
                return Some(self.pairs[i].1.clone());
            }
        }
        proof {
            assert(self@.take(0) =~= Seq::<(Seq<char>, Seq<char>)>::empty());
        }
        None
    }
}

/// Builds the link-layer-address-to-hostname snapshot from the leases
/// the external source reported, device by device, appending each
/// device's domain suffix to its hostnames.
pub fn get_lease(devices: &Vec<DeviceLeases>) -> (r: LeaseTable)
    ensures
        r@ == all_pairs(devices@.map_values(|d: DeviceLeases| d@)),
{
    let ghost dviews = devices@.map_values(|d: DeviceLeases| d@);
    let mut pairs: Vec<(String, String)> = Vec::new();
    let iot = String::from_str(".iot");
    let lan = String::from_str(".lan");
    let ap = String::from_str("phy1-ap0");
    proof {
        reveal_strlit(".iot");
        reveal_strlit(".lan");
        reveal_strlit("phy1-ap0");
    }
    let mut i: usize = 0;
    while i < devices.len()
        invariant
            i <= devices.len(),
            iot@ == ".iot"@,
            lan@ == ".lan"@,
            ap@ == "phy1-ap0"@,
            dviews == devices@.map_values(|d: DeviceLeases| d@),
            pairs@.map_values(|p: (String, String)| (p.0@, p.1@)) == all_pairs(
                dviews.take(i as int),
            ),
        decreases devices.len() - i,
    {
        let d = &devices[i];
        let suffix = if d.device == ap {
            &iot
        } else {
            &lan
        };
        proof {
            assert(suffix@ == spec_suffix(d@.device));
        }
        let mut j: usize = 0;
        while j < d.leases.len()
            invariant
                j <= d.leases.len(),
                suffix@ == spec_suffix(d@.device),
                pairs@.map_values(|p: (String, String)| (p.0@, p.1@)) == all_pairs(
                    dviews.take(i as int),
                ) + device_pairs(d@).take(j as int),
            decreases d.leases.len() - j,
        {
            let ghost pre = pairs@.map_values(|p: (String, String)| (p.0@, p.1@));
            let lease = &d.leases[j];
            proof {
                assert(d@.leases[j as int] == lease@);
                assert(device_pairs(d@)[j as int] == (lease@.mac, lease@.hostname + spec_suffix(
                    d@.device,
                )));
            }
            let mac = lease.mac.clone();
            let hostname = lease.hostname.clone().concat(suffix.as_str());
            pairs.push((mac, hostname));
            proof {
                assert(pairs@.map_values(|p: (String, String)| (p.0@, p.1@)) =~= pre.push(
                    (lease@.mac, lease@.hostname + spec_suffix(d@.device)),
                ));
                assert(device_pairs(d@).take(j + 1) =~= device_pairs(d@).take(j as int).push(
                    device_pairs(d@)[j as int],
                ));
                assert(pairs@.map_values(|p: (String, String)| (p.0@, p.1@)) =~= all_pairs(
                    dviews.take(i as int),
                ) + device_pairs(d@).take(j + 1));
            }
            j += 1;
        }
        proof {
            assert(device_pairs(d@).take(d@.leases.len() as int) =~= device_pairs(d@));
            assert(dviews.take(i + 1).drop_last() =~= dviews.take(i as int));
            assert(dviews.take(i + 1).last() == dviews[i as int]);
            assert(dviews[i as int] == d@);
            assert(all_pairs(dviews.take(i + 1)) =~= all_pairs(dviews.take(i as int))
                + device_pairs(d@));
        }
        i += 1;
    }
    proof {
        assert(dviews.take(devices@.len() as int) =~= dviews);
    }
    LeaseTable { pairs }
}

} // verus!
