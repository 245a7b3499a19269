use neighdns::lease::{get_lease, DeviceLeases, Lease, LeaseTable};

fn lease(mac: &str, hostname: &str) -> Lease {
    Lease {
        mac: String::from(mac),
        hostname: String::from(hostname),
    }
}

#[test]
fn get_lease_appends_device_suffixes() {
    let devices = vec![
        DeviceLeases {
            device: String::from("phy1-ap0"),
            leases: vec![lease("aa:bb:cc:dd:ee:ff", "cam")],
        },
        DeviceLeases {
            device: String::from("br-lan"),
            leases: vec![lease("00:11:22:33:44:55", "toaster")],
        },
    ];
    let table = get_lease(&devices);
    assert_eq!(
        table.resolve(&String::from("aa:bb:cc:dd:ee:ff")),
        Some(String::from("cam.iot"))
    );
    assert_eq!(
        table.resolve(&String::from("00:11:22:33:44:55")),
        Some(String::from("toaster.lan"))
    );
}

#[test]
fn resolve_misses_unknown_addresses() {
    let table = get_lease(&vec![]);
    assert_eq!(table.resolve(&String::from("aa:bb:cc:dd:ee:ff")), None);
}

#[test]
fn resolve_takes_the_last_lease_for_an_address() {
    let devices = vec![DeviceLeases {
        device: String::from("br-lan"),
        leases: vec![
            lease("00:11:22:33:44:55", "old-name"),
            lease("00:11:22:33:44:55", "new-name"),
        ],
    }];
    let table = get_lease(&devices);
    assert_eq!(
        table.resolve(&String::from("00:11:22:33:44:55")),
        Some(String::from("new-name.lan"))
    );
}

#[test]
fn lease_table_pairs_are_kept_in_report_order() {
    let devices = vec![
        DeviceLeases {
            device: String::from("br-lan"),
            leases: vec![lease("02:00:00:00:00:01", "one"), lease("02:00:00:00:00:02", "two")],
        },
        DeviceLeases {
            device: String::from("phy1-ap0"),
            leases: vec![lease("02:00:00:00:00:03", "three")],
        },
    ];
    let table = get_lease(&devices);
    let expected = LeaseTable {
        pairs: vec![
            (String::from("02:00:00:00:00:01"), String::from("one.lan")),
            (String::from("02:00:00:00:00:02"), String::from("two.lan")),
            (String::from("02:00:00:00:00:03"), String::from("three.iot")),
        ],
    };
    assert_eq!(table.pairs, expected.pairs);
}
