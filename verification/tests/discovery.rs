use ev3dev_lang_rust::attribute::DRIVER_PATH;
use ev3dev_lang_rust::driver::{select_single, DirEntry, Driver};
use ev3dev_lang_rust::error::{Ev3Error, IoFault};
use ev3dev_lang_rust::sensors::SensorPort;

fn entry(name: &str, address: &str, driver_name: &str) -> DirEntry {
    DirEntry {
        name: Ok(name.to_owned()),
        address: Ok(address.to_owned()),
        driver_name: Ok(driver_name.to_owned()),
    }
}

fn ids(names: &[&str]) -> Vec<String> {
    names.iter().map(|n| (*n).to_owned()).collect()
}

#[test]
fn two_instances_of_one_driver_are_ambiguous() {
    let listing = vec![
        entry("sensor3", "ev3-ports:in1", "X"),
        entry("sensor0", "ev3-ports:in2", "X"),
    ];
    let found = Driver::find_name_by_driver(DRIVER_PATH, "lego-sensor", &listing, &ids(&["X"]));
    assert_eq!(
        found,
        Err(Ev3Error::MultipleMatches {
            device: "[\"X\"]".to_owned(),
            ports: vec!["sensor3".to_owned(), "sensor0".to_owned()],
        })
    );
}

#[test]
fn ambiguity_ignores_instances_of_other_drivers() {
    let listing = vec![
        entry("sensor1", "ev3-ports:in1", "X"),
        entry("sensor2", "ev3-ports:in2", "Y"),
        entry("sensor0", "ev3-ports:in3", "X"),
    ];
    let found = Driver::find_name_by_driver(DRIVER_PATH, "lego-sensor", &listing, &ids(&["X"]));
    assert_eq!(
        found,
        Err(Ev3Error::MultipleMatches {
            device: "[\"X\"]".to_owned(),
            ports: vec!["sensor1".to_owned(), "sensor0".to_owned()],
        })
    );
}

#[test]
fn no_instance_of_the_driver_is_not_connected() {
    let listing = vec![
        entry("sensor0", "ev3-ports:in1", "lego-ev3-gyro"),
        entry("sensor1", "ev3-ports:in2", "lego-ev3-touch"),
    ];
    let found = Driver::find_name_by_driver(
        DRIVER_PATH,
        "lego-sensor",
        &listing,
        &ids(&["lego-ev3-color", "lego-nxt-light"]),
    );
    assert_eq!(
        found,
        Err(Ev3Error::NotConnected {
            device: "[\"lego-ev3-color\", \"lego-nxt-light\"]".to_owned(),
            port: None,
        })
    );
}

#[test]
fn empty_class_directory_is_not_connected() {
    let listing: Vec<DirEntry> = Vec::new();
    let found = Driver::find_name_by_driver(DRIVER_PATH, "tacho-motor", &listing, &ids(&["lego-ev3-l-motor"]));
    assert_eq!(
        found,
        Err(Ev3Error::NotConnected { device: "[\"lego-ev3-l-motor\"]".to_owned(), port: None })
    );
    assert_eq!(
        Driver::find_names_by_driver(DRIVER_PATH, "tacho-motor", &listing, &ids(&["lego-ev3-l-motor"])),
        Ok(Vec::new())
    );
}

#[test]
fn single_instance_of_the_driver_is_found() {
    let listing = vec![
        entry("sensor0", "ev3-ports:in1", "lego-ev3-gyro"),
        entry("sensor7", "ev3-ports:in2", "lego-ev3-color"),
    ];
    let found = Driver::find_name_by_driver(DRIVER_PATH, "lego-sensor", &listing, &ids(&["lego-ev3-color"]));
    assert_eq!(found, Ok("sensor7".to_owned()));
}

#[test]
fn any_of_several_driver_ids_is_accepted() {
    let listing = vec![
        entry("motor0", "ev3-ports:outA", "lego-ev3-m-motor"),
        entry("motor1", "ev3-ports:outB", "lego-ev3-l-motor"),
        entry("motor2", "ev3-ports:outC", "other"),
    ];
    let all = Driver::find_names_by_driver(
        DRIVER_PATH,
        "tacho-motor",
        &listing,
        &ids(&["lego-ev3-l-motor", "lego-ev3-m-motor"]),
    );
    assert_eq!(all, Ok(vec!["motor0".to_owned(), "motor1".to_owned()]));
}

#[test]
fn port_search_returns_first_match_in_listing_order() {
    let listing = vec![
        entry("sensor4", "ev3-ports:in2", "lego-ev3-color"),
        entry("sensor2", "ev3-ports:in1", "lego-ev3-gyro"),
        entry("sensor9", "ev3-ports:in1", "lego-ev3-color"),
        entry("sensor1", "ev3-ports:in1", "lego-ev3-color"),
    ];
    let port = SensorPort::In1.address();
    let found = Driver::find_name_by_port_and_driver(
        DRIVER_PATH,
        "lego-sensor",
        &listing,
        &port,
        &ids(&["lego-ev3-color"]),
    );
    assert_eq!(found, Ok("sensor9".to_owned()));
}

#[test]
fn port_match_is_containment_not_equality() {
    let listing = vec![entry("sensor0", "ev3-ports:in1:i2c8", "nxt-i2c")];
    let ids = ids(&["nxt-i2c"]);
    assert_eq!(
        Driver::find_name_by_port_and_driver(DRIVER_PATH, "lego-sensor", &listing, "in1", &ids),
        Ok("sensor0".to_owned())
    );
    assert_eq!(
        Driver::find_name_by_port_and_driver(DRIVER_PATH, "lego-sensor", &listing, "", &ids),
        Ok("sensor0".to_owned())
    );
    assert_eq!(
        Driver::find_name_by_port_and_driver(DRIVER_PATH, "lego-sensor", &listing, "in2", &ids),
        Err(Ev3Error::NotConnected {
            device: "[\"nxt-i2c\"]".to_owned(),
            port: Some("in2".to_owned()),
        })
    );
    assert_eq!(
        Driver::find_name_by_port_and_driver(DRIVER_PATH, "lego-sensor", &listing, "ev3-ports:in1:i2c80", &ids),
        Err(Ev3Error::NotConnected {
            device: "[\"nxt-i2c\"]".to_owned(),
            port: Some("ev3-ports:in1:i2c80".to_owned()),
        })
    );
}

#[test]
fn port_search_reads_the_driver_only_at_the_port() {
    let listing = vec![
        DirEntry {
            name: Ok("sensor0".to_owned()),
            address: Ok("ev3-ports:in3".to_owned()),
            driver_name: Err(IoFault::PermissionDenied),
        },
        entry("sensor1", "ev3-ports:in1", "lego-ev3-color"),
    ];
    let found = Driver::find_name_by_port_and_driver(
        DRIVER_PATH,
        "lego-sensor",
        &listing,
        "in1",
        &ids(&["lego-ev3-color"]),
    );
    assert_eq!(found, Ok("sensor1".to_owned()));
}

#[test]
fn unreadable_address_stops_the_port_search() {
    let listing = vec![
        DirEntry {
            name: Ok("sensor0".to_owned()),
            address: Err(IoFault::NotFound),
            driver_name: Ok("lego-ev3-color".to_owned()),
        },
        entry("sensor1", "ev3-ports:in1", "lego-ev3-color"),
    ];
    let found = Driver::find_name_by_port_and_driver(
        DRIVER_PATH,
        "lego-sensor",
        &listing,
        "in1",
        &ids(&["lego-ev3-color"]),
    );
    assert_eq!(
        found,
        Err(Ev3Error::Io {
            fault: IoFault::NotFound,
            subject: "/sys/class/lego-sensor/sensor0/address".to_owned(),
        })
    );
}

#[test]
fn a_match_before_an_unreadable_entry_wins_the_port_search() {
    let listing = vec![
        entry("sensor1", "ev3-ports:in1", "lego-ev3-color"),
        DirEntry {
            name: Err(IoFault::InvalidData),
            address: Err(IoFault::InvalidData),
            driver_name: Err(IoFault::InvalidData),
        },
    ];
    let found = Driver::find_name_by_port_and_driver(
        DRIVER_PATH,
        "lego-sensor",
        &listing,
        "in1",
        &ids(&["lego-ev3-color"]),
    );
    assert_eq!(found, Ok("sensor1".to_owned()));
}

#[test]
fn unreadable_driver_name_fails_the_driver_search() {
    let listing = vec![
        entry("sensor1", "ev3-ports:in1", "lego-ev3-color"),
        DirEntry {
            name: Ok("sensor2".to_owned()),
            address: Ok("ev3-ports:in2".to_owned()),
            driver_name: Err(IoFault::Busy),
        },
        entry("sensor3", "ev3-ports:in3", "lego-ev3-color"),
    ];
    let expected = Ev3Error::Io {
        fault: IoFault::Busy,
        subject: "/sys/class/lego-sensor/sensor2/driver_name".to_owned(),
    };
    let ids = ids(&["lego-ev3-color"]);
    assert_eq!(
        Driver::find_names_by_driver(DRIVER_PATH, "lego-sensor", &listing, &ids),
        Err(expected.clone())
    );
    assert_eq!(Driver::find_name_by_driver(DRIVER_PATH, "lego-sensor", &listing, &ids), Err(expected));
}

#[test]
fn undecodable_entry_name_fails_with_the_class_directory() {
    let listing = vec![DirEntry {
        name: Err(IoFault::InvalidData),
        address: Ok("ev3-ports:in1".to_owned()),
        driver_name: Ok("lego-ev3-color".to_owned()),
    }];
    let expected =
        Ev3Error::Io { fault: IoFault::InvalidData, subject: "/sys/class/lego-sensor".to_owned() };
    let ids = ids(&["lego-ev3-color"]);
    assert_eq!(
        Driver::find_names_by_driver(DRIVER_PATH, "lego-sensor", &listing, &ids),
        Err(expected.clone())
    );
    assert_eq!(
        Driver::find_name_by_port_and_driver(DRIVER_PATH, "lego-sensor", &listing, "in1", &ids),
        Err(expected)
    );
}

#[test]
fn discovery_gives_the_same_answer_twice() {
    let listing = vec![
        entry("sensor4", "ev3-ports:in2", "lego-ev3-color"),
        entry("sensor2", "ev3-ports:in1", "lego-ev3-gyro"),
    ];
    let ids = ids(&["lego-ev3-color", "lego-ev3-gyro"]);
    let first = Driver::find_name_by_driver(DRIVER_PATH, "lego-sensor", &listing, &ids);
    let second = Driver::find_name_by_driver(DRIVER_PATH, "lego-sensor", &listing, &ids);
    assert_eq!(first, second);
    let first = Driver::find_name_by_port_and_driver(DRIVER_PATH, "lego-sensor", &listing, "in1", &ids);
    let second = Driver::find_name_by_port_and_driver(DRIVER_PATH, "lego-sensor", &listing, "in1", &ids);
    assert_eq!(first, second);
    assert_eq!(first, Ok("sensor2".to_owned()));
}

#[test]
fn select_single_applies_the_rule_of_one() {
    let ids = ids(&["a\"b"]);
    assert_eq!(
        select_single(Vec::new(), &ids),
        Err(Ev3Error::NotConnected { device: "[\"a\\\"b\"]".to_owned(), port: None })
    );
    assert_eq!(select_single(vec!["motor0".to_owned()], &ids), Ok("motor0".to_owned()));
}

#[test]
fn failures_are_reported_below_the_given_root() {
    let listing = vec![
        DirEntry {
            name: Ok("sensor0".to_owned()),
            address: Ok("in1".to_owned()),
            driver_name: Err(IoFault::NotFound),
        },
        DirEntry {
            name: Err(IoFault::Other),
            address: Err(IoFault::Other),
            driver_name: Err(IoFault::Other),
        },
    ];
    let ids = ids(&["lego-ev3-color"]);
    assert_eq!(
        Driver::find_names_by_driver("/tmp/devices/", "lego-sensor", &listing, &ids),
        Err(Ev3Error::Io {
            fault: IoFault::NotFound,
            subject: "/tmp/devices/lego-sensor/sensor0/driver_name".to_owned(),
        })
    );
    assert_eq!(
        Driver::find_name_by_port_and_driver("", "lego-sensor", &listing, "in2", &ids),
        Err(Ev3Error::Io { fault: IoFault::Other, subject: "lego-sensor".to_owned() })
    );
}
