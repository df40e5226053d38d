use air_vinyl::address::Address;
use air_vinyl::control::{apply, status, Request, RequestError};
use air_vinyl::discovery::{Device, Scanner};
use air_vinyl::streaming::{Action, Level, Streamer};

fn registry() -> Scanner {
    let mut scanner = Scanner::new();
    scanner.upsert(Device {
        id: "dev1".to_string(),
        name: "Kitchen".to_string(),
        addr: Address::v4(192, 168, 1, 10, 7000),
    });
    scanner.upsert(Device {
        id: "dev2".to_string(),
        name: "Bedroom".to_string(),
        addr: Address::v4(192, 168, 1, 11, 7000),
    });
    scanner
}

#[test]
fn status_of_idle_session() {
    let scanner = registry();
    let streamer = Streamer::new();
    let shown = status(&scanner, &streamer);
    assert_eq!(shown.device, None);
    assert_eq!(shown.volume, None);
    assert_eq!(shown.devices.len(), 2);
    assert_eq!(shown.devices[0].id, "dev1");
    assert_eq!(shown.devices[1].name, "Bedroom");
}

#[test]
fn request_selects_device_and_volume() {
    let scanner = registry();
    let mut streamer = Streamer::new();
    let request = Request { device: Some("dev2".to_string()), volume: Some(40) };
    let plan = apply(&scanner, &mut streamer, &request).unwrap();
    let addr = Address::v4(192, 168, 1, 11, 7000);
    assert_eq!(
        plan,
        vec![
            Action::StartCapture,
            Action::Connect(addr),
            Action::SetVolume(addr, Level::from_percent(40).unwrap()),
            Action::SetMetadata(addr),
        ]
    );
    let shown = status(&scanner, &streamer);
    assert_eq!(shown.device, Some("dev2".to_string()));
    assert_eq!(shown.volume, Some(40));
}

#[test]
fn request_for_unknown_device_clears_session() {
    let scanner = registry();
    let mut streamer = Streamer::new();
    apply(&scanner, &mut streamer, &Request { device: Some("dev1".to_string()), volume: None }).unwrap();
    let plan = apply(
        &scanner,
        &mut streamer,
        &Request { device: Some("nowhere".to_string()), volume: Some(10) },
    )
    .unwrap();
    assert_eq!(
        plan,
        vec![Action::StopCapture, Action::Teardown(Address::v4(192, 168, 1, 10, 7000))]
    );
    assert_eq!(streamer.addr(), None);
    assert_eq!(streamer.volume().unwrap().percent(), 10);
    let shown = status(&scanner, &streamer);
    assert_eq!(shown.device, None);
    assert_eq!(shown.volume, Some(10));
}

#[test]
fn request_without_device_stops() {
    let scanner = registry();
    let mut streamer = Streamer::new();
    apply(&scanner, &mut streamer, &Request { device: Some("dev1".to_string()), volume: Some(5) }).unwrap();
    let plan = apply(&scanner, &mut streamer, &Request { device: None, volume: None }).unwrap();
    assert_eq!(plan.len(), 2);
    assert_eq!(streamer.addr(), None);
    assert_eq!(streamer.volume(), None);
}

#[test]
fn volume_above_scale_is_refused() {
    let scanner = registry();
    let mut streamer = Streamer::new();
    apply(&scanner, &mut streamer, &Request { device: Some("dev1".to_string()), volume: Some(100) }).unwrap();
    let outcome = apply(
        &scanner,
        &mut streamer,
        &Request { device: Some("dev2".to_string()), volume: Some(101) },
    );
    assert_eq!(outcome.unwrap_err(), RequestError::VolumeOutOfRange);
    assert_eq!(streamer.addr(), Some(Address::v4(192, 168, 1, 10, 7000)));
    assert_eq!(streamer.volume().unwrap().percent(), 100);
    let outcome = apply(&scanner, &mut streamer, &Request { device: None, volume: Some(300) });
    assert_eq!(outcome.unwrap_err(), RequestError::VolumeOutOfRange);
    assert_eq!(streamer.addr(), Some(Address::v4(192, 168, 1, 10, 7000)));
}

#[test]
fn status_names_first_device_at_the_address() {
    let mut scanner = registry();
    scanner.upsert(Device {
        id: "twin".to_string(),
        name: "Kitchen again".to_string(),
        addr: Address::v4(192, 168, 1, 10, 7000),
    });
    let mut streamer = Streamer::new();
    apply(&scanner, &mut streamer, &Request { device: Some("twin".to_string()), volume: None }).unwrap();
    assert_eq!(status(&scanner, &streamer).device, Some("dev1".to_string()));
    scanner.remove("dev1");
    assert_eq!(status(&scanner, &streamer).device, Some("twin".to_string()));
    scanner.remove("twin");
    assert_eq!(status(&scanner, &streamer).device, None);
    assert_eq!(streamer.addr(), Some(Address::v4(192, 168, 1, 10, 7000)));
}
