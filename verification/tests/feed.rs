use air_vinyl::address::Address;
use air_vinyl::discovery::Scanner;
use air_vinyl::events::Event;
use air_vinyl::feed::{
    parse_address_line, parse_browse_line, parse_column_line, parse_endpoint_line, Browse,
    FeedError,
};

#[test]
fn resolved_record() {
    let line = "=;eth0;IPv4;AABBCC@Kitchen;_raop._tcp;local;kitchen.local;192.168.1.10;7000;\"tp=UDP\"";
    match parse_browse_line(line).unwrap() {
        Browse::Resolved { id, name, host, port } => {
            assert_eq!(id, "AABBCC@Kitchen");
            assert_eq!(name, "kitchen.local");
            assert_eq!(host, "192.168.1.10");
            assert_eq!(port, 7000);
        }
        other => panic!("unexpected record {:?}", other),
    }
}

#[test]
fn resolved_record_without_text_field() {
    let line = "=;eth0;IPv4;dev1;_raop._tcp;local;Kitchen;10.0.0.2;5000";
    match parse_browse_line(line).unwrap() {
        Browse::Resolved { id, name, host, port } => {
            assert_eq!(id, "dev1");
            assert_eq!(name, "Kitchen");
            assert_eq!(host, "10.0.0.2");
            assert_eq!(port, 5000);
        }
        other => panic!("unexpected record {:?}", other),
    }
}

#[test]
fn announced_and_removed_records() {
    match parse_browse_line("+;eth0;IPv4;dev1;_raop._tcp;local").unwrap() {
        Browse::Announced { id } => assert_eq!(id, "dev1"),
        other => panic!("unexpected record {:?}", other),
    }
    match parse_browse_line("-;eth0;IPv4;dev1;_raop._tcp;local").unwrap() {
        Browse::Removed { id } => assert_eq!(id, "dev1"),
        other => panic!("unexpected record {:?}", other),
    }
}

#[test]
fn record_with_characters_of_several_bytes() {
    let line = "=;wlan0;IPv6;Küche ☕;_raop._tcp;local;küche.local;fe80::1;7000";
    match parse_browse_line(line).unwrap() {
        Browse::Resolved { id, name, host, port } => {
            assert_eq!(id, "Küche ☕");
            assert_eq!(name, "küche.local");
            assert_eq!(host, "fe80::1");
            assert_eq!(port, 7000);
        }
        other => panic!("unexpected record {:?}", other),
    }
}

#[test]
fn empty_fields_are_fields() {
    match parse_browse_line("-;;;;;").unwrap() {
        Browse::Removed { id } => assert_eq!(id, ""),
        other => panic!("unexpected record {:?}", other),
    }
}

#[test]
fn lines_that_are_no_records() {
    assert_eq!(parse_browse_line("").unwrap_err(), FeedError::MissingField);
    assert_eq!(parse_browse_line("+;eth0;IPv4;dev1;_raop._tcp").unwrap_err(), FeedError::MissingField);
    assert_eq!(
        parse_browse_line("=;eth0;IPv4;dev1;_raop._tcp;local;Kitchen;10.0.0.2").unwrap_err(),
        FeedError::MissingField
    );
    assert_eq!(
        parse_browse_line("?;eth0;IPv4;dev1;_raop._tcp;local").unwrap_err(),
        FeedError::UnknownMark
    );
    assert_eq!(
        parse_browse_line("==;eth0;IPv4;dev1;_raop._tcp;local").unwrap_err(),
        FeedError::UnknownMark
    );
    assert_eq!(
        parse_browse_line(";eth0;IPv4;dev1;_raop._tcp;local").unwrap_err(),
        FeedError::UnknownMark
    );
}

fn port_of(text: &str) -> Result<u16, FeedError> {
    let line = format!("=;eth0;IPv4;dev1;_raop._tcp;local;Kitchen;10.0.0.2;{}", text);
    match parse_browse_line(&line) {
        Ok(Browse::Resolved { port, .. }) => Ok(port),
        Ok(other) => panic!("unexpected record {:?}", other),
        Err(error) => Err(error),
    }
}

#[test]
fn ports() {
    assert_eq!(port_of("0"), Ok(0));
    assert_eq!(port_of("7000"), Ok(7000));
    assert_eq!(port_of("65535"), Ok(65535));
    assert_eq!(port_of("+80"), Ok(80));
    assert_eq!(port_of("00080"), Ok(80));
    assert_eq!(port_of("000000000000000000000000080"), Ok(80));
    assert_eq!(port_of("65536"), Err(FeedError::BadPort));
    assert_eq!(port_of("99999999999999999999"), Err(FeedError::BadPort));
    assert_eq!(port_of(""), Err(FeedError::BadPort));
    assert_eq!(port_of("+"), Err(FeedError::BadPort));
    assert_eq!(port_of("-1"), Err(FeedError::BadPort));
    assert_eq!(port_of("++1"), Err(FeedError::BadPort));
    assert_eq!(port_of("70a0"), Err(FeedError::BadPort));
    assert_eq!(port_of(" 7000"), Err(FeedError::BadPort));
}

#[test]
fn ports_agree_with_the_standard_parser() {
    for text in ["0", "1", "+1", "0007", "65535", "65536", "655350", "", "+", "-", "-0", "1 ", "x", "１２"] {
        let line = format!("=;a;b;id;c;d;name;host;{}", text);
        let ours = match parse_browse_line(&line) {
            Ok(Browse::Resolved { port, .. }) => Some(port),
            _ => None,
        };
        assert_eq!(ours, text.parse::<u16>().ok());
    }
}

#[test]
fn feed_to_registry() {
    let mut scanner = Scanner::new();
    let addr = Address::v4(192, 168, 1, 10, 7000);
    let found = parse_browse_line("=;eth0;IPv4;dev1;_raop._tcp;local;Kitchen;192.168.1.10;7000").unwrap();
    assert_eq!(found.id(), "dev1");
    let event = found.into_event(Some(addr)).unwrap();
    assert!(scanner.apply(event));
    let snapshot = scanner.read_devices();
    assert_eq!(snapshot.len(), 1);
    assert_eq!(snapshot[0].id, "dev1");
    assert_eq!(snapshot[0].name, "Kitchen");
    assert_eq!(snapshot[0].addr, addr);

    let gone = parse_browse_line("-;eth0;IPv4;dev1;_raop._tcp;local").unwrap();
    let event = gone.into_event(None).unwrap();
    assert!(scanner.apply(event));
    assert!(scanner.read_devices().is_empty());
}

#[test]
fn records_without_address_give_no_add() {
    let found = parse_browse_line("=;eth0;IPv4;dev1;_raop._tcp;local;Kitchen;nonsense;7000").unwrap();
    assert!(found.into_event(None).is_none());
    let announced = parse_browse_line("+;eth0;IPv4;dev1;_raop._tcp;local").unwrap();
    assert!(announced.into_event(None).is_none());
}

#[test]
fn announced_service_is_named_by_its_identifier() {
    let addr = Address::v4(10, 0, 0, 7, 5000);
    let announced = Browse::Announced { id: "Living Room".to_string() };
    match announced.into_event(Some(addr)).unwrap() {
        Event::Add(device) => {
            assert_eq!(device.id, "Living Room");
            assert_eq!(device.name, "Living Room");
            assert_eq!(device.addr, addr);
        }
        other => panic!("unexpected event {:?}", other),
    }
}

fn column_line(mark: &str, name: &str) -> String {
    format!("12:00:00.001  {}        2   4 local.               _raop._tcp.          {}", mark, name)
}

#[test]
fn column_lines() {
    let line = column_line("Add", "AABBCC@Kitchen");
    assert_eq!(&line[14..17], "Add");
    assert_eq!(&line[73..], "AABBCC@Kitchen");
    match parse_column_line(&line).unwrap() {
        Some(Browse::Announced { id }) => assert_eq!(id, "AABBCC@Kitchen"),
        other => panic!("unexpected record {:?}", other),
    }
    match parse_column_line(&column_line("Rmv", "Küche")).unwrap() {
        Some(Browse::Removed { id }) => assert_eq!(id, "Küche"),
        other => panic!("unexpected record {:?}", other),
    }
    assert!(parse_column_line("DATE: ---Tue 01 Jan 2019---").unwrap().is_none());
    assert!(parse_column_line("DATE:").unwrap().is_none());
}

#[test]
fn column_lines_that_are_no_records() {
    assert_eq!(parse_column_line("").unwrap_err(), FeedError::MissingField);
    assert_eq!(parse_column_line("12:00:00.001  Add").unwrap_err(), FeedError::MissingField);
    assert_eq!(parse_column_line(&column_line("Upd", "x")).unwrap_err(), FeedError::UnknownMark);
    let mut broken = column_line("Add", "");
    broken.truncate(72);
    broken.push('é');
    broken.push_str("tail");
    assert_eq!(broken.as_bytes().len(), 78);
    assert_eq!(parse_column_line(&broken).unwrap_err(), FeedError::BrokenText);
}

#[test]
fn column_line_with_empty_name() {
    let line = column_line("Add", "");
    assert_eq!(line.len(), 73);
    match parse_column_line(&line).unwrap() {
        Some(Browse::Announced { id }) => assert_eq!(id, ""),
        other => panic!("unexpected record {:?}", other),
    }
}

#[test]
fn endpoint_lines() {
    let line = "12:00:00.100  Kitchen._raop._tcp.local. can be reached at Kitchen.local.:7000 (interface 4)";
    let endpoint = parse_endpoint_line(line).unwrap();
    assert_eq!(endpoint.host, "Kitchen.local.");
    assert_eq!(endpoint.port, 7000);

    let bare = parse_endpoint_line("x can be reached at host:80").unwrap();
    assert_eq!(bare.host, "host");
    assert_eq!(bare.port, 80);

    let more = parse_endpoint_line("x can be reached at host:80:90 rest").unwrap();
    assert_eq!(more.host, "host");
    assert_eq!(more.port, 80);

    let twice = parse_endpoint_line("a can be reached at h1:1 can be reached at h2:2").unwrap();
    assert_eq!(twice.host, "h1");
    assert_eq!(twice.port, 1);
}

#[test]
fn endpoint_lines_that_give_none() {
    assert_eq!(parse_endpoint_line("").unwrap_err(), FeedError::MissingField);
    assert_eq!(parse_endpoint_line("nothing to see").unwrap_err(), FeedError::MissingField);
    assert_eq!(parse_endpoint_line("x can be reached at host 80").unwrap_err(), FeedError::MissingField);
    assert_eq!(parse_endpoint_line("x can be reached at ").unwrap_err(), FeedError::MissingField);
    assert_eq!(parse_endpoint_line("x can be reached at host:").unwrap_err(), FeedError::BadPort);
    assert_eq!(parse_endpoint_line("x can be reached at host:http").unwrap_err(), FeedError::BadPort);
    assert_eq!(parse_endpoint_line("x can be reached at host:70000").unwrap_err(), FeedError::BadPort);
}

#[test]
fn address_column() {
    let line = format!("{:69}{:<15}  120", "12:00:00.200  Add     2  4 Kitchen.local.", "192.168.1.10");
    assert_eq!(&line[69..84], "192.168.1.10   ");
    let column = parse_address_line(&line).unwrap();
    assert_eq!(column, "192.168.1.10   ");
    assert_eq!(column.trim(), "192.168.1.10");
    assert_eq!(parse_address_line("too short").unwrap_err(), FeedError::MissingField);
    let broken = format!("{:68}é{:20}", "", "");
    assert_eq!(parse_address_line(&broken).unwrap_err(), FeedError::BrokenText);
}
