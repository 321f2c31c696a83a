use gtc_control::modbus::{FakeModbusClient, ModbusClient, ModbusError};

#[test]
fn fake_round_trips_holding_writes() {
    let mut client = FakeModbusClient::new();
    client.write_holding(0x10, 0x4242).unwrap();
    let read = client.read_holding(0x10, 1).unwrap();
    assert_eq!(read, vec![0x4242]);
}

#[test]
fn fake_returns_zero_for_unseeded_addresses() {
    let mut client = FakeModbusClient::new();
    let read = client.read_input(0, 3).unwrap();
    assert_eq!(read, vec![0, 0, 0]);
}

#[test]
fn fake_round_trips_coil_writes() {
    let mut client = FakeModbusClient::new();
    client.write_coil(5, true).unwrap();
    let read = client.read_coils(5, 1).unwrap();
    assert_eq!(read, vec![true]);
}

#[test]
fn fake_keeps_the_four_address_spaces_apart() {
    let mut client = FakeModbusClient::default();
    client.holding.insert(7, 1);
    client.input.insert(7, 2);
    client.coils.insert(7, true);
    client.discrete.insert(8, true);
    assert_eq!(client.read_holding(6, 3).unwrap(), vec![0, 1, 0]);
    assert_eq!(client.read_input(7, 1).unwrap(), vec![2]);
    assert_eq!(client.read_coils(7, 2).unwrap(), vec![true, false]);
    assert_eq!(client.read_discrete(7, 2).unwrap(), vec![false, true]);
    client.write_holding(9, 3).unwrap();
    assert_eq!(client.read_holding(7, 3).unwrap(), vec![1, 0, 3]);
    assert_eq!(client.read_holding(u16::MAX, 1).unwrap(), vec![0]);
}

#[test]
fn bus_errors_are_put_into_words() {
    let cases: Vec<(ModbusError, &str)> = vec![
        (
            ModbusError::Resolve { endpoint: "x:502".into() },
            "could not resolve `x:502` to a socket address",
        ),
        (ModbusError::Timeout { millis: 1500 }, "modbus operation timed out after 1500 ms"),
        (ModbusError::Io("broken pipe".into()), "modbus transport I/O error: broken pipe"),
        (ModbusError::Transport("bad frame".into()), "modbus transport error: bad frame"),
        (ModbusError::Exception("ServerDeviceBusy".into()), "modbus exception: ServerDeviceBusy"),
    ];
    for (error, words) in cases {
        assert_eq!(error.to_string(), words);
    }
}
