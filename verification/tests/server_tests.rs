use mbsim::config::{Config, DeviceConfig, HoldingRegister, OnWrite, Step};
use mbsim::device::DeviceManager;
use mbsim::server::{handle_request, is_supported, Request, Response};

fn manager_with(slave_id: u8, holding_registers: Vec<HoldingRegister>) -> DeviceManager {
    DeviceManager::from_config(Config { devices: vec![DeviceConfig { slave_id, holding_registers }] })
}

fn register(address: u16, initial_value: u16) -> HoldingRegister {
    HoldingRegister { address, initial_value, on_write: None }
}

fn holding(response: Response) -> Vec<u16> {
    match response {
        Response::ReadHoldingRegisters(values) => values,
        other => panic!("unexpected response {:?}", other),
    }
}

#[test]
fn serves_holding_register_reads_and_writes_on_slave_one() {
    let mut manager = manager_with(1, vec![register(0, 100), register(1, 200)]);
    let (response, sequences) = handle_request(&mut manager, Request::ReadHoldingRegisters(0, 2));
    assert_eq!(holding(response), vec![100, 200]);
    assert!(sequences.is_empty());

    let (response, _) = handle_request(&mut manager, Request::WriteMultipleRegisters(1, vec![5, 6]));
    assert!(matches!(response, Response::WriteMultipleRegisters(1, 2)));
    let (response, _) = handle_request(&mut manager, Request::ReadHoldingRegisters(0, 3));
    assert_eq!(holding(response), vec![100, 5, 6]);
}

#[test]
fn requests_without_slave_one_get_empty_answers() {
    let mut manager = manager_with(2, vec![register(0, 100)]);
    let (response, _) = handle_request(&mut manager, Request::ReadHoldingRegisters(0, 1));
    assert_eq!(holding(response), Vec::<u16>::new());
    let (response, sequences) =
        handle_request(&mut manager, Request::WriteMultipleRegisters(4, vec![1, 2, 3]));
    assert!(matches!(response, Response::WriteMultipleRegisters(4, 0)));
    assert!(sequences.is_empty());
    let (response, _) = handle_request(&mut manager, Request::WriteMultipleCoils(4, vec![true]));
    assert!(matches!(response, Response::WriteMultipleCoils(4, 0)));
    let (response, _) = handle_request(&mut manager, Request::WriteSingleCoil(6, true));
    assert!(matches!(response, Response::WriteSingleCoil(6, true)));
    let (response, _) = handle_request(&mut manager, Request::ReadCoils(0, 2));
    assert!(matches!(response, Response::ReadCoils(ref v) if v.is_empty()));
    let (response, _) = handle_request(&mut manager, Request::ReadInputRegisters(0, 2));
    assert!(matches!(response, Response::ReadInputRegisters(ref v) if v.is_empty()));
    let (response, _) = handle_request(&mut manager, Request::ReadDiscreteInputs(0, 2));
    assert!(matches!(response, Response::ReadDiscreteInputs(ref v) if v.is_empty()));
}

#[test]
fn placeholder_requests_answer_defaults() {
    let mut manager = manager_with(1, vec![]);
    let (response, _) = handle_request(&mut manager, Request::ReadCoils(0, 2));
    assert!(matches!(response, Response::ReadCoils(ref v) if *v == vec![false, false]));
    let (response, _) = handle_request(&mut manager, Request::ReadDiscreteInputs(0, 1));
    assert!(matches!(response, Response::ReadDiscreteInputs(ref v) if *v == vec![false]));
    let (response, _) = handle_request(&mut manager, Request::ReadInputRegisters(0, 3));
    assert!(matches!(response, Response::ReadInputRegisters(ref v) if *v == vec![0, 0, 0]));
    let (response, _) = handle_request(&mut manager, Request::WriteMultipleCoils(9, vec![true, true]));
    assert!(matches!(response, Response::WriteMultipleCoils(9, 2)));
    let (response, _) = handle_request(&mut manager, Request::WriteSingleCoil(3, false));
    assert!(matches!(response, Response::WriteSingleCoil(3, false)));
}

#[test]
fn register_writes_hand_back_triggered_sequences() {
    let steps = vec![Step::SetRegister { address: 1, value: 100 }];
    let mut manager = manager_with(
        1,
        vec![HoldingRegister { address: 0, initial_value: 0, on_write: Some(OnWrite { sequence: steps.clone() }) }],
    );
    let (_, sequences) = handle_request(&mut manager, Request::WriteMultipleRegisters(0, vec![1]));
    assert_eq!(sequences, vec![steps]);
}

#[test]
fn only_the_served_requests_are_supported() {
    assert!(is_supported(&Request::ReadCoils(0, 1)));
    assert!(is_supported(&Request::ReadDiscreteInputs(0, 1)));
    assert!(is_supported(&Request::WriteSingleCoil(0, true)));
    assert!(is_supported(&Request::WriteMultipleCoils(0, vec![])));
    assert!(is_supported(&Request::ReadInputRegisters(0, 1)));
    assert!(is_supported(&Request::ReadHoldingRegisters(0, 1)));
    assert!(is_supported(&Request::WriteMultipleRegisters(0, vec![])));
    assert!(!is_supported(&Request::WriteSingleRegister(0, 1)));
    assert!(!is_supported(&Request::ReadWriteMultipleRegisters(0, 1, 0, vec![])));
    assert!(!is_supported(&Request::Custom(0x41, vec![])));
    assert!(!is_supported(&Request::Disconnect));
}
