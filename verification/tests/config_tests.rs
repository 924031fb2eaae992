use mbsim::config::{Config, ConfigError, DeviceConfig, HoldingRegister, OnWrite, Step};

fn register(address: u16, initial_value: u16) -> HoldingRegister {
    HoldingRegister { address, initial_value, on_write: None }
}

fn register_with_sequence(address: u16, initial_value: u16, sequence: Vec<Step>) -> HoldingRegister {
    HoldingRegister { address, initial_value, on_write: Some(OnWrite { sequence }) }
}

fn config_of(devices: Vec<DeviceConfig>) -> Config {
    Config { devices }
}

fn device(slave_id: u8, holding_registers: Vec<HoldingRegister>) -> DeviceConfig {
    DeviceConfig { slave_id, holding_registers }
}

// devices:
//   - slave_id: 1
//     holding_registers:
//       - address: 0
//         initial_value: 100
//       - address: 1
//         initial_value: 200
#[test]
fn test_valid_config() {
    let config = config_of(vec![device(1, vec![register(0, 100), register(1, 200)])]);
    assert!(config.validate().is_ok());
}

// devices:
//   - slave_id: 0
//     holding_registers: []
#[test]
fn test_invalid_slave_id_zero() {
    let config = config_of(vec![device(0, vec![])]);
    assert!(config.validate().is_err());
}

// devices:
//   - slave_id: 255
//     holding_registers: []
#[test]
fn test_invalid_slave_id_too_high() {
    let config = config_of(vec![device(255, vec![])]);
    assert!(config.validate().is_err());
}

// devices:
//   - slave_id: 1
//     holding_registers:
//       - address: 0
//         initial_value: 100
//       - address: 0
//         initial_value: 200
#[test]
fn test_duplicate_addresses() {
    let config = config_of(vec![device(1, vec![register(0, 100), register(0, 200)])]);
    assert!(config.validate().is_err());
}

// devices:
//   - slave_id: 1
//     holding_registers:
//       - address: 0
//         initial_value: 100
//         on_write:
//           sequence: []
#[test]
fn test_empty_sequence() {
    let config = config_of(vec![device(1, vec![register_with_sequence(0, 100, vec![])])]);
    assert!(config.validate().is_err());
}

// devices:
//   - slave_id: 1
//     holding_registers:
//       - address: 0
//         initial_value: 0
//         on_write:
//           sequence:
//             - action: set
//               address: 1
//               value: 100
//             - action: wait_ms
//               duration_ms: 1000
//             - action: for_ms
//               address: 1
//               value: 200
//               duration_ms: 2000
#[test]
fn test_with_sequence() {
    let sequence = vec![
        Step::SetRegister { address: 1, value: 100 },
        Step::WaitMs { duration_ms: 1000 },
        Step::ForMs { address: 1, value: 200, duration_ms: 2000 },
    ];
    let config = config_of(vec![device(1, vec![register_with_sequence(0, 0, sequence)])]);
    assert!(config.validate().is_ok());
}

#[test]
fn validate_reports_invalid_slave_id() {
    assert_eq!(config_of(vec![device(0, vec![])]).validate(), Err(ConfigError::InvalidSlaveId(0)));
    assert_eq!(
        config_of(vec![device(255, vec![])]).validate(),
        Err(ConfigError::InvalidSlaveId(255))
    );
}

#[test]
fn validate_accepts_slave_id_bounds() {
    assert_eq!(config_of(vec![device(1, vec![]), device(254, vec![])]).validate(), Ok(()));
}

#[test]
fn validate_reports_duplicate_address_with_slave_id() {
    let config = config_of(vec![device(7, vec![register(3, 1), register(4, 2), register(3, 5)])]);
    assert_eq!(config.validate(), Err(ConfigError::DuplicateAddress(3, 7)));
}

#[test]
fn validate_reports_empty_sequence_address() {
    let config = config_of(vec![device(2, vec![register(1, 0), register_with_sequence(9, 0, vec![])])]);
    assert_eq!(config.validate(), Err(ConfigError::EmptySequence(9)));
}

#[test]
fn validate_reports_first_problem_in_order() {
    // The duplicate of register 0 comes before the empty sequence of register 5.
    let config = config_of(vec![device(
        1,
        vec![register(0, 0), register(0, 0), register_with_sequence(5, 0, vec![])],
    )]);
    assert_eq!(config.validate(), Err(ConfigError::DuplicateAddress(0, 1)));
    // A register that is both a duplicate and has an empty sequence is reported as a duplicate.
    let config = config_of(vec![device(1, vec![register(4, 0), register_with_sequence(4, 0, vec![])])]);
    assert_eq!(config.validate(), Err(ConfigError::DuplicateAddress(4, 1)));
    // An earlier device's problem is reported before a later device's.
    let config = config_of(vec![
        device(3, vec![register_with_sequence(8, 0, vec![])]),
        device(0, vec![]),
    ]);
    assert_eq!(config.validate(), Err(ConfigError::EmptySequence(8)));
}

#[test]
fn validate_allows_same_address_on_different_devices() {
    let config = config_of(vec![device(1, vec![register(0, 1)]), device(2, vec![register(0, 2)])]);
    assert_eq!(config.validate(), Ok(()));
}

#[test]
fn validate_accepts_empty_config() {
    assert_eq!(config_of(vec![]).validate(), Ok(()));
}
