use mbsim::config::{Config, DeviceConfig, HoldingRegister, OnWrite, Step};
use mbsim::device::{DeviceError, DeviceManager, RegisterStorage};

fn register(address: u16, initial_value: u16) -> HoldingRegister {
    HoldingRegister { address, initial_value, on_write: None }
}

fn register_with_sequence(address: u16, initial_value: u16, sequence: Vec<Step>) -> HoldingRegister {
    HoldingRegister { address, initial_value, on_write: Some(OnWrite { sequence }) }
}

fn valid_config(devices: Vec<DeviceConfig>) -> Config {
    let config = Config { devices };
    config.validate().unwrap();
    config
}

/// Runs a triggered sequence to its end, skipping the pauses.
fn run_sequence(manager: &mut DeviceManager, slave_id: u8, steps: &[Step]) {
    for step in steps {
        manager.execute_step(slave_id, step).unwrap();
    }
}

fn single_empty_device() -> DeviceManager {
    DeviceManager::from_config(valid_config(vec![DeviceConfig {
        slave_id: 1,
        holding_registers: vec![],
    }]))
}

#[test]
fn test_device_manager_from_config() {
    let config = valid_config(vec![DeviceConfig {
        slave_id: 1,
        holding_registers: vec![register(0, 100), register(1, 200)],
    }]);
    let manager = DeviceManager::from_config(config);

    let regs = manager.read_holding_registers(1, 0, 2).unwrap();
    assert_eq!(regs, vec![100, 200]);
}

#[test]
fn test_write_holding_registers() {
    let config = valid_config(vec![DeviceConfig {
        slave_id: 1,
        holding_registers: vec![register(0, 0)],
    }]);
    let mut manager = DeviceManager::from_config(config);

    manager.write_holding_registers(1, 0, vec![42]).unwrap();

    let regs = manager.read_holding_registers(1, 0, 1).unwrap();
    assert_eq!(regs, vec![42]);
}

#[test]
fn test_sequence_execution() {
    let sequence = vec![
        Step::SetRegister { address: 1, value: 100 },
        Step::WaitMs { duration_ms: 10 },
        Step::SetRegister { address: 2, value: 200 },
    ];
    let config = valid_config(vec![DeviceConfig {
        slave_id: 1,
        holding_registers: vec![
            register_with_sequence(0, 0, sequence),
            register(1, 0),
            register(2, 0),
        ],
    }]);
    let mut manager = DeviceManager::from_config(config);

    // Write to address 0 to trigger the sequence
    let (_, sequences) = manager.write_holding_registers(1, 0, vec![1]).unwrap();
    for steps in &sequences {
        run_sequence(&mut manager, 1, steps);
    }

    let regs = manager.read_holding_registers(1, 1, 2).unwrap();
    assert_eq!(regs, vec![100, 200]);
}

#[test]
fn test_multiple_devices() {
    let config = valid_config(vec![
        DeviceConfig { slave_id: 1, holding_registers: vec![register(0, 100)] },
        DeviceConfig { slave_id: 2, holding_registers: vec![register(0, 200)] },
    ]);
    let manager = DeviceManager::from_config(config);

    let regs1 = manager.read_holding_registers(1, 0, 1).unwrap();
    let regs2 = manager.read_holding_registers(2, 0, 1).unwrap();

    assert_eq!(regs1, vec![100]);
    assert_eq!(regs2, vec![200]);
}

#[test]
fn test_device_not_found() {
    let manager = single_empty_device();
    let result = manager.read_holding_registers(99, 0, 1);
    assert!(result.is_err());
}

#[test]
fn test_input_registers_device_not_found() {
    let manager = single_empty_device();
    let result = manager.read_input_registers(99, 0, 1);
    assert!(result.is_err());
}

#[test]
fn test_coils_device_not_found() {
    let manager = single_empty_device();
    let result = manager.read_coils(99, 0, 1);
    assert!(result.is_err());

    let result = manager.write_coils(99, 0, vec![true]);
    assert!(result.is_err());
}

#[test]
fn missing_device_errors_name_the_slave_id() {
    let mut manager = single_empty_device();
    assert_eq!(manager.read_holding_registers(7, 0, 1), Err(DeviceError::DeviceNotFound(7)));
    assert_eq!(manager.read_discrete_inputs(8, 0, 1), Err(DeviceError::DeviceNotFound(8)));
    assert_eq!(
        manager.write_holding_registers(9, 0, vec![1]).map(|(w, _)| w),
        Err(DeviceError::DeviceNotFound(9))
    );
    assert_eq!(
        manager.execute_step(10, &Step::WaitMs { duration_ms: 1 }),
        Err(DeviceError::DeviceNotFound(10))
    );
}

#[test]
fn unconfigured_registers_read_zero() {
    let manager = DeviceManager::from_config(valid_config(vec![DeviceConfig {
        slave_id: 1,
        holding_registers: vec![register(5, 55)],
    }]));
    assert_eq!(manager.read_holding_registers(1, 3, 4).unwrap(), vec![0, 0, 55, 0]);
    assert_eq!(manager.read_holding_registers(1, 3, 0).unwrap(), Vec::<u16>::new());
}

#[test]
fn reads_wrap_past_the_last_address() {
    let manager = DeviceManager::from_config(valid_config(vec![DeviceConfig {
        slave_id: 1,
        holding_registers: vec![register(65535, 7), register(0, 8), register(1, 9)],
    }]));
    assert_eq!(manager.read_holding_registers(1, 65535, 3).unwrap(), vec![7, 8, 9]);
}

#[test]
fn writes_wrap_and_read_back() {
    let mut manager = single_empty_device();
    let (written, sequences) = manager.write_holding_registers(1, 65534, vec![1, 2, 3, 4]).unwrap();
    assert_eq!(written, (65534, 4));
    assert!(sequences.is_empty());
    assert_eq!(manager.read_holding_registers(1, 65534, 4).unwrap(), vec![1, 2, 3, 4]);
    assert_eq!(manager.read_holding_registers(1, 0, 2).unwrap(), vec![3, 4]);
}

#[test]
fn writes_leave_other_registers_and_devices_alone() {
    let mut manager = DeviceManager::from_config(valid_config(vec![
        DeviceConfig { slave_id: 1, holding_registers: vec![register(0, 10), register(3, 30)] },
        DeviceConfig { slave_id: 2, holding_registers: vec![register(1, 21)] },
    ]));
    manager.write_holding_registers(1, 1, vec![11, 12]).unwrap();
    assert_eq!(manager.read_holding_registers(1, 0, 4).unwrap(), vec![10, 11, 12, 30]);
    assert_eq!(manager.read_holding_registers(2, 0, 3).unwrap(), vec![0, 21, 0]);
}

#[test]
fn a_longer_write_wraps_onto_itself_and_the_count_is_truncated() {
    let mut manager = single_empty_device();
    let mut values = vec![0u16; 65537];
    values[0] = 1;
    values[65536] = 2;
    let (written, _) = manager.write_holding_registers(1, 0, values).unwrap();
    // 65537 values: the count is reported modulo 65536, and the last value
    // lands on address 0 again.
    assert_eq!(written, (0, 1));
    assert_eq!(manager.read_holding_registers(1, 0, 1).unwrap(), vec![2]);
}

#[test]
fn writes_return_triggered_sequences_in_write_order() {
    let first = vec![Step::SetRegister { address: 10, value: 1 }];
    let second = vec![Step::WaitMs { duration_ms: 5 }, Step::SetRegister { address: 11, value: 2 }];
    let mut manager = DeviceManager::from_config(valid_config(vec![DeviceConfig {
        slave_id: 4,
        holding_registers: vec![
            register_with_sequence(2, 0, second.clone()),
            register(1, 0),
            register_with_sequence(0, 0, first.clone()),
        ],
    }]));
    let (_, sequences) = manager.write_holding_registers(4, 0, vec![7, 8, 9]).unwrap();
    assert_eq!(sequences, vec![first.clone(), second]);
    let (_, sequences) = manager.write_holding_registers(4, 0, vec![7]).unwrap();
    assert_eq!(sequences, vec![first]);
    let (_, sequences) = manager.write_holding_registers(4, 1, vec![7]).unwrap();
    assert!(sequences.is_empty());
}

#[test]
fn steps_write_and_report_their_pause() {
    let mut manager = single_empty_device();
    assert_eq!(manager.execute_step(1, &Step::SetRegister { address: 3, value: 33 }), Ok(None));
    assert_eq!(
        manager.execute_step(1, &Step::ForMs { address: 4, value: 44, duration_ms: 2000 }),
        Ok(Some(2000))
    );
    assert_eq!(manager.execute_step(1, &Step::WaitMs { duration_ms: 1000 }), Ok(Some(1000)));
    assert_eq!(manager.read_holding_registers(1, 3, 2).unwrap(), vec![33, 44]);
}

#[test]
fn a_later_device_with_the_same_slave_id_wins() {
    let config = Config {
        devices: vec![
            DeviceConfig { slave_id: 3, holding_registers: vec![register(0, 1)] },
            DeviceConfig { slave_id: 3, holding_registers: vec![register(0, 2)] },
        ],
    };
    let manager = DeviceManager::from_config(config);
    assert_eq!(manager.read_holding_registers(3, 0, 1).unwrap(), vec![2]);
}

#[test]
fn placeholder_operations_answer_defaults() {
    let manager = single_empty_device();
    assert_eq!(manager.read_input_registers(1, 100, 3).unwrap(), vec![0, 0, 0]);
    assert_eq!(manager.read_discrete_inputs(1, 100, 2).unwrap(), vec![false, false]);
    assert_eq!(manager.read_coils(1, 100, 1).unwrap(), vec![false]);
    assert_eq!(manager.write_coils(1, 100, vec![true, false, true]).unwrap(), (100, 3));
}

#[test]
fn register_storage_follows_its_configuration() {
    let device = DeviceConfig {
        slave_id: 1,
        holding_registers: vec![
            register(0, 5),
            register_with_sequence(1, 6, vec![Step::WaitMs { duration_ms: 3 }]),
        ],
    };
    let mut storage = RegisterStorage::new(&device);
    assert_eq!(storage.read_holding_register(0), Some(5));
    assert_eq!(storage.read_holding_register(1), Some(6));
    assert_eq!(storage.read_holding_register(2), None);
    assert_eq!(storage.get_on_write_sequence(1), Some(vec![Step::WaitMs { duration_ms: 3 }]));
    assert_eq!(storage.get_on_write_sequence(0), None);
    storage.write_holding_register(2, 9);
    assert_eq!(storage.read_holding_register(2), Some(9));
    assert_eq!(storage.execute_step(&Step::ForMs { address: 0, value: 1, duration_ms: 4 }), Some(4));
    assert_eq!(storage.read_holding_register(0), Some(1));
}

#[test]
fn a_sequence_leaves_the_last_value_written_to_each_register() {
    let sequence = vec![
        Step::SetRegister { address: 1, value: 100 },
        Step::ForMs { address: 2, value: 7, duration_ms: 1 },
        Step::WaitMs { duration_ms: 1 },
        Step::ForMs { address: 1, value: 200, duration_ms: 1 },
    ];
    let mut manager = DeviceManager::from_config(valid_config(vec![DeviceConfig {
        slave_id: 1,
        holding_registers: vec![register_with_sequence(0, 0, sequence.clone()), register(3, 33)],
    }]));
    let (_, sequences) = manager.write_holding_registers(1, 0, vec![5]).unwrap();
    assert_eq!(sequences, vec![sequence.clone()]);
    run_sequence(&mut manager, 1, &sequences[0]);
    assert_eq!(manager.read_holding_registers(1, 0, 4).unwrap(), vec![5, 200, 7, 33]);
    // Running the sequence did not change what a write to register 0 triggers.
    let (_, again) = manager.write_holding_registers(1, 0, vec![6]).unwrap();
    assert_eq!(again, vec![sequence]);
}
