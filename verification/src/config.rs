//! Configuration of the simulated Modbus devices, and its validation.
//!
//! A configuration lists devices, each with a slave id and holding registers;
//! a register may carry an `on_write` sequence of steps that runs whenever the
//! register is written.
use std::collections::HashMap;
use vstd::prelude::*;

verus! {

broadcast use vstd::std_specs::hash::group_hash_axioms;

/// Why a configuration was rejected.
#[derive(Debug, Clone, PartialEq, Eq)]
pub enum ConfigError {
    /// A device has a slave id outside `1..=254`.
    InvalidSlaveId(u8),
    /// A device lists the same holding register address twice
    /// (the address, then the device's slave id).
    DuplicateAddress(u16, u8),
    /// A register's `on_write` sequence has no steps (the register's address).
    EmptySequence(u16),
    /// The configuration text could not be read as YAML (the reader's message).
    YamlError(String),
}

/// The whole simulator configuration.
#[derive(Debug, Clone)]
pub struct Config {
    pub devices: Vec<DeviceConfig>,
}

/// One virtual device.
#[derive(Debug, Clone)]
pub struct DeviceConfig {
    pub slave_id: u8,
    pub holding_registers: Vec<HoldingRegister>,
}

/// One holding register of a device.
#[derive(Debug, Clone)]
pub struct HoldingRegister {
    pub address: u16,
    pub initial_value: u16,
    pub on_write: Option<OnWrite>,
}

/// The sequence run when a register is written.
#[derive(Debug, Clone)]
pub struct OnWrite {
    pub sequence: Vec<Step>,
}

/// One step of an `on_write` sequence.
#[derive(Debug, Clone, Copy, PartialEq, Eq, Structural)]
pub enum Step {
    /// Set a register of the device to a value.
    SetRegister { address: u16, value: u16 },
    /// Set a register to a value, then hold for `duration_ms` milliseconds.
    ForMs { address: u16, value: u16, duration_ms: u64 },
    /// Wait `duration_ms` milliseconds.
    WaitMs { duration_ms: u64 },
}

/// Slave ids that a device may have.
pub open spec fn valid_slave_id(slave_id: u8) -> bool {
    1 <= slave_id <= 254
}

/// Register `j` repeats the address of an earlier register.
pub open spec fn address_seen_before(regs: Seq<HoldingRegister>, j: int) -> bool {
    exists|k: int| 0 <= k < j && #[trigger] regs[k].address == regs[j].address
}

/// The register has an `on_write` sequence with no steps.
pub open spec fn has_empty_sequence(reg: HoldingRegister) -> bool {
    reg.on_write matches Some(on_write) && on_write.sequence@.len() == 0
}

/// What is wrong with register `j` of a device, judged in list order:
/// a repeated address first, then an empty sequence.
pub open spec fn register_error(regs: Seq<HoldingRegister>, j: int, slave_id: u8) -> Option<
    ConfigError,
> {
    if address_seen_before(regs, j) {
        Some(ConfigError::DuplicateAddress(regs[j].address, slave_id))
    } else if has_empty_sequence(regs[j]) {
        Some(ConfigError::EmptySequence(regs[j].address))
    } else {
        None
    }
}

/// The first error among the first `n` registers of a device.
pub open spec fn first_register_error(regs: Seq<HoldingRegister>, slave_id: u8, n: int) -> Option<
    ConfigError,
>
    decreases n,
{
    if n <= 0 {
        None
    } else {
        match first_register_error(regs, slave_id, n - 1) {
            Some(e) => Some(e),
            None => register_error(regs, n - 1, slave_id),
        }
    }
}

/// The first error of a device: its slave id, then its registers in order.
pub open spec fn device_error(device: DeviceConfig) -> Option<ConfigError> {
    if !valid_slave_id(device.slave_id) {
        Some(ConfigError::InvalidSlaveId(device.slave_id))
    } else {
        first_register_error(
            device.holding_registers@,
            device.slave_id,
            device.holding_registers@.len() as int,
        )
    }
}

/// The first error among the first `n` devices.
pub open spec fn first_device_error(devices: Seq<DeviceConfig>, n: int) -> Option<ConfigError>
    decreases n,
{
    if n <= 0 {
        None
    } else {
        match first_device_error(devices, n - 1) {
            Some(e) => Some(e),
            None => device_error(devices[n - 1]),
        }
    }
}

/// What validating a configuration gives: the first error met, in the order
/// devices and registers are listed, or success.
pub open spec fn validation_result(config: Config) -> Result<(), ConfigError> {
    match first_device_error(config.devices@, config.devices@.len() as int) {
        Some(e) => Err(e),
        None => Ok(()),
    }
}

/// A device is well formed: its slave id is in `1..=254`, no two of its
/// registers share an address, and no `on_write` sequence is empty.
pub open spec fn device_well_formed(device: DeviceConfig) -> bool {
    let regs = device.holding_registers@;
    &&& valid_slave_id(device.slave_id)
    &&& forall|j: int, k: int|
        0 <= j < k < regs.len() ==> #[trigger] regs[j].address != #[trigger] regs[k].address
    &&& forall|j: int| 0 <= j < regs.len() ==> !has_empty_sequence(#[trigger] regs[j])
}

/// Every device of the configuration is well formed.
pub open spec fn config_well_formed(config: Config) -> bool {
    forall|i: int|
        0 <= i < config.devices@.len() ==> device_well_formed(#[trigger] config.devices@[i])
}

/// Once an error is found among the first `n` registers, it stays the first error.
proof fn lemma_register_error_persists(regs: Seq<HoldingRegister>, slave_id: u8, n: int, m: int)
    requires
        0 <= n <= m,
        first_register_error(regs, slave_id, n) is Some,
    ensures
        first_register_error(regs, slave_id, m) == first_register_error(regs, slave_id, n),
    decreases m - n,
{
    if n < m {
        lemma_register_error_persists(regs, slave_id, n, m - 1);
    }
}

/// Once an error is found among the first `n` devices, it stays the first error.
proof fn lemma_device_error_persists(devices: Seq<DeviceConfig>, n: int, m: int)
    requires
        0 <= n <= m,
        first_device_error(devices, n) is Some,
    ensures
        first_device_error(devices, m) == first_device_error(devices, n),
    decreases m - n,
{
    if n < m {
        lemma_device_error_persists(devices, n, m - 1);
    }
}

/// The first `n` registers have no error exactly when their addresses are
/// distinct and none of their sequences is empty.
proof fn lemma_register_error_none(regs: Seq<HoldingRegister>, slave_id: u8, n: int)
    requires
        0 <= n <= regs.len(),
    ensures
        first_register_error(regs, slave_id, n) is None <==> {
            &&& forall|j: int, k: int|
                0 <= j < k < n ==> #[trigger] regs[j].address != #[trigger] regs[k].address
            &&& forall|j: int| 0 <= j < n ==> !has_empty_sequence(#[trigger] regs[j])
        },
    decreases n,
{
    if n > 0 {
        lemma_register_error_none(regs, slave_id, n - 1);
        if first_register_error(regs, slave_id, n - 1) is None {
            if address_seen_before(regs, n - 1) {
                let k = choose|k: int| 0 <= k < n - 1 && #[trigger] regs[k].address == regs[n - 1].address;
                assert(regs[k].address == regs[n - 1].address);
            }
        }
    }
}

/// A device has no error exactly when it is well formed.
proof fn lemma_device_error_none(device: DeviceConfig)
    ensures
        device_error(device) is None <==> device_well_formed(device),
{
    lemma_register_error_none(
        device.holding_registers@,
        device.slave_id,
        device.holding_registers@.len() as int,
    );
}

/// The first `n` devices have no error exactly when each of them is well formed.
proof fn lemma_device_errors_none(devices: Seq<DeviceConfig>, n: int)
    requires
        0 <= n <= devices.len(),
    ensures
        first_device_error(devices, n) is None <==> forall|i: int|
            0 <= i < n ==> device_well_formed(#[trigger] devices[i]),
    decreases n,
{
    if n > 0 {
        lemma_device_errors_none(devices, n - 1);
        lemma_device_error_none(devices[n - 1]);
    }
}

/// No error among the first `n` devices when each of them has none.
proof fn lemma_no_device_error_prefix(devices: Seq<DeviceConfig>, n: int)
    requires
        0 <= n <= devices.len(),
        forall|d: int| 0 <= d < n ==> device_error(#[trigger] devices[d]) is None,
    ensures
        first_device_error(devices, n) is None,
    decreases n,
{
    if n > 0 {
        lemma_no_device_error_prefix(devices, n - 1);
    }
}

/// No error among the first `n` registers when each of them has none.
proof fn lemma_no_register_error_prefix(regs: Seq<HoldingRegister>, slave_id: u8, n: int)
    requires
        0 <= n <= regs.len(),
        forall|d: int| 0 <= d < n ==> register_error(regs, d, slave_id) is None,
    ensures
        first_register_error(regs, slave_id, n) is None,
    decreases n,
{
    if n > 0 {
        lemma_no_register_error_prefix(regs, slave_id, n - 1);
    }
}

/// The error of device `i` is the one reported when every earlier device is
/// well formed.
proof fn lemma_reported_device(config: Config, i: int)
    requires
        0 <= i < config.devices@.len(),
        forall|d: int| 0 <= d < i ==> device_well_formed(#[trigger] config.devices@[d]),
        device_error(config.devices@[i]) is Some,
    ensures
        validation_result(config) == Err::<(), ConfigError>(
            device_error(config.devices@[i]).unwrap(),
        ),
{
    let devs = config.devices@;
    assert forall|d: int| 0 <= d < i implies device_error(#[trigger] devs[d]) is None by {
        lemma_device_error_none(devs[d]);
    }
    lemma_no_device_error_prefix(devs, i);
    lemma_device_error_persists(devs, i + 1, devs.len() as int);
}

/// The error of register `j` is its device's error when its slave id is valid
/// and every earlier register has none.
proof fn lemma_reported_register(device: DeviceConfig, j: int)
    requires
        valid_slave_id(device.slave_id),
        0 <= j < device.holding_registers@.len(),
        forall|d: int|
            0 <= d < j ==> register_error(device.holding_registers@, d, device.slave_id) is None,
        register_error(device.holding_registers@, j, device.slave_id) is Some,
    ensures
        device_error(device) == register_error(device.holding_registers@, j, device.slave_id),
{
    let regs = device.holding_registers@;
    lemma_no_register_error_prefix(regs, device.slave_id, j);
    lemma_register_error_persists(regs, device.slave_id, j + 1, regs.len() as int);
}

/// A configuration is accepted exactly when every device has a slave id in
/// `1..=254`, no device lists a register address twice, and no `on_write`
/// sequence is empty.
pub proof fn law_validation_accepts(config: Config)
    ensures
        validation_result(config) is Ok <==> forall|i: int|
            #![trigger config.devices@[i]]
            0 <= i < config.devices@.len() ==> {
                let regs = config.devices@[i].holding_registers@;
                &&& 1 <= config.devices@[i].slave_id <= 254
                &&& forall|j: int, k: int|
                    0 <= j < k < regs.len() ==> #[trigger] regs[j].address
                        != #[trigger] regs[k].address
                &&& forall|j: int|
                    0 <= j < regs.len() ==> !(#[trigger] regs[j].on_write matches Some(w)
                        && w.sequence@.len() == 0)
            },
{
    lemma_device_errors_none(config.devices@, config.devices@.len() as int);
}

/// When every device before device `i` is well formed and device `i` has a
/// slave id outside `1..=254`, that slave id is reported.
pub proof fn law_invalid_slave_id_reported(config: Config, i: int)
    requires
        0 <= i < config.devices@.len(),
        forall|d: int|
            #![trigger config.devices@[d]]
            0 <= d < i ==> {
                let regs = config.devices@[d].holding_registers@;
                &&& 1 <= config.devices@[d].slave_id <= 254
                &&& forall|j: int, k: int|
                    0 <= j < k < regs.len() ==> #[trigger] regs[j].address
                        != #[trigger] regs[k].address
                &&& forall|j: int|
                    0 <= j < regs.len() ==> !(#[trigger] regs[j].on_write matches Some(w)
                        && w.sequence@.len() == 0)
            },
        !(1 <= config.devices@[i].slave_id <= 254),
    ensures
        validation_result(config) == Err::<(), ConfigError>(
            ConfigError::InvalidSlaveId(config.devices@[i].slave_id),
        ),
{
    lemma_reported_device(config, i);
}

/// When every device before device `i` is well formed, device `i` has a valid
/// slave id, its registers before `j` have distinct addresses and no empty
/// sequence, and register `j` repeats the address of an earlier register `k`,
/// that address and slave id are reported.
pub proof fn law_duplicate_address_reported(config: Config, i: int, j: int, k: int)
    requires
        0 <= i < config.devices@.len(),
        forall|d: int|
            #![trigger config.devices@[d]]
            0 <= d < i ==> {
                let regs = config.devices@[d].holding_registers@;
                &&& 1 <= config.devices@[d].slave_id <= 254
                &&& forall|x: int, y: int|
                    0 <= x < y < regs.len() ==> #[trigger] regs[x].address
                        != #[trigger] regs[y].address
                &&& forall|x: int|
                    0 <= x < regs.len() ==> !(#[trigger] regs[x].on_write matches Some(w)
                        && w.sequence@.len() == 0)
            },
        1 <= config.devices@[i].slave_id <= 254,
        0 <= k < j < config.devices@[i].holding_registers@.len(),
        forall|x: int, y: int|
            0 <= x < y < j ==> #[trigger] config.devices@[i].holding_registers@[x].address
                != #[trigger] config.devices@[i].holding_registers@[y].address,
        forall|x: int|
            0 <= x < j ==> !(#[trigger] config.devices@[i].holding_registers@[x].on_write matches Some(
                w,
            ) && w.sequence@.len() == 0),
        config.devices@[i].holding_registers@[k].address
            == config.devices@[i].holding_registers@[j].address,
    ensures
        validation_result(config) == Err::<(), ConfigError>(
            ConfigError::DuplicateAddress(
                config.devices@[i].holding_registers@[j].address,
                config.devices@[i].slave_id,
            ),
        ),
{
    let device = config.devices@[i];
    let regs = device.holding_registers@;
    assert(address_seen_before(regs, j));
    assert forall|d: int| 0 <= d < j implies register_error(regs, d, device.slave_id) is None by {
        if address_seen_before(regs, d) {
            let e = choose|e: int| 0 <= e < d && #[trigger] regs[e].address == regs[d].address;
            assert(regs[e].address != regs[d].address);
        }
    }
    lemma_reported_register(device, j);
    lemma_reported_device(config, i);
}

/// When every device before device `i` is well formed, device `i` has a valid
/// slave id, its registers before `j` have distinct addresses and no empty
/// sequence, and register `j` has a new address and an empty `on_write`
/// sequence, that register's address is reported.
pub proof fn law_empty_sequence_reported(config: Config, i: int, j: int)
    requires
        0 <= i < config.devices@.len(),
        forall|d: int|
            #![trigger config.devices@[d]]
            0 <= d < i ==> {
                let regs = config.devices@[d].holding_registers@;
                &&& 1 <= config.devices@[d].slave_id <= 254
                &&& forall|x: int, y: int|
                    0 <= x < y < regs.len() ==> #[trigger] regs[x].address
                        != #[trigger] regs[y].address
                &&& forall|x: int|
                    0 <= x < regs.len() ==> !(#[trigger] regs[x].on_write matches Some(w)
                        && w.sequence@.len() == 0)
            },
        1 <= config.devices@[i].slave_id <= 254,
        0 <= j < config.devices@[i].holding_registers@.len(),
        forall|x: int, y: int|
            0 <= x < y <= j ==> #[trigger] config.devices@[i].holding_registers@[x].address
                != #[trigger] config.devices@[i].holding_registers@[y].address,
        forall|x: int|
            0 <= x < j ==> !(#[trigger] config.devices@[i].holding_registers@[x].on_write matches Some(
                w,
            ) && w.sequence@.len() == 0),
        config.devices@[i].holding_registers@[j].on_write matches Some(w) && w.sequence@.len()
            == 0,
    ensures
        validation_result(config) == Err::<(), ConfigError>(
            ConfigError::EmptySequence(config.devices@[i].holding_registers@[j].address),
        ),
{
    let device = config.devices@[i];
    let regs = device.holding_registers@;
    if address_seen_before(regs, j) {
        let e = choose|e: int| 0 <= e < j && #[trigger] regs[e].address == regs[j].address;
        assert(regs[e].address != regs[j].address);
    }
    assert forall|d: int| 0 <= d < j implies register_error(regs, d, device.slave_id) is None by {
        if address_seen_before(regs, d) {
            let e = choose|e: int| 0 <= e < d && #[trigger] regs[e].address == regs[d].address;
            assert(regs[e].address != regs[d].address);
        }
    }
    lemma_reported_register(device, j);
    lemma_reported_device(config, i);
}

impl Config {
    /// Checks the configuration: every slave id is in `1..=254`, no device
    /// lists a register address twice, and no `on_write` sequence is empty.
    /// The error returned is the first problem met, devices and registers
    /// taken in the order they are listed.
    pub fn validate(&self) -> (r: Result<(), ConfigError>)
        ensures
            r == validation_result(*self),
            r is Ok <==> config_well_formed(*self),
    {
        let n_devices = self.devices.len();
        let mut i: usize = 0;
        while i < n_devices
            invariant
                n_devices == self.devices@.len(),
                0 <= i <= n_devices,
                first_device_error(self.devices@, i as int) is None,
            decreases n_devices - i,
        {
            let device = &self.devices[i];
            if device.slave_id == 0 || device.slave_id > 254 {
                proof {
                    assert(first_device_error(self.devices@, i + 1) is Some);
                    lemma_device_error_persists(self.devices@, i + 1, n_devices as int);
                }
                return Err(ConfigError::InvalidSlaveId(device.slave_id));
            }
            let ghost regs = device.holding_registers@;
            let n_regs = device.holding_registers.len();
            let mut addresses: HashMap<u16, bool> = HashMap::new();
            let mut j: usize = 0;
            while j < n_regs
                invariant
                    n_devices == self.devices@.len(),
                    0 <= i < n_devices,
                    *device == self.devices@[i as int],
                    regs == device.holding_registers@,
                    n_regs == regs.len(),
                    valid_slave_id(device.slave_id),
                    first_device_error(self.devices@, i as int) is None,
                    0 <= j <= n_regs,
                    first_register_error(regs, device.slave_id, j as int) is None,
                    forall|a: u16|
                        addresses@.contains_key(a) <==> exists|k: int|
                            0 <= k < j && #[trigger] regs[k].address == a,
                decreases n_regs - j,
            {
                let reg = &device.holding_registers[j];
                if addresses.contains_key(&reg.address) {
                    proof {
                        assert(address_seen_before(regs, j as int));
                        assert(first_register_error(regs, device.slave_id, j + 1) is Some);
                        lemma_register_error_persists(
                            regs,
                            device.slave_id,
                            j + 1,
                            n_regs as int,
                        );
                        assert(first_device_error(self.devices@, i + 1) is Some);
                        lemma_device_error_persists(self.devices@, i + 1, n_devices as int);
                    }
                    return Err(ConfigError::DuplicateAddress(reg.address, device.slave_id));
                }
                addresses.insert(reg.address, true);
                if let Some(ref on_write) = reg.on_write {
                    if on_write.sequence.len() == 0 {
                        proof {
                            assert(!address_seen_before(regs, j as int));
                            assert(first_register_error(regs, device.slave_id, j + 1) is Some);
                            lemma_register_error_persists(
                                regs,
                                device.slave_id,
                                j + 1,
                                n_regs as int,
                            );
                            assert(first_device_error(self.devices@, i + 1) is Some);
                            lemma_device_error_persists(self.devices@, i + 1, n_devices as int);
                        }
                        return Err(ConfigError::EmptySequence(reg.address));
                    }
                }
                proof {
                    assert(!address_seen_before(regs, j as int));
                    assert(first_register_error(regs, device.slave_id, j + 1) is None);
                    assert forall|a: u16|
                        (exists|k: int| 0 <= k < j + 1 && #[trigger] regs[k].address == a)
                        implies addresses@.contains_key(a) by {
                        let k = choose|k: int| 0 <= k < j + 1 && #[trigger] regs[k].address == a;
                        if k < j {
                            assert(regs[k].address == a);
                        }
                    }
                    assert forall|a: u16| addresses@.contains_key(a) implies exists|k: int|
                        0 <= k < j + 1 && #[trigger] regs[k].address == a by {
                        if a == regs[j as int].address {
                            assert(regs[j as int].address == a);
                        }
                    }
                }
                j += 1;
            }
            proof {
                assert(first_device_error(self.devices@, i + 1) is None);
            }
            i += 1;
        }
        proof {
            lemma_device_errors_none(self.devices@, n_devices as int);
        }
        Ok(())
    }
}

} // verus!
