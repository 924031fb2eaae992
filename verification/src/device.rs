//! Register storage of the virtual devices, and the manager that routes
//! Modbus operations to a device by its slave id.
use std::collections::HashMap;
use vstd::prelude::*;

use crate::config::{config_well_formed, device_well_formed, Config, DeviceConfig, HoldingRegister, Step};

verus! {

broadcast use vstd::std_specs::hash::group_hash_axioms;

/// Why a device operation was refused.
#[derive(Debug, Clone, Copy, PartialEq, Eq, Structural)]
pub enum DeviceError {
    /// No device has this slave id.
    DeviceNotFound(u8),
    /// The device has no register at this address.
    RegisterNotFound(u16),
}

/// The abstract state of one device: the value of each holding register, and
/// the sequence that a write to a register triggers.
pub type DeviceState = (Map<u16, u16>, Map<u16, Seq<Step>>);

/// The address `offset` places after `base`, wrapping past 65535 to 0.
pub open spec fn register_address(base: u16, offset: int) -> u16 {
    ((base + offset) % 65536) as u16
}

/// The value read from a register: its stored value, or 0 where the device has
/// no register at that address.
pub open spec fn register_value(registers: Map<u16, u16>, address: u16) -> u16 {
    if registers.contains_key(address) {
        registers[address]
    } else {
        0
    }
}

/// The values read from `count` consecutive registers starting at `address`.
pub open spec fn read_values(registers: Map<u16, u16>, address: u16, count: nat) -> Seq<u16> {
    Seq::new(count, |i: int| register_value(registers, register_address(address, i)))
}

/// The registers after writing `values` to consecutive addresses starting at
/// `address`, one after the other.
pub open spec fn written_registers(registers: Map<u16, u16>, address: u16, values: Seq<u16>) -> Map<
    u16,
    u16,
>
    decreases values.len(),
{
    if values.len() == 0 {
        registers
    } else {
        written_registers(registers, address, values.drop_last()).insert(
            register_address(address, values.len() - 1),
            values.last(),
        )
    }
}

/// The sequences triggered by writing `n` consecutive registers starting at
/// `address`, in the order the registers are written.
pub open spec fn triggered_sequences(triggers: Map<u16, Seq<Step>>, address: u16, n: nat) -> Seq<
    Seq<Step>,
>
    decreases n,
{
    if n == 0 {
        Seq::empty()
    } else {
        let earlier = triggered_sequences(triggers, address, (n - 1) as nat);
        let a = register_address(address, n - 1);
        if triggers.contains_key(a) {
            earlier.push(triggers[a])
        } else {
            earlier
        }
    }
}

/// The register values of a device as configured; a later entry for an
/// address replaces an earlier one.
pub open spec fn initial_registers(regs: Seq<HoldingRegister>) -> Map<u16, u16>
    decreases regs.len(),
{
    if regs.len() == 0 {
        Map::empty()
    } else {
        initial_registers(regs.drop_last()).insert(regs.last().address, regs.last().initial_value)
    }
}

/// The `on_write` sequences of a device as configured.
pub open spec fn initial_triggers(regs: Seq<HoldingRegister>) -> Map<u16, Seq<Step>>
    decreases regs.len(),
{
    if regs.len() == 0 {
        Map::empty()
    } else {
        let earlier = initial_triggers(regs.drop_last());
        match regs.last().on_write {
            Some(on_write) => earlier.insert(regs.last().address, on_write.sequence@),
            None => earlier,
        }
    }
}

/// The state of a device right after it is built from its configuration.
pub open spec fn initial_state(device: DeviceConfig) -> DeviceState {
    (initial_registers(device.holding_registers@), initial_triggers(device.holding_registers@))
}

/// The devices built from a configuration, by slave id; a later device with
/// the same slave id replaces an earlier one.
pub open spec fn initial_devices(devices: Seq<DeviceConfig>) -> Map<u8, DeviceState>
    decreases devices.len(),
{
    if devices.len() == 0 {
        Map::empty()
    } else {
        initial_devices(devices.drop_last()).insert(
            devices.last().slave_id,
            initial_state(devices.last()),
        )
    }
}

/// The state of a device after one step of a sequence runs on it.
pub open spec fn applied_step(state: DeviceState, step: Step) -> DeviceState {
    match step {
        Step::SetRegister { address, value } => (state.0.insert(address, value), state.1),
        Step::ForMs { address, value, duration_ms } => (state.0.insert(address, value), state.1),
        Step::WaitMs { duration_ms } => state,
    }
}

/// How long the sequence pauses after a step, in milliseconds: no pause after
/// a `SetRegister`.
pub open spec fn step_delay(step: Step) -> Option<u64> {
    match step {
        Step::SetRegister { address, value } => None,
        Step::ForMs { address, value, duration_ms } => Some(duration_ms),
        Step::WaitMs { duration_ms } => Some(duration_ms),
    }
}

/// The state of a device after the whole sequence of steps ran on it.
pub open spec fn applied_steps(state: DeviceState, steps: Seq<Step>) -> DeviceState
    decreases steps.len(),
{
    if steps.len() == 0 {
        state
    } else {
        applied_step(applied_steps(state, steps.drop_last()), steps.last())
    }
}

/// A sequence of `false`, as returned for coils and discrete inputs.
pub open spec fn all_false(count: nat) -> Seq<bool> {
    Seq::new(count, |i: int| false)
}

/// A sequence of zeros, as returned for input registers.
pub open spec fn all_zero(count: nat) -> Seq<u16> {
    Seq::new(count, |i: int| 0u16)
}

/// Copies a sequence of steps.
fn copy_steps(steps: &Vec<Step>) -> (r: Vec<Step>)
    ensures
        r@ == steps@,
{
    let mut r: Vec<Step> = Vec::new();
    let n = steps.len();
    let mut i: usize = 0;
    while i < n
        invariant
            n == steps@.len(),
            0 <= i <= n,
            r@ == steps@.subrange(0, i as int),
        decreases n - i,
    {
        r.push(steps[i]);
        proof {
            assert(r@ =~= steps@.subrange(0, i + 1));
        }
        i += 1;
    }
    proof {
        assert(r@ =~= steps@);
    }
    r
}

/// In-memory register storage of one device.
pub struct RegisterStorage {
    holding_registers: HashMap<u16, u16>,
    on_write_triggers: HashMap<u16, Vec<Step>>,
}

impl View for RegisterStorage {
    type V = DeviceState;

    closed spec fn view(&self) -> DeviceState {
        (
            self.holding_registers@,
            self.on_write_triggers@.map_values(|steps: Vec<Step>| steps@),
        )
    }
}

impl RegisterStorage {
    /// Builds the storage of a device from its configuration: each register
    /// holds its initial value, and each `on_write` sequence is kept by the
    /// address of its register.
    pub fn new(device_config: &DeviceConfig) -> (s: Self)
        ensures
            s@ == initial_state(*device_config),
    {
        let mut holding_registers: HashMap<u16, u16> = HashMap::new();
        let mut on_write_triggers: HashMap<u16, Vec<Step>> = HashMap::new();
        let ghost regs = device_config.holding_registers@;
        let n = device_config.holding_registers.len();
        let mut j: usize = 0;
        while j < n
            invariant
                regs == device_config.holding_registers@,
                n == regs.len(),
                0 <= j <= n,
                holding_registers@ == initial_registers(regs.subrange(0, j as int)),
                on_write_triggers@.map_values(|steps: Vec<Step>| steps@) == initial_triggers(
                    regs.subrange(0, j as int),
                ),
            decreases n - j,
        {
            let reg = &device_config.holding_registers[j];
            let ghost before = on_write_triggers@;
            proof {
                assert(regs.subrange(0, j + 1).drop_last() =~= regs.subrange(0, j as int));
                assert(regs.subrange(0, j + 1).last() == regs[j as int]);
            }
            holding_registers.insert(reg.address, reg.initial_value);
            if let Some(ref on_write) = reg.on_write {
                let sequence = copy_steps(&on_write.sequence);
                on_write_triggers.insert(reg.address, sequence);
                proof {
                    assert(on_write_triggers@.map_values(|steps: Vec<Step>| steps@) =~= before.map_values(
                        |steps: Vec<Step>| steps@,
                    ).insert(reg.address, on_write.sequence@));
                }
            }
            j += 1;
        }
        proof {
            assert(regs.subrange(0, n as int) =~= regs);
        }
        RegisterStorage { holding_registers, on_write_triggers }
    }

    /// The value of the register at `address`, if the device has one there.
    pub fn read_holding_register(&self, address: u16) -> (r: Option<u16>)
        ensures
            r == (if self@.0.contains_key(address) {
                Some(self@.0[address])
            } else {
                None
            }),
    {
        match self.holding_registers.get(&address) {
            Some(v) => Some(*v),
            None => None,
        }
    }

    /// Stores `value` at `address`; the `on_write` sequences stay as they are.
    pub fn write_holding_register(&mut self, address: u16, value: u16)
        ensures
            final(self)@ == (old(self)@.0.insert(address, value), old(self)@.1),
    {
        self.holding_registers.insert(address, value);
    }

    /// The sequence that a write to `address` triggers, if any.
    pub fn get_on_write_sequence(&self, address: u16) -> (r: Option<Vec<Step>>)
        ensures
            match r {
                Some(steps) => self@.1.contains_key(address) && steps@ == self@.1[address],
                None => !self@.1.contains_key(address),
            },
    {
        match self.on_write_triggers.get(&address) {
            Some(steps) => Some(copy_steps(steps)),
            None => None,
        }
    }

    /// Runs one step of a sequence on this device and returns how long the
    /// sequence then pauses (no pause after a `SetRegister`).
    pub fn execute_step(&mut self, step: &Step) -> (delay: Option<u64>)
        ensures
            final(self)@ == applied_step(old(self)@, *step),
            delay == step_delay(*step),
    {
        match *step {
            Step::SetRegister { address, value } => {
                self.write_holding_register(address, value);
                None
            },
            Step::ForMs { address, value, duration_ms } => {
                self.write_holding_register(address, value);
                Some(duration_ms)
            },
            Step::WaitMs { duration_ms } => Some(duration_ms),
        }
    }
}

/// The virtual devices, by slave id.
pub struct DeviceManager {
    devices: HashMap<u8, RegisterStorage>,
}

impl View for DeviceManager {
    type V = Map<u8, DeviceState>;

    closed spec fn view(&self) -> Map<u8, DeviceState> {
        self.devices@.map_values(|storage: RegisterStorage| storage@)
    }
}

/// `offset` counted as a `u16` is added to `address` with wrap-around: the
/// register `offset` places after `address`.
proof fn lemma_offset_address(address: u16, offset: usize)
    ensures
        vstd::wrapping::u16_specs::wrapping_add(address, offset as u16) == register_address(
            address,
            offset as int,
        ),
{
    let t = #[verifier::truncate] (offset as u16);
    assert((#[verifier::truncate] (offset as u16)) as usize == offset % 65536) by (bit_vector);
    assert((address + t) % 65536 == (address + offset) % 65536) by (nonlinear_arith)
        requires
            t == offset % 65536,
    ;
}

impl DeviceManager {
    /// Builds a device for each device of the configuration, keyed by its
    /// slave id; a later device with the same slave id replaces an earlier one.
    pub fn from_config(config: Config) -> (m: Self)
        ensures
            m@ == initial_devices(config.devices@),
    {
        let mut devices: HashMap<u8, RegisterStorage> = HashMap::new();
        let ghost all = config.devices@;
        let n = config.devices.len();
        let mut i: usize = 0;
        while i < n
            invariant
                all == config.devices@,
                n == all.len(),
                0 <= i <= n,
                devices@.map_values(|storage: RegisterStorage| storage@) == initial_devices(
                    all.subrange(0, i as int),
                ),
            decreases n - i,
        {
            let device_config = &config.devices[i];
            let storage = RegisterStorage::new(device_config);
            let ghost before = devices@;
            devices.insert(device_config.slave_id, storage);
            proof {
                assert(all.subrange(0, i + 1).drop_last() =~= all.subrange(0, i as int));
                assert(all.subrange(0, i + 1).last() == all[i as int]);
                assert(devices@.map_values(|storage: RegisterStorage| storage@) =~= before.map_values(
                    |storage: RegisterStorage| storage@,
                ).insert(device_config.slave_id, initial_state(*device_config)));
            }
            i += 1;
        }
        proof {
            assert(all.subrange(0, n as int) =~= all);
        }
        DeviceManager { devices }
    }

    /// The device with this slave id.
    fn get_device(&self, slave_id: u8) -> (r: Result<&RegisterStorage, DeviceError>)
        ensures
            match r {
                Ok(storage) => self@.contains_key(slave_id) && storage@ == self@[slave_id],
                Err(e) => !self@.contains_key(slave_id) && e == DeviceError::DeviceNotFound(
                    slave_id,
                ),
            },
    {
        match self.devices.get(&slave_id) {
            Some(storage) => Ok(storage),
            None => Err(DeviceError::DeviceNotFound(slave_id)),
        }
    }

    /// Reads `count` consecutive holding registers of a device, starting at
    /// `address` and wrapping past 65535; a register the device lacks reads 0.
    pub fn read_holding_registers(&self, slave_id: u8, address: u16, count: u16) -> (r: Result<
        Vec<u16>,
        DeviceError,
    >)
        ensures
            match r {
                Ok(values) => self@.contains_key(slave_id) && values@ == read_values(
                    self@[slave_id].0,
                    address,
                    count as nat,
                ),
                Err(e) => !self@.contains_key(slave_id) && e == DeviceError::DeviceNotFound(
                    slave_id,
                ),
            },
    {
        let storage = self.get_device(slave_id)?;
        let ghost registers = storage@.0;
        let mut result: Vec<u16> = Vec::new();
        let mut i: u16 = 0;
        while i < count
            invariant
                registers == storage@.0,
                0 <= i <= count,
                result@ == read_values(registers, address, i as nat),
            decreases count - i,
        {
            let addr = address.wrapping_add(i);
            proof {
                lemma_offset_address(address, i as usize);
            }
            let value = match storage.read_holding_register(addr) {
                Some(v) => v,
                None => 0,
            };
            result.push(value);
            proof {
                assert(result@ =~= read_values(registers, address, (i + 1) as nat));
            }
            i += 1;
        }
        Ok(result)
    }

    /// Writes `values` to consecutive holding registers of a device, starting
    /// at `address` and wrapping past 65535. Returns the start address and the
    /// number of values written (as a `u16`), together with the `on_write`
    /// sequences of the written registers, in the order they were written, for
    /// the caller to run.
    pub fn write_holding_registers(&mut self, slave_id: u8, address: u16, values: Vec<u16>) -> (r:
        Result<((u16, u16), Vec<Vec<Step>>), DeviceError>)
        ensures
            match r {
                Ok((written, sequences)) => {
                    &&& old(self)@.contains_key(slave_id)
                    &&& written == (address, values@.len() as u16)
                    &&& final(self)@ == old(self)@.insert(
                        slave_id,
                        (
                            written_registers(old(self)@[slave_id].0, address, values@),
                            old(self)@[slave_id].1,
                        ),
                    )
                    &&& sequences@.map_values(|steps: Vec<Step>| steps@) == triggered_sequences(
                        old(self)@[slave_id].1,
                        address,
                        values@.len(),
                    )
                },
                Err(e) => {
                    &&& !old(self)@.contains_key(slave_id)
                    &&& e == DeviceError::DeviceNotFound(slave_id)
                    &&& final(self)@ == old(self)@
                },
            },
    {
        let ghost before = self.devices@;
        let mut storage = match self.devices.remove(&slave_id) {
            Some(storage) => storage,
            None => {
                return Err(DeviceError::DeviceNotFound(slave_id));
            },
        };
        let ghost start = storage@;
        let count = #[verifier::truncate] (values.len() as u16);
        let n = values.len();
        let mut sequences: Vec<Vec<Step>> = Vec::new();
        let mut i: usize = 0;
        while i < n
            invariant
                n == values@.len(),
                0 <= i <= n,
                storage@ == (
                    written_registers(start.0, address, values@.subrange(0, i as int)),
                    start.1,
                ),
                sequences@.map_values(|steps: Vec<Step>| steps@) == triggered_sequences(
                    start.1,
                    address,
                    i as nat,
                ),
            decreases n - i,
        {
            let addr = address.wrapping_add(#[verifier::truncate] (i as u16));
            proof {
                lemma_offset_address(address, i);
                assert(values@.subrange(0, i + 1).drop_last() =~= values@.subrange(0, i as int));
            }
            storage.write_holding_register(addr, values[i]);
            if let Some(sequence) = storage.get_on_write_sequence(addr) {
                let ghost earlier = sequences@;
                sequences.push(sequence);
                proof {
                    assert(sequences@.map_values(|steps: Vec<Step>| steps@) =~= earlier.map_values(
                        |steps: Vec<Step>| steps@,
                    ).push(start.1[addr]));
                }
            }
            i += 1;
        }
        proof {
            assert(values@.subrange(0, n as int) =~= values@);
        }
        let ghost after = storage@;
        self.devices.insert(slave_id, storage);
        proof {
            assert(self@ =~= old(self)@.insert(slave_id, after));
        }
        Ok(((address, count), sequences))
    }

    /// Reads input registers: the device must exist; every input register
    /// reads 0.
    pub fn read_input_registers(&self, slave_id: u8, address: u16, count: u16) -> (r: Result<
        Vec<u16>,
        DeviceError,
    >)
        ensures
            match r {
                Ok(values) => self@.contains_key(slave_id) && values@ == all_zero(count as nat),
                Err(e) => !self@.contains_key(slave_id) && e == DeviceError::DeviceNotFound(
                    slave_id,
                ),
            },
    {
        let _ = self.get_device(slave_id)?;
        let mut result: Vec<u16> = Vec::new();
        let mut i: u16 = 0;
        while i < count
            invariant
                0 <= i <= count,
                result@ == all_zero(i as nat),
            decreases count - i,
        {
            result.push(0);
            proof {
                assert(result@ =~= all_zero((i + 1) as nat));
            }
            i += 1;
        }
        Ok(result)
    }

    /// Reads discrete inputs: the device must exist; every input reads `false`.
    pub fn read_discrete_inputs(&self, slave_id: u8, address: u16, count: u16) -> (r: Result<
        Vec<bool>,
        DeviceError,
    >)
        ensures
            match r {
                Ok(values) => self@.contains_key(slave_id) && values@ == all_false(count as nat),
                Err(e) => !self@.contains_key(slave_id) && e == DeviceError::DeviceNotFound(
                    slave_id,
                ),
            },
    {
        let _ = self.get_device(slave_id)?;
        Ok(falses(count))
    }

    /// Reads coils: the device must exist; every coil reads `false`.
    pub fn read_coils(&self, slave_id: u8, address: u16, count: u16) -> (r: Result<
        Vec<bool>,
        DeviceError,
    >)
        ensures
            match r {
                Ok(values) => self@.contains_key(slave_id) && values@ == all_false(count as nat),
                Err(e) => !self@.contains_key(slave_id) && e == DeviceError::DeviceNotFound(
                    slave_id,
                ),
            },
    {
        let _ = self.get_device(slave_id)?;
        Ok(falses(count))
    }

    /// Writes coils: the device must exist; nothing is stored, and the start
    /// address and the number of values (as a `u16`) are returned.
    pub fn write_coils(&self, slave_id: u8, address: u16, values: Vec<bool>) -> (r: Result<
        (u16, u16),
        DeviceError,
    >)
        ensures
            match r {
                Ok(written) => self@.contains_key(slave_id) && written == (
                    address,
                    values@.len() as u16,
                ),
                Err(e) => !self@.contains_key(slave_id) && e == DeviceError::DeviceNotFound(
                    slave_id,
                ),
            },
    {
        let _ = self.get_device(slave_id)?;
        Ok((address, #[verifier::truncate] (values.len() as u16)))
    }

    /// Runs one step of a sequence on the device with this slave id and
    /// returns how long the sequence then pauses.
    pub fn execute_step(&mut self, slave_id: u8, step: &Step) -> (r: Result<
        Option<u64>,
        DeviceError,
    >)
        ensures
            match r {
                Ok(delay) => {
                    &&& old(self)@.contains_key(slave_id)
                    &&& delay == step_delay(*step)
                    &&& final(self)@ == old(self)@.insert(
                        slave_id,
                        applied_step(old(self)@[slave_id], *step),
                    )
                },
                Err(e) => {
                    &&& !old(self)@.contains_key(slave_id)
                    &&& e == DeviceError::DeviceNotFound(slave_id)
                    &&& final(self)@ == old(self)@
                },
            },
    {
        let mut storage = match self.devices.remove(&slave_id) {
            Some(storage) => storage,
            None => {
                return Err(DeviceError::DeviceNotFound(slave_id));
            },
        };
        let delay = storage.execute_step(step);
        let ghost after = storage@;
        self.devices.insert(slave_id, storage);
        proof {
            assert(self@ =~= old(self)@.insert(slave_id, after));
        }
        Ok(delay)
    }
}

/// `count` values of `false`.
fn falses(count: u16) -> (r: Vec<bool>)
    ensures
        r@ == all_false(count as nat),
{
    let mut result: Vec<bool> = Vec::new();
    let mut i: u16 = 0;
    while i < count
        invariant
            0 <= i <= count,
            result@ == all_false(i as nat),
        decreases count - i,
    {
        result.push(false);
        proof {
            assert(result@ =~= all_false((i + 1) as nat));
        }
        i += 1;
    }
    result
}

/// Writes land at consecutive addresses: after `values` are written from
/// `address`, reading the register `k` places on gives `values[k]`, provided
/// the write does not wrap onto itself (at most 65536 values).
pub proof fn lemma_read_after_write(registers: Map<u16, u16>, address: u16, values: Seq<u16>)
    requires
        values.len() <= 65536,
    ensures
        forall|k: int|
            0 <= k < values.len() ==> register_value(
                written_registers(registers, address, values),
                #[trigger] register_address(address, k),
            ) == values[k],
    decreases values.len(),
{
    if values.len() > 0 {
        let earlier = values.drop_last();
        lemma_read_after_write(registers, address, earlier);
        let last = values.len() - 1;
        assert forall|k: int| 0 <= k < values.len() implies register_value(
            written_registers(registers, address, values),
            #[trigger] register_address(address, k),
        ) == values[k] by {
            if k < last {
                assert(register_address(address, k) != register_address(address, last));
                assert(earlier[k] == values[k]);
            }
        }
    }
}

/// Reading back the registers just written gives the values written.
pub proof fn lemma_read_back_written(registers: Map<u16, u16>, address: u16, values: Seq<u16>)
    requires
        values.len() <= 65535,
    ensures
        read_values(written_registers(registers, address, values), address, values.len())
            == values,
{
    lemma_read_after_write(registers, address, values);
    let read = read_values(written_registers(registers, address, values), address, values.len());
    assert forall|k: int| 0 <= k < values.len() implies read[k] == values[k] by {
        assert(register_address(address, k) == register_address(address, k));
    }
    assert(read =~= values);
}

/// A write leaves every register outside the written addresses as it was.
pub proof fn lemma_write_keeps_other_registers(
    registers: Map<u16, u16>,
    address: u16,
    values: Seq<u16>,
    other: u16,
)
    requires
        forall|k: int| 0 <= k < values.len() ==> #[trigger] register_address(address, k) != other,
    ensures
        written_registers(registers, address, values).contains_key(other)
            == registers.contains_key(other),
        registers.contains_key(other) ==> written_registers(registers, address, values)[other]
            == registers[other],
    decreases values.len(),
{
    if values.len() > 0 {
        let earlier = values.drop_last();
        assert(register_address(address, values.len() - 1) != other);
        assert forall|k: int| 0 <= k < earlier.len() implies #[trigger] register_address(
            address,
            k,
        ) != other by {
            assert(register_address(address, k) != other);
        }
        lemma_write_keeps_other_registers(registers, address, earlier, other);
    }
}

/// Writing one register triggers its `on_write` sequence, and nothing else.
pub proof fn lemma_single_write_triggers(triggers: Map<u16, Seq<Step>>, address: u16)
    ensures
        triggered_sequences(triggers, address, 1) == (if triggers.contains_key(address) {
            seq![triggers[address]]
        } else {
            Seq::<Seq<Step>>::empty()
        }),
{
    assert(register_address(address, 0) == address);
    assert(triggered_sequences(triggers, address, 0) == Seq::<Seq<Step>>::empty());
    if triggers.contains_key(address) {
        assert(Seq::<Seq<Step>>::empty().push(triggers[address]) =~= seq![triggers[address]]);
    }
}

/// Running steps never changes which sequences the device's registers trigger.
pub proof fn lemma_steps_keep_triggers(state: DeviceState, steps: Seq<Step>)
    ensures
        applied_steps(state, steps).1 == state.1,
    decreases steps.len(),
{
    if steps.len() > 0 {
        lemma_steps_keep_triggers(state, steps.drop_last());
    }
}

/// The register a step writes and the value it writes, if it writes one.
pub open spec fn step_write(step: Step) -> Option<(u16, u16)> {
    match step {
        Step::SetRegister { address, value } => Some((address, value)),
        Step::ForMs { address, value, duration_ms } => Some((address, value)),
        Step::WaitMs { duration_ms } => None,
    }
}

/// The value that the last step writing `address` writes, if any step does.
pub open spec fn last_write(steps: Seq<Step>, address: u16) -> Option<u16>
    decreases steps.len(),
{
    if steps.len() == 0 {
        None
    } else {
        match step_write(steps.last()) {
            Some((a, v)) if a == address => Some(v),
            _ => last_write(steps.drop_last(), address),
        }
    }
}

/// After a sequence runs, each register that some step writes holds the value
/// of the last step writing it, and every other register is as before.
pub proof fn lemma_sequence_outcome(state: DeviceState, steps: Seq<Step>, address: u16)
    ensures
        ({
            let after = applied_steps(state, steps).0;
            match last_write(steps, address) {
                Some(v) => after.contains_key(address) && after[address] == v,
                None => after.contains_key(address) == state.0.contains_key(address) && (
                state.0.contains_key(address) ==> after[address] == state.0[address]),
            }
        }),
    decreases steps.len(),
{
    if steps.len() > 0 {
        lemma_sequence_outcome(state, steps.drop_last(), address);
    }
}

/// A configured register that no later entry of its device overrides starts
/// at its configured initial value.
proof fn lemma_initial_register_value(regs: Seq<HoldingRegister>, j: int)
    requires
        0 <= j < regs.len(),
        forall|k: int| j < k < regs.len() ==> #[trigger] regs[k].address != regs[j].address,
    ensures
        initial_registers(regs).contains_key(regs[j].address),
        initial_registers(regs)[regs[j].address] == regs[j].initial_value,
    decreases regs.len(),
{
    if j < regs.len() - 1 {
        let earlier = regs.drop_last();
        assert(regs[regs.len() - 1].address != regs[j].address);
        assert forall|k: int| j < k < earlier.len() implies #[trigger] earlier[k].address
            != earlier[j].address by {
            assert(regs[k].address != regs[j].address);
        }
        lemma_initial_register_value(earlier, j);
    }
}

/// An address that no configured register of the device has holds no
/// register, so it reads 0.
proof fn lemma_unconfigured_address(regs: Seq<HoldingRegister>, address: u16)
    requires
        forall|k: int| 0 <= k < regs.len() ==> #[trigger] regs[k].address != address,
    ensures
        !initial_registers(regs).contains_key(address),
    decreases regs.len(),
{
    if regs.len() > 0 {
        let earlier = regs.drop_last();
        assert(regs[regs.len() - 1].address != address);
        assert forall|k: int| 0 <= k < earlier.len() implies #[trigger] earlier[k].address
            != address by {
            assert(regs[k].address != address);
        }
        lemma_unconfigured_address(earlier, address);
    }
}

/// A configured device that no later device with the same slave id replaces
/// is found under its slave id, in its configured state.
proof fn lemma_initial_device(devices: Seq<DeviceConfig>, i: int)
    requires
        0 <= i < devices.len(),
        forall|k: int| i < k < devices.len() ==> #[trigger] devices[k].slave_id != devices[i].slave_id,
    ensures
        initial_devices(devices).contains_key(devices[i].slave_id),
        initial_devices(devices)[devices[i].slave_id] == initial_state(devices[i]),
    decreases devices.len(),
{
    if i < devices.len() - 1 {
        let earlier = devices.drop_last();
        assert(devices[devices.len() - 1].slave_id != devices[i].slave_id);
        assert forall|k: int| i < k < earlier.len() implies #[trigger] earlier[k].slave_id
            != earlier[i].slave_id by {
            assert(devices[k].slave_id != devices[i].slave_id);
        }
        lemma_initial_device(earlier, i);
    }
}

/// A slave id that no configured device has belongs to no device, so every
/// operation on it is refused with `DeviceNotFound`.
pub proof fn lemma_unconfigured_slave(devices: Seq<DeviceConfig>, slave_id: u8)
    requires
        forall|k: int| 0 <= k < devices.len() ==> #[trigger] devices[k].slave_id != slave_id,
    ensures
        !initial_devices(devices).contains_key(slave_id),
    decreases devices.len(),
{
    if devices.len() > 0 {
        let earlier = devices.drop_last();
        assert(devices[devices.len() - 1].slave_id != slave_id);
        assert forall|k: int| 0 <= k < earlier.len() implies #[trigger] earlier[k].slave_id
            != slave_id by {
            assert(devices[k].slave_id != slave_id);
        }
        lemma_unconfigured_slave(earlier, slave_id);
    }
}

/// In the devices built from a valid configuration whose slave ids are
/// distinct, each configured register of each device reads its configured
/// initial value, every other address of the device reads 0, and each
/// register's `on_write` sequence is the one configured for it.
pub proof fn lemma_configured_devices(config: Config, i: int, address: u16)
    requires
        config_well_formed(config),
        forall|a: int, b: int|
            0 <= a < b < config.devices@.len() ==> #[trigger] config.devices@[a].slave_id
                != #[trigger] config.devices@[b].slave_id,
        0 <= i < config.devices@.len(),
    ensures
        ({
            let device = config.devices@[i];
            let regs = device.holding_registers@;
            let devices = initial_devices(config.devices@);
            &&& devices.contains_key(device.slave_id)
            &&& forall|j: int|
                0 <= j < regs.len() && #[trigger] regs[j].address == address ==> register_value(
                    devices[device.slave_id].0,
                    address,
                ) == regs[j].initial_value
            &&& (forall|j: int| 0 <= j < regs.len() ==> #[trigger] regs[j].address != address)
                ==> register_value(devices[device.slave_id].0, address) == 0
        }),
{
    let devs = config.devices@;
    let device = devs[i];
    let regs = device.holding_registers@;
    assert(device_well_formed(device));
    assert forall|k: int| i < k < devs.len() implies #[trigger] devs[k].slave_id
        != devs[i].slave_id by {
        assert(devs[i].slave_id != devs[k].slave_id);
    }
    lemma_initial_device(devs, i);
    assert forall|j: int|
        0 <= j < regs.len() && #[trigger] regs[j].address == address implies register_value(
        initial_devices(devs)[device.slave_id].0,
        address,
    ) == regs[j].initial_value by {
        assert forall|k: int| j < k < regs.len() implies #[trigger] regs[k].address
            != regs[j].address by {
            assert(regs[j].address != regs[k].address);
        }
        lemma_initial_register_value(regs, j);
    }
    if forall|j: int| 0 <= j < regs.len() ==> #[trigger] regs[j].address != address {
        lemma_unconfigured_address(regs, address);
    }
}

} // verus!
