//! What the device operations do, stated over maps, sequences and plain
//! arithmetic: the meaning of the model functions that the contracts of
//! `device` and `server` are written with.
use vstd::prelude::*;

use crate::config::{HoldingRegister, OnWrite, Step};
use crate::device::{
    all_false,
    all_zero,
    applied_step,
    applied_steps,
    initial_devices,
    initial_registers,
    initial_state,
    initial_triggers,
    read_values,
    register_address,
    register_value,
    step_delay,
    triggered_sequences,
    written_registers,
    DeviceState,
};
use crate::config::DeviceConfig;

verus! {

/// The register `offset` places after `base`: `base` itself at offset 0, and
/// each next offset is the next address, with 65535 followed by 0.
pub proof fn law_register_address(base: u16, offset: int)
    requires
        offset >= 0,
    ensures
        register_address(base, 0) == base,
        register_address(base, offset) as int == (base as int + offset) % 65536,
        register_address(base, offset + 1) == (if register_address(base, offset) == 65535 {
            0u16
        } else {
            (register_address(base, offset) + 1) as u16
        }),
{
}

/// Reading `count` registers from `address` gives exactly `count` values; the
/// `i`-th is the value stored at address `(address + i) mod 65536`, or 0 where
/// the device has no register there.
pub proof fn law_read_values(registers: Map<u16, u16>, address: u16, count: nat)
    ensures
        read_values(registers, address, count).len() == count,
        forall|i: int|
            #![trigger read_values(registers, address, count)[i]]
            0 <= i < count ==> {
                let a = ((address + i) % 65536) as u16;
                read_values(registers, address, count)[i] == (if registers.contains_key(a) {
                    registers[a]
                } else {
                    0u16
                })
            },
{
}

/// The value read at an address: the stored value, or 0 where none is stored.
pub proof fn law_register_value(registers: Map<u16, u16>, address: u16)
    ensures
        registers.contains_key(address) ==> register_value(registers, address)
            == registers[address],
        !registers.contains_key(address) ==> register_value(registers, address) == 0,
{
}

/// Writing no values changes nothing; writing one more value stores it at the
/// next address, `(address + n) mod 65536` after `n` values.
pub proof fn law_written_registers(
    registers: Map<u16, u16>,
    address: u16,
    values: Seq<u16>,
    value: u16,
)
    ensures
        written_registers(registers, address, Seq::empty()) == registers,
        written_registers(registers, address, values.push(value)) == written_registers(
            registers,
            address,
            values,
        ).insert(((address + values.len()) % 65536) as u16, value),
{
    assert(values.push(value).drop_last() =~= values);
}

/// After writing at most 65536 values from `address`, the register at
/// `(address + k) mod 65536` holds `values[k]`.
pub proof fn law_written_values_read_back(registers: Map<u16, u16>, address: u16, values: Seq<u16>, k: int)
    requires
        values.len() <= 65536,
        0 <= k < values.len(),
    ensures
        written_registers(registers, address, values).contains_key(
            ((address + k) % 65536) as u16,
        ),
        written_registers(registers, address, values)[((address + k) % 65536) as u16]
            == values[k],
{
    crate::device::lemma_read_after_write(registers, address, values);
    assert(register_address(address, k) == ((address + k) % 65536) as u16);
    lemma_written_contains(registers, address, values, k);
    assert(register_value(written_registers(registers, address, values), register_address(address, k)) == values[k]);
}

/// Every written address is present after the write.
proof fn lemma_written_contains(registers: Map<u16, u16>, address: u16, values: Seq<u16>, k: int)
    requires
        0 <= k < values.len(),
    ensures
        written_registers(registers, address, values).contains_key(register_address(address, k)),
    decreases values.len(),
{
    if k < values.len() - 1 {
        lemma_written_contains(registers, address, values.drop_last(), k);
    }
}

/// Writing no values triggers nothing; writing `n + 1` values triggers what
/// writing `n` triggers, followed by the sequence of the register at
/// `(address + n) mod 65536` when that register has one.
pub proof fn law_triggered_sequences(triggers: Map<u16, Seq<Step>>, address: u16, n: nat)
    ensures
        triggered_sequences(triggers, address, 0) == Seq::<Seq<Step>>::empty(),
        ({
            let a = ((address + n) % 65536) as u16;
            triggered_sequences(triggers, address, n + 1) == if triggers.contains_key(a) {
                triggered_sequences(triggers, address, n).push(triggers[a])
            } else {
                triggered_sequences(triggers, address, n)
            }
        }),
{
    assert((n + 1 - 1) as nat == n);
}

/// A device configured with no registers has none; each further configured
/// register stores its initial value at its address.
pub proof fn law_initial_registers(regs: Seq<HoldingRegister>, reg: HoldingRegister)
    ensures
        initial_registers(Seq::empty()) == Map::<u16, u16>::empty(),
        initial_registers(regs.push(reg)) == initial_registers(regs).insert(
            reg.address,
            reg.initial_value,
        ),
{
    assert(regs.push(reg).drop_last() =~= regs);
}

/// A device configured with no registers triggers nothing; each further
/// configured register with an `on_write` sequence keeps that sequence under
/// its address, and one without leaves the triggers as they were.
pub proof fn law_initial_triggers(regs: Seq<HoldingRegister>, reg: HoldingRegister)
    ensures
        initial_triggers(Seq::empty()) == Map::<u16, Seq<Step>>::empty(),
        initial_triggers(regs.push(reg)) == match reg.on_write {
            Some(on_write) => initial_triggers(regs).insert(reg.address, on_write.sequence@),
            None => initial_triggers(regs),
        },
{
    assert(regs.push(reg).drop_last() =~= regs);
}

/// For a device whose registers have distinct addresses: each register starts
/// at its initial value and triggers its own `on_write` sequence, and an
/// address holds a value, or a trigger, only where a register configures one.
pub proof fn law_configured_registers(regs: Seq<HoldingRegister>)
    requires
        forall|j: int, k: int|
            0 <= j < k < regs.len() ==> #[trigger] regs[j].address != #[trigger] regs[k].address,
    ensures
        forall|j: int|
            #![trigger regs[j]]
            0 <= j < regs.len() ==> {
                &&& initial_registers(regs).contains_key(regs[j].address)
                &&& initial_registers(regs)[regs[j].address] == regs[j].initial_value
                &&& match regs[j].on_write {
                    Some(on_write) => initial_triggers(regs).contains_key(regs[j].address)
                        && initial_triggers(regs)[regs[j].address] == on_write.sequence@,
                    None => !initial_triggers(regs).contains_key(regs[j].address),
                }
            },
        forall|a: u16|
            #[trigger] initial_registers(regs).contains_key(a) ==> exists|j: int|
                0 <= j < regs.len() && #[trigger] regs[j].address == a,
        forall|a: u16|
            #[trigger] initial_triggers(regs).contains_key(a) ==> exists|j: int|
                0 <= j < regs.len() && #[trigger] regs[j].address == a && regs[j].on_write
                    is Some,
    decreases regs.len(),
{
    if regs.len() > 0 {
        let earlier = regs.drop_last();
        let last = regs.last();
        assert forall|j: int, k: int| 0 <= j < k < earlier.len() implies #[trigger] earlier[j].address
            != #[trigger] earlier[k].address by {
            assert(regs[j].address != regs[k].address);
        }
        law_configured_registers(earlier);
        law_initial_registers(earlier, last);
        law_initial_triggers(earlier, last);
        assert(regs =~= earlier.push(last));
        assert forall|j: int|
            #![trigger regs[j]]
            0 <= j < regs.len() implies {
            &&& initial_registers(regs).contains_key(regs[j].address)
            &&& initial_registers(regs)[regs[j].address] == regs[j].initial_value
            &&& match regs[j].on_write {
                Some(on_write) => initial_triggers(regs).contains_key(regs[j].address)
                    && initial_triggers(regs)[regs[j].address] == on_write.sequence@,
                None => !initial_triggers(regs).contains_key(regs[j].address),
            }
        } by {
            if j < regs.len() - 1 {
                assert(regs[j] == earlier[j]);
                assert(regs[j].address != regs[regs.len() - 1].address);
                if regs[j].on_write is None {
                    if initial_triggers(earlier).contains_key(regs[j].address) {
                        let k = choose|k: int|
                            0 <= k < earlier.len() && #[trigger] earlier[k].address
                                == regs[j].address && earlier[k].on_write is Some;
                        if k != j {
                            if k < j {
                                assert(regs[k].address != regs[j].address);
                            } else {
                                assert(regs[j].address != regs[k].address);
                            }
                        }
                    }
                }
            } else {
                if last.on_write is None {
                    if initial_triggers(earlier).contains_key(last.address) {
                        let k = choose|k: int|
                            0 <= k < earlier.len() && #[trigger] earlier[k].address == last.address
                                && earlier[k].on_write is Some;
                        assert(regs[k].address != regs[regs.len() - 1].address);
                    }
                }
            }
        }
        assert forall|a: u16| #[trigger] initial_registers(regs).contains_key(a) implies exists|j: int|
            0 <= j < regs.len() && #[trigger] regs[j].address == a by {
            if a == last.address {
                assert(regs[regs.len() - 1].address == a);
            } else {
                let k = choose|k: int| 0 <= k < earlier.len() && #[trigger] earlier[k].address == a;
                assert(regs[k].address == a);
            }
        }
        assert forall|a: u16| #[trigger] initial_triggers(regs).contains_key(a) implies exists|j: int|
            0 <= j < regs.len() && #[trigger] regs[j].address == a && regs[j].on_write is Some by {
            if a == last.address && last.on_write is Some {
                assert(regs[regs.len() - 1].address == a);
            } else {
                let k = choose|k: int|
                    0 <= k < earlier.len() && #[trigger] earlier[k].address == a
                        && earlier[k].on_write is Some;
                assert(regs[k].address == a);
            }
        }
    }
}

/// A device is built with the registers and triggers its configuration lists.
pub proof fn law_initial_state(device: DeviceConfig)
    ensures
        initial_state(device).0 == initial_registers(device.holding_registers@),
        initial_state(device).1 == initial_triggers(device.holding_registers@),
{
}

/// No configured devices give no devices; each further configured device is
/// found under its slave id, replacing any earlier device with that id.
pub proof fn law_initial_devices(devices: Seq<DeviceConfig>, device: DeviceConfig)
    ensures
        initial_devices(Seq::empty()) == Map::<u8, DeviceState>::empty(),
        initial_devices(devices.push(device)) == initial_devices(devices).insert(
            device.slave_id,
            (
                initial_registers(device.holding_registers@),
                initial_triggers(device.holding_registers@),
            ),
        ),
{
    assert(devices.push(device).drop_last() =~= devices);
}

/// What one step does: `SetRegister` and `ForMs` store their value at their
/// address, `WaitMs` changes nothing; no step changes the triggers. The
/// sequence pauses `duration_ms` milliseconds after `ForMs` and `WaitMs`, and
/// not at all after `SetRegister`.
pub proof fn law_step(state: DeviceState, step: Step)
    ensures
        match step {
            Step::SetRegister { address, value } => {
                &&& applied_step(state, step) == (state.0.insert(address, value), state.1)
                &&& step_delay(step) == None::<u64>
            },
            Step::ForMs { address, value, duration_ms } => {
                &&& applied_step(state, step) == (state.0.insert(address, value), state.1)
                &&& step_delay(step) == Some(duration_ms)
            },
            Step::WaitMs { duration_ms } => {
                &&& applied_step(state, step) == state
                &&& step_delay(step) == Some(duration_ms)
            },
        },
{
}

/// Running no steps changes nothing; running one more step applies it to the
/// state the earlier steps left.
pub proof fn law_applied_steps(state: DeviceState, steps: Seq<Step>, step: Step)
    ensures
        applied_steps(state, Seq::empty()) == state,
        applied_steps(state, steps.push(step)) == applied_step(applied_steps(state, steps), step),
{
    assert(steps.push(step).drop_last() =~= steps);
}

/// Input registers read as `count` zeros; coils and discrete inputs as `count`
/// values of `false`.
pub proof fn law_defaults(count: nat)
    ensures
        all_zero(count).len() == count,
        forall|i: int| 0 <= i < count ==> #[trigger] all_zero(count)[i] == 0,
        all_false(count).len() == count,
        forall|i: int| 0 <= i < count ==> !#[trigger] all_false(count)[i],
{
}

} // verus!
