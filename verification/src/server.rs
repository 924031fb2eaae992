//! Dispatch of Modbus requests onto the device manager.
//!
//! Every request is served by the device with slave id 1: the transport does
//! not hand the unit id of a request to the service.
use vstd::prelude::*;

use crate::config::Step;
use crate::device::{
    register_address,
    DeviceState,
    all_false,
    all_zero,
    read_values,
    triggered_sequences,
    written_registers,
    DeviceManager,
};

verus! {

/// The slave id whose device serves every request.
pub const SERVED_SLAVE_ID: u8 = 1;

/// A Modbus request, as received from a client.
#[derive(Debug, Clone)]
pub enum Request {
    ReadCoils(u16, u16),
    ReadDiscreteInputs(u16, u16),
    WriteSingleCoil(u16, bool),
    WriteMultipleCoils(u16, Vec<bool>),
    ReadInputRegisters(u16, u16),
    ReadHoldingRegisters(u16, u16),
    WriteSingleRegister(u16, u16),
    WriteMultipleRegisters(u16, Vec<u16>),
    ReadWriteMultipleRegisters(u16, u16, u16, Vec<u16>),
    Custom(u8, Vec<u8>),
    Disconnect,
}

/// The response sent back for a served request.
#[derive(Debug, Clone)]
pub enum Response {
    ReadCoils(Vec<bool>),
    ReadDiscreteInputs(Vec<bool>),
    WriteSingleCoil(u16, bool),
    WriteMultipleCoils(u16, u16),
    ReadInputRegisters(Vec<u16>),
    ReadHoldingRegisters(Vec<u16>),
    WriteMultipleRegisters(u16, u16),
}

/// The requests that the simulator serves.
pub open spec fn supported_request(req: Request) -> bool {
    match req {
        Request::ReadCoils(..) => true,
        Request::ReadDiscreteInputs(..) => true,
        Request::WriteSingleCoil(..) => true,
        Request::WriteMultipleCoils(..) => true,
        Request::ReadInputRegisters(..) => true,
        Request::ReadHoldingRegisters(..) => true,
        Request::WriteMultipleRegisters(..) => true,
        _ => false,
    }
}

/// The simulator serves reads of coils, discrete inputs, input and holding
/// registers, and writes of coils and of multiple holding registers; it does
/// not serve single register writes, combined read/write requests, custom
/// functions or disconnects.
pub proof fn law_supported_requests(req: Request)
    ensures
        supported_request(req) <==> (req is ReadCoils || req is ReadDiscreteInputs
            || req is WriteSingleCoil || req is WriteMultipleCoils || req is ReadInputRegisters
            || req is ReadHoldingRegisters || req is WriteMultipleRegisters),
{
}

/// Whether the simulator serves this request.
pub fn is_supported(req: &Request) -> (r: bool)
    ensures
        r == supported_request(*req),
{
    match req {
        Request::ReadCoils(..) => true,
        Request::ReadDiscreteInputs(..) => true,
        Request::WriteSingleCoil(..) => true,
        Request::WriteMultipleCoils(..) => true,
        Request::ReadInputRegisters(..) => true,
        Request::ReadHoldingRegisters(..) => true,
        Request::WriteMultipleRegisters(..) => true,
        _ => false,
    }
}

/// What serving `req` on devices in state `before` answers and leaves behind:
/// the response holds `response`, the devices are in state `after`, and the
/// `on_write` sequences to run are `sequences`. A request to a missing device
/// is answered with no values, or with a count of 0 for writes.
pub open spec fn served(
    before: Map<u8, crate::device::DeviceState>,
    req: Request,
    response: Response,
    after: Map<u8, crate::device::DeviceState>,
    sequences: Seq<Seq<Step>>,
) -> bool {
    let id = SERVED_SLAVE_ID;
    let present = before.contains_key(id);
    match req {
        Request::ReadInputRegisters(address, count) => {
            &&& after == before
            &&& sequences.len() == 0
            &&& response matches Response::ReadInputRegisters(v) && v@ == (if present {
                all_zero(count as nat)
            } else {
                Seq::empty()
            })
        },
        Request::ReadDiscreteInputs(address, count) => {
            &&& after == before
            &&& sequences.len() == 0
            &&& response matches Response::ReadDiscreteInputs(v) && v@ == (if present {
                all_false(count as nat)
            } else {
                Seq::empty()
            })
        },
        Request::ReadCoils(address, count) => {
            &&& after == before
            &&& sequences.len() == 0
            &&& response matches Response::ReadCoils(v) && v@ == (if present {
                all_false(count as nat)
            } else {
                Seq::empty()
            })
        },
        Request::ReadHoldingRegisters(address, count) => {
            &&& after == before
            &&& sequences.len() == 0
            &&& response matches Response::ReadHoldingRegisters(v) && v@ == (if present {
                read_values(before[id].0, address, count as nat)
            } else {
                Seq::empty()
            })
        },
        Request::WriteMultipleCoils(address, coils) => {
            &&& after == before
            &&& sequences.len() == 0
            &&& response == Response::WriteMultipleCoils(
                address,
                if present {
                    coils@.len() as u16
                } else {
                    0
                },
            )
        },
        Request::WriteSingleCoil(address, value) => {
            &&& after == before
            &&& sequences.len() == 0
            &&& response == Response::WriteSingleCoil(address, value)
        },
        Request::WriteMultipleRegisters(address, values) => {
            if present {
                &&& after == before.insert(
                    id,
                    (written_registers(before[id].0, address, values@), before[id].1),
                )
                &&& sequences == triggered_sequences(before[id].1, address, values@.len())
                &&& response == Response::WriteMultipleRegisters(address, values@.len() as u16)
            } else {
                &&& after == before
                &&& sequences.len() == 0
                &&& response == Response::WriteMultipleRegisters(address, 0)
            }
        },
        _ => false,
    }
}

/// Serves one Modbus request on the device with slave id 1. Returns the
/// response and the `on_write` sequences that the request triggered, in the
/// order their registers were written, for the caller to run.
pub fn handle_request(device_manager: &mut DeviceManager, req: Request) -> (r: (
    Response,
    Vec<Vec<Step>>,
))
    requires
        supported_request(req),
    ensures
        served(
            old(device_manager)@,
            req,
            r.0,
            final(device_manager)@,
            r.1@.map_values(|steps: Vec<Step>| steps@),
        ),
{
    let slave_id = SERVED_SLAVE_ID;
    let no_sequences: Vec<Vec<Step>> = Vec::new();
    proof {
        assert(no_sequences@.map_values(|steps: Vec<Step>| steps@) =~= Seq::<Seq<Step>>::empty());
    }
    match req {
        Request::ReadInputRegisters(addr, cnt) => {
            let regs = match device_manager.read_input_registers(slave_id, addr, cnt) {
                Ok(regs) => regs,
                Err(_) => Vec::new(),
            };
            (Response::ReadInputRegisters(regs), no_sequences)
        },
        Request::ReadDiscreteInputs(addr, cnt) => {
            let inputs = match device_manager.read_discrete_inputs(slave_id, addr, cnt) {
                Ok(inputs) => inputs,
                Err(_) => Vec::new(),
            };
            (Response::ReadDiscreteInputs(inputs), no_sequences)
        },
        Request::ReadCoils(addr, cnt) => {
            let coils = match device_manager.read_coils(slave_id, addr, cnt) {
                Ok(coils) => coils,
                Err(_) => Vec::new(),
            };
            (Response::ReadCoils(coils), no_sequences)
        },
        Request::ReadHoldingRegisters(addr, cnt) => {
            let regs = match device_manager.read_holding_registers(slave_id, addr, cnt) {
                Ok(regs) => regs,
                Err(_) => Vec::new(),
            };
            (Response::ReadHoldingRegisters(regs), no_sequences)
        },
        Request::WriteMultipleCoils(addr, coils) => {
            let (address, written) = match device_manager.write_coils(slave_id, addr, coils) {
                Ok(pair) => pair,
                Err(_) => (addr, 0),
            };
            (Response::WriteMultipleCoils(address, written), no_sequences)
        },
        Request::WriteSingleCoil(address, value) => {
            let mut coils: Vec<bool> = Vec::new();
            coils.push(value);
            let (address, _) = match device_manager.write_coils(slave_id, address, coils) {
                Ok(pair) => pair,
                Err(_) => (address, 0),
            };
            (Response::WriteSingleCoil(address, value), no_sequences)
        },
        Request::WriteMultipleRegisters(addr, values) => {
            match device_manager.write_holding_registers(slave_id, addr, values) {
                Ok(((address, written), sequences)) => (
                    Response::WriteMultipleRegisters(address, written),
                    sequences,
                ),
                Err(_) => (Response::WriteMultipleRegisters(addr, 0), no_sequences),
            }
        },
        _ => {
            proof {
                assert(false);
            }
            (Response::WriteMultipleRegisters(0, 0), no_sequences)
        },
    }
}

/// An offset below the distance from `address` up to `a` (wrapping past
/// 65535) does not reach `a`.
proof fn lemma_offset_before(address: u16, a: u16, k: int)
    requires
        0 <= k < (a - address) % 65536,
    ensures
        register_address(address, k) != a,
{
    if a >= address {
        assert((a - address) % 65536 == a - address);
    } else {
        assert((a - address) % 65536 == a - address + 65536);
    }
    if address + k >= 65536 {
        assert((address + k) % 65536 == address + k - 65536);
    } else {
        assert((address + k) % 65536 == address + k);
    }
}

/// Serving reads of input registers, coils or discrete inputs changes nothing
/// and triggers nothing; when slave 1 exists the answer holds `count` zeros
/// (input registers) or `count` values of `false` (coils, discrete inputs),
/// whatever its holding registers hold, and otherwise no values at all.
pub proof fn law_serve_placeholder_reads(
    before: Map<u8, DeviceState>,
    req: Request,
    response: Response,
    after: Map<u8, DeviceState>,
    sequences: Seq<Seq<Step>>,
)
    requires
        served(before, req, response, after, sequences),
    ensures
        match req {
            Request::ReadInputRegisters(address, count) => {
                &&& after == before
                &&& sequences.len() == 0
                &&& response matches Response::ReadInputRegisters(v) && (if before.contains_key(
                    1u8,
                ) {
                    v@.len() == count && forall|i: int| 0 <= i < count ==> #[trigger] v@[i] == 0
                } else {
                    v@.len() == 0
                })
            },
            Request::ReadCoils(address, count) => {
                &&& after == before
                &&& sequences.len() == 0
                &&& response matches Response::ReadCoils(v) && (if before.contains_key(1u8) {
                    v@.len() == count && forall|i: int| 0 <= i < count ==> !#[trigger] v@[i]
                } else {
                    v@.len() == 0
                })
            },
            Request::ReadDiscreteInputs(address, count) => {
                &&& after == before
                &&& sequences.len() == 0
                &&& response matches Response::ReadDiscreteInputs(v) && (if before.contains_key(
                    1u8,
                ) {
                    v@.len() == count && forall|i: int| 0 <= i < count ==> !#[trigger] v@[i]
                } else {
                    v@.len() == 0
                })
            },
            _ => true,
        },
{
}

/// Serving a read of holding registers changes nothing and triggers nothing;
/// when slave 1 exists the answer holds `count` values, the `i`-th being the
/// value stored at address `(address + i) mod 65536`, or 0 where slave 1 has
/// no register there; otherwise the answer holds no values.
pub proof fn law_serve_read_holding_registers(
    before: Map<u8, DeviceState>,
    address: u16,
    count: u16,
    response: Response,
    after: Map<u8, DeviceState>,
    sequences: Seq<Seq<Step>>,
)
    requires
        served(before, Request::ReadHoldingRegisters(address, count), response, after, sequences),
    ensures
        after == before,
        sequences.len() == 0,
        response matches Response::ReadHoldingRegisters(v) && (if before.contains_key(1u8) {
            &&& v@.len() == count
            &&& forall|i: int|
                #![trigger v@[i]]
                0 <= i < count ==> {
                    let a = ((address + i) % 65536) as u16;
                    v@[i] == (if before[1u8].0.contains_key(a) {
                        before[1u8].0[a]
                    } else {
                        0u16
                    })
                }
        } else {
            v@.len() == 0
        }),
{
    if before.contains_key(1u8) {
        crate::laws::law_read_values(before[1u8].0, address, count as nat);
    }
}

/// Serving coil writes stores nothing and triggers nothing. A single coil
/// write answers its own address and value; a multiple coil write answers its
/// address and the number of coils (as a `u16`) when slave 1 exists, and 0
/// coils otherwise.
pub proof fn law_serve_coil_writes(
    before: Map<u8, DeviceState>,
    req: Request,
    response: Response,
    after: Map<u8, DeviceState>,
    sequences: Seq<Seq<Step>>,
)
    requires
        served(before, req, response, after, sequences),
    ensures
        match req {
            Request::WriteSingleCoil(address, value) => {
                &&& after == before
                &&& sequences.len() == 0
                &&& response == Response::WriteSingleCoil(address, value)
            },
            Request::WriteMultipleCoils(address, coils) => {
                &&& after == before
                &&& sequences.len() == 0
                &&& response == Response::WriteMultipleCoils(
                    address,
                    if before.contains_key(1u8) {
                        (coils@.len() % 65536) as u16
                    } else {
                        0u16
                    },
                )
            },
            _ => true,
        },
{
    assert(SERVED_SLAVE_ID == 1u8);
    match req {
        Request::WriteMultipleCoils(address, coils) => {
            lemma_count_as_u16(coils.len());
        },
        _ => {},
    }
}

/// Serving a write of at most 65536 holding registers to an existing slave 1
/// (a write that cannot wrap onto itself) stores the `k`-th value at address
/// `(address + k) mod 65536`.
pub proof fn law_serve_write_stores_values(
    before: Map<u8, DeviceState>,
    address: u16,
    values: Vec<u16>,
    response: Response,
    after: Map<u8, DeviceState>,
    sequences: Seq<Seq<Step>>,
    k: int,
)
    requires
        served(
            before,
            Request::WriteMultipleRegisters(address, values),
            response,
            after,
            sequences,
        ),
        before.contains_key(1u8),
        values@.len() <= 65536,
        0 <= k < values@.len(),
    ensures
        after.contains_key(1u8),
        after[1u8].0.contains_key(((address + k) % 65536) as u16),
        after[1u8].0[((address + k) % 65536) as u16] == values@[k],
{
    assert(SERVED_SLAVE_ID == 1u8);
    crate::laws::law_written_values_read_back(before[1u8].0, address, values@, k);
}

/// A count taken as a `u16` is the count modulo 65536.
proof fn lemma_count_as_u16(n: usize)
    ensures
        (n as nat) as u16 == ((n as nat) % 65536) as u16,
{
    assert((n as u16) == ((n % 65536) as u16)) by (bit_vector);
}

/// Serving a write of holding registers to an existing slave 1 leaves every
/// register outside the written addresses, the triggers and every other device as they were, answers the
/// address and the number of values (as a `u16`), and hands back exactly the
/// written registers' `on_write` sequences in write order. Without slave 1,
/// nothing changes, nothing is triggered, and the answer counts 0 values.
pub proof fn law_serve_write_holding_registers(
    before: Map<u8, DeviceState>,
    address: u16,
    values: Vec<u16>,
    response: Response,
    after: Map<u8, DeviceState>,
    sequences: Seq<Seq<Step>>,
)
    requires
        served(
            before,
            Request::WriteMultipleRegisters(address, values),
            response,
            after,
            sequences,
        ),
    ensures
        before.contains_key(1u8) ==> {
            &&& response == Response::WriteMultipleRegisters(
                address,
                (values@.len() % 65536) as u16,
            )
            &&& after.dom() == before.dom()
            &&& forall|id: u8| id != 1 && #[trigger] before.contains_key(id) ==> after[id] == before[id]
            &&& after[1u8].0 == written_registers(before[1u8].0, address, values@)
            &&& after[1u8].1 == before[1u8].1
            &&& forall|a: u16|
                ((a - address) % 65536 >= values@.len()) ==> (#[trigger] after[1u8].0.contains_key(a) == before[1u8].0.contains_key(a) && (
                    before[1u8].0.contains_key(a) ==> after[1u8].0[a] == before[1u8].0[a]))
            &&& sequences == triggered_sequences(before[1u8].1, address, values@.len())
        },
        !before.contains_key(1u8) ==> {
            &&& after == before
            &&& sequences.len() == 0
            &&& response == Response::WriteMultipleRegisters(address, 0)
        },
{
    assert(SERVED_SLAVE_ID == 1u8);
    lemma_count_as_u16(values.len());
    if before.contains_key(1u8) {
        let regs = before[1u8].0;
        assert forall|a: u16|
            ((a - address) % 65536 >= values@.len()) implies (#[trigger] after[1u8].0.contains_key(a) == before[1u8].0.contains_key(a) && (
            before[1u8].0.contains_key(a) ==> after[1u8].0[a] == before[1u8].0[a])) by {
            assert forall|k: int| 0 <= k < values@.len() implies #[trigger] register_address(
                address,
                k,
            ) != a by {
                lemma_offset_before(address, a, k);
            }
            crate::device::lemma_write_keeps_other_registers(regs, address, values@, a);
        }
    }
}

} // verus!
