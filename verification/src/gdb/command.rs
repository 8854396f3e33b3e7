//! The requests a debugger sends, read from a packet body.
use vstd::prelude::*;
use crate::gdb::bytes::{ascii, has_prefix, literal, split_at_byte, split_once, starts_with, bytes_equal};
use crate::gdb::hex::{hex_u32, hex_usize, parse_hex_u32, parse_hex_usize, swap32, swap_bytes32};

verus! {

/// `?`: why did the target stop.
pub const CMD_HALT_REASON: u8 = 63;

/// `g`: read the general registers.
pub const CMD_READ_REGISTERS: u8 = 103;

/// `G`: write the general registers.
pub const CMD_WRITE_REGISTERS: u8 = 71;

/// `p`: read one register.
pub const CMD_READ_REGISTER: u8 = 112;

/// `P`: write one register.
pub const CMD_WRITE_REGISTER: u8 = 80;

/// `m`: read memory.
pub const CMD_READ_MEMORY: u8 = 109;

/// `M`: write memory.
pub const CMD_WRITE_MEMORY: u8 = 77;

/// `c`: continue.
pub const CMD_CONTINUE: u8 = 99;

/// `s`: single step.
pub const CMD_STEP: u8 = 115;

/// `C`: continue with a signal.
pub const CMD_CONTINUE_SIGNAL: u8 = 67;

/// `S`: single step with a signal.
pub const CMD_STEP_SIGNAL: u8 = 83;

/// `k`: kill the target.
pub const CMD_KILL: u8 = 107;

/// The number of general registers that `g` and `G` carry.
pub const GENERAL_REGISTER_COUNT: usize = 16;

/// A request from the debugger.
#[allow(inconsistent_fields)]
pub enum GdbCommand {
    /// An empty packet, which the server skips.
    Ignore,
    /// `?`
    QueryHaltReason,
    /// `g`
    ReadRegisters,
    /// `G`: new values of r0..r15 (already in host byte order).
    WriteRegisters { values: Vec<u32> },
    /// `p<n>`
    ReadRegister { num: usize },
    /// `P<n>=<v>`: the value (in host byte order) is read only for r0..r15
    /// and the CPSR (register 25).
    WriteRegister { num: usize, value: Option<u32> },
    /// `m<addr>,<length>`
    ReadMemory { addr: u32, length: u32 },
    /// `M<addr>,<length>:<hex data>`: `data` holds the hex text, two
    /// characters per byte.
    WriteMemory { addr: u32, length: u32, data: Vec<u8> },
    /// `c`, `s`, `C`, `S`: resume, possibly at a new address (the address
    /// is absent when none was given or it is not a number).
    Resume { step: bool, address: Option<u32> },
    /// `k`
    Kill,
    /// `qAttached`
    QueryAttached,
    /// `qSupported` (with or without features)
    QuerySupported,
    /// `qXfer:features:read:<annex>:<offset>,<length>`
    ReadFeatures { target_xml: bool, offset: usize, length: usize },
    /// Anything else.
    Unsupported,
}

/// A request from the debugger, as mathematical values.
#[allow(inconsistent_fields)]
pub enum CommandView {
    Ignore,
    QueryHaltReason,
    ReadRegisters,
    WriteRegisters { values: Seq<u32> },
    ReadRegister { num: usize },
    WriteRegister { num: usize, value: Option<u32> },
    ReadMemory { addr: u32, length: u32 },
    WriteMemory { addr: u32, length: u32, data: Seq<u8> },
    Resume { step: bool, address: Option<u32> },
    Kill,
    QueryAttached,
    QuerySupported,
    ReadFeatures { target_xml: bool, offset: usize, length: usize },
    Unsupported,
}

impl View for GdbCommand {
    type V = CommandView;

    open spec fn view(&self) -> CommandView {
        match self {
            GdbCommand::Ignore => CommandView::Ignore,
            GdbCommand::QueryHaltReason => CommandView::QueryHaltReason,
            GdbCommand::ReadRegisters => CommandView::ReadRegisters,
            GdbCommand::WriteRegisters { values } => CommandView::WriteRegisters {
                values: values@,
            },
            GdbCommand::ReadRegister { num } => CommandView::ReadRegister { num: *num },
            GdbCommand::WriteRegister { num, value } => CommandView::WriteRegister {
                num: *num,
                value: *value,
            },
            GdbCommand::ReadMemory { addr, length } => CommandView::ReadMemory {
                addr: *addr,
                length: *length,
            },
            GdbCommand::WriteMemory { addr, length, data } => CommandView::WriteMemory {
                addr: *addr,
                length: *length,
                data: data@,
            },
            GdbCommand::Resume { step, address } => CommandView::Resume {
                step: *step,
                address: *address,
            },
            GdbCommand::Kill => CommandView::Kill,
            GdbCommand::QueryAttached => CommandView::QueryAttached,
            GdbCommand::QuerySupported => CommandView::QuerySupported,
            GdbCommand::ReadFeatures { target_xml, offset, length } => CommandView::ReadFeatures {
                target_xml: *target_xml,
                offset: *offset,
                length: *length,
            },
            GdbCommand::Unsupported => CommandView::Unsupported,
        }
    }
}

/// What every request read from a packet satisfies: a register write
/// carries a value for r0..r15 and the CPSR (register 25).
pub open spec fn well_formed(cmd: CommandView) -> bool {
    match cmd {
        CommandView::WriteRegister { num, value } => (num < 16 || num == 25) ==> value is Some,
        _ => true,
    }
}

/// The `i`-th eight-character word of a `G` packet's data.
pub open spec fn register_word(data: Seq<u8>, i: int) -> Seq<u8> {
    data.subrange(8 * i, 8 * i + 8)
}

/// The register values that the data of a `G` packet sets: 128 hex
/// characters, eight per register, each word read as a number and then
/// byte-reversed.
pub open spec fn registers_of(data: Seq<u8>) -> Option<Seq<u32>> {
    if data.len() == 8 * GENERAL_REGISTER_COUNT && forall|i: int|
        0 <= i < GENERAL_REGISTER_COUNT ==> #[trigger] hex_u32(register_word(data, i)) is Some {
        Some(
            Seq::new(
                GENERAL_REGISTER_COUNT as nat,
                |i: int| swap32(hex_u32(register_word(data, i)).unwrap()),
            ),
        )
    } else {
        None
    }
}

/// The resume address of a `c` or `s` packet: none when absent or not a
/// number.
pub open spec fn resume_address(text: Seq<u8>) -> Option<u32> {
    if text.len() == 0 {
        None
    } else {
        hex_u32(text)
    }
}

/// The resume address of a `C` or `S` packet (`<signal>;<addr>`).
pub open spec fn signal_resume_address(text: Seq<u8>) -> Option<u32> {
    match split_once(text, 59) {
        Some((_signal, addr)) => resume_address(addr),
        None => None,
    }
}

/// The `P` request for `<num>=<word>`.
pub open spec fn write_register_of(text: Seq<u8>) -> Option<CommandView> {
    match split_once(text, 61) {
        None => None,
        Some((n, w)) => match hex_usize(n) {
            None => None,
            Some(num) => if num < 16 || num == 25 {
                match hex_u32(w) {
                    None => None,
                    Some(v) => Some(CommandView::WriteRegister { num, value: Some(swap32(v)) }),
                }
            } else {
                Some(CommandView::WriteRegister { num, value: None })
            },
        },
    }
}

/// The `m` request for `<addr>,<length>`.
pub open spec fn read_memory_of(text: Seq<u8>) -> Option<CommandView> {
    match split_once(text, 44) {
        None => None,
        Some((a, l)) => match (hex_u32(a), hex_u32(l)) {
            (Some(addr), Some(length)) => Some(CommandView::ReadMemory { addr, length }),
            _ => None,
        },
    }
}

/// The `M` request for `<addr>,<length>:<data>`.
pub open spec fn write_memory_of(text: Seq<u8>) -> Option<CommandView> {
    match split_once(text, 58) {
        None => None,
        Some((header, data)) => match split_once(header, 44) {
            None => None,
            Some((a, l)) => match (hex_u32(a), hex_u32(l)) {
                (Some(addr), Some(length)) => if data.len() == 2 * length {
                    Some(CommandView::WriteMemory { addr, length, data })
                } else {
                    None
                },
                _ => None,
            },
        },
    }
}

/// The prefix of a target-description read request.
pub open spec fn features_read_prefix() -> Seq<u8> {
    ascii("qXfer:features:read:"@)
}

/// The request for `qXfer:features:read:<annex>:<offset>,<length>`, given
/// what follows the prefix.
pub open spec fn read_features_of(params: Seq<u8>) -> Option<CommandView> {
    match split_once(params, 58) {
        None => None,
        Some((annex, rest)) => match split_once(rest, 44) {
            None => None,
            Some((o, l)) => match (hex_usize(o), hex_usize(l)) {
                (Some(offset), Some(length)) => Some(
                    CommandView::ReadFeatures {
                        target_xml: annex == ascii("target.xml"@),
                        offset,
                        length,
                    },
                ),
                _ => None,
            },
        },
    }
}

/// The request that a packet whose first byte is none of the one-letter
/// commands makes.
pub open spec fn query_of(p: Seq<u8>) -> Option<CommandView> {
    if p == ascii("qAttached"@) {
        Some(CommandView::QueryAttached)
    } else if p == ascii("qSupported"@) || starts_with(p, ascii("qSupported:"@)) {
        Some(CommandView::QuerySupported)
    } else if starts_with(p, features_read_prefix()) {
        read_features_of(p.subrange(features_read_prefix().len() as int, p.len() as int))
    } else {
        Some(CommandView::Unsupported)
    }
}

/// The request a packet body makes, or `None` when the body is malformed
/// in a way that makes the server give up (a register or memory request
/// whose numbers do not parse, or whose data has the wrong length).
pub open spec fn command_of(p: Seq<u8>) -> Option<CommandView> {
    if p.len() == 0 {
        Some(CommandView::Ignore)
    } else {
        let c = p[0];
        let rest = p.subrange(1, p.len() as int);
        if c == CMD_HALT_REASON {
            Some(CommandView::QueryHaltReason)
        } else if c == CMD_READ_REGISTERS {
            Some(CommandView::ReadRegisters)
        } else if c == CMD_WRITE_REGISTERS {
            match registers_of(rest) {
                Some(values) => Some(CommandView::WriteRegisters { values }),
                None => None,
            }
        } else if c == CMD_READ_REGISTER {
            match hex_usize(rest) {
                Some(num) => Some(CommandView::ReadRegister { num }),
                None => None,
            }
        } else if c == CMD_WRITE_REGISTER {
            write_register_of(rest)
        } else if c == CMD_READ_MEMORY {
            read_memory_of(rest)
        } else if c == CMD_WRITE_MEMORY {
            write_memory_of(rest)
        } else if c == CMD_CONTINUE || c == CMD_STEP {
            Some(CommandView::Resume { step: c == CMD_STEP, address: resume_address(rest) })
        } else if c == CMD_CONTINUE_SIGNAL || c == CMD_STEP_SIGNAL {
            Some(
                CommandView::Resume {
                    step: c == CMD_STEP_SIGNAL,
                    address: signal_resume_address(rest),
                },
            )
        } else if c == CMD_KILL {
            Some(CommandView::Kill)
        } else {
            query_of(p)
        }
    }
}

/// Reads the sixteen register words of a `G` packet.
fn parse_registers(data: &[u8]) -> (r: Option<Vec<u32>>)
    ensures
        match registers_of(data@) {
            Some(v) => r matches Some(x) && x@ == v,
            None => r is None,
        },
{
    if data.len() != 8 * GENERAL_REGISTER_COUNT {
        return None;
    }
    let mut values: Vec<u32> = Vec::new();
    let mut i: usize = 0;
    while i < GENERAL_REGISTER_COUNT
        invariant
            i <= GENERAL_REGISTER_COUNT,
            data@.len() == 8 * GENERAL_REGISTER_COUNT,
            values@.len() == i,
            forall|j: int| 0 <= j < i ==> #[trigger] hex_u32(register_word(data@, j)) is Some,
            forall|j: int|
                0 <= j < i ==> values@[j] == swap32(hex_u32(register_word(data@, j)).unwrap()),
        decreases GENERAL_REGISTER_COUNT - i,
    {
        let word = vstd::slice::slice_subrange(data, 8 * i, 8 * i + 8);
        match parse_hex_u32(word) {
            None => {
                assert(hex_u32(register_word(data@, i as int)) is None);
                return None;
            },
            Some(w) => {
                values.push(swap_bytes32(w));
            },
        }
        i = i + 1;
    }
    let ghost expected = Seq::new(
        GENERAL_REGISTER_COUNT as nat,
        |k: int| swap32(hex_u32(register_word(data@, k)).unwrap()),
    );
    assert(values@ =~= expected);
    Some(values)
}

fn parse_resume_address(text: &[u8]) -> (r: Option<u32>)
    ensures
        r == resume_address(text@),
{
    if text.len() == 0 {
        None
    } else {
        parse_hex_u32(text)
    }
}

fn parse_write_register(text: &[u8]) -> (r: Option<GdbCommand>)
    ensures
        match write_register_of(text@) {
            Some(c) => r matches Some(x) && x@ == c,
            None => r is None,
        },
{
    let (n, w) = match split_at_byte(text, 61) {
        None => return None,
        Some(parts) => parts,
    };
    let num = match parse_hex_usize(n) {
        None => return None,
        Some(num) => num,
    };
    if num < 16 || num == 25 {
        match parse_hex_u32(w) {
            None => None,
            Some(v) => Some(GdbCommand::WriteRegister { num, value: Some(swap_bytes32(v)) }),
        }
    } else {
        Some(GdbCommand::WriteRegister { num, value: None })
    }
}

fn parse_read_memory(text: &[u8]) -> (r: Option<GdbCommand>)
    ensures
        match read_memory_of(text@) {
            Some(c) => r matches Some(x) && x@ == c,
            None => r is None,
        },
{
    let (a, l) = match split_at_byte(text, 44) {
        None => return None,
        Some(parts) => parts,
    };
    match (parse_hex_u32(a), parse_hex_u32(l)) {
        (Some(addr), Some(length)) => Some(GdbCommand::ReadMemory { addr, length }),
        _ => None,
    }
}

fn parse_write_memory(text: &[u8]) -> (r: Option<GdbCommand>)
    ensures
        match write_memory_of(text@) {
            Some(c) => r matches Some(x) && x@ == c,
            None => r is None,
        },
{
    let (header, data) = match split_at_byte(text, 58) {
        None => return None,
        Some(parts) => parts,
    };
    let (a, l) = match split_at_byte(header, 44) {
        None => return None,
        Some(parts) => parts,
    };
    match (parse_hex_u32(a), parse_hex_u32(l)) {
        (Some(addr), Some(length)) => {
            if data.len() as u64 == 2 * (length as u64) {
                Some(
                    GdbCommand::WriteMemory {
                        addr,
                        length,
                        data: vstd::slice::slice_to_vec(data),
                    },
                )
            } else {
                None
            }
        },
        _ => None,
    }
}

fn parse_read_features(params: &[u8]) -> (r: Option<GdbCommand>)
    ensures
        match read_features_of(params@) {
            Some(c) => r matches Some(x) && x@ == c,
            None => r is None,
        },
{
    let (annex, rest) = match split_at_byte(params, 58) {
        None => return None,
        Some(parts) => parts,
    };
    let (o, l) = match split_at_byte(rest, 44) {
        None => return None,
        Some(parts) => parts,
    };
    match (parse_hex_usize(o), parse_hex_usize(l)) {
        (Some(offset), Some(length)) => {
            proof {
                reveal_strlit("target.xml");
            }
            let target_xml = bytes_equal(annex, literal("target.xml"));
            Some(GdbCommand::ReadFeatures { target_xml, offset, length })
        },
        _ => None,
    }
}

fn parse_query(p: &[u8]) -> (r: Option<GdbCommand>)
    ensures
        match query_of(p@) {
            Some(c) => r matches Some(x) && x@ == c,
            None => r is None,
        },
{
    proof {
        reveal_strlit("qAttached");
        reveal_strlit("qSupported");
        reveal_strlit("qSupported:");
        reveal_strlit("qXfer:features:read:");
    }
    if bytes_equal(p, literal("qAttached")) {
        return Some(GdbCommand::QueryAttached);
    }
    if bytes_equal(p, literal("qSupported")) || has_prefix(p, literal("qSupported:")) {
        return Some(GdbCommand::QuerySupported);
    }
    let prefix = literal("qXfer:features:read:");
    if has_prefix(p, prefix) {
        let params = vstd::slice::slice_subrange(p, prefix.len(), p.len());
        return parse_read_features(params);
    }
    Some(GdbCommand::Unsupported)
}

/// Reads the request in a packet body; `None` when the body is malformed in
/// a way that makes the server give up.
pub fn parse_command(p: &[u8]) -> (r: Option<GdbCommand>)
    ensures
        match command_of(p@) {
            Some(c) => r matches Some(x) && x@ == c,
            None => r is None,
        },
        r matches Some(x) ==> well_formed(x@),
{
    if p.len() == 0 {
        return Some(GdbCommand::Ignore);
    }
    let c = p[0];
    let rest = vstd::slice::slice_subrange(p, 1, p.len());
    if c == CMD_HALT_REASON {
        Some(GdbCommand::QueryHaltReason)
    } else if c == CMD_READ_REGISTERS {
        Some(GdbCommand::ReadRegisters)
    } else if c == CMD_WRITE_REGISTERS {
        match parse_registers(rest) {
            Some(values) => Some(GdbCommand::WriteRegisters { values }),
            None => None,
        }
    } else if c == CMD_READ_REGISTER {
        match parse_hex_usize(rest) {
            Some(num) => Some(GdbCommand::ReadRegister { num }),
            None => None,
        }
    } else if c == CMD_WRITE_REGISTER {
        parse_write_register(rest)
    } else if c == CMD_READ_MEMORY {
        parse_read_memory(rest)
    } else if c == CMD_WRITE_MEMORY {
        parse_write_memory(rest)
    } else if c == CMD_CONTINUE || c == CMD_STEP {
        Some(GdbCommand::Resume { step: c == CMD_STEP, address: parse_resume_address(rest) })
    } else if c == CMD_CONTINUE_SIGNAL || c == CMD_STEP_SIGNAL {
        let address = match split_at_byte(rest, 59) {
            Some((_signal, addr)) => parse_resume_address(addr),
            None => None,
        };
        Some(GdbCommand::Resume { step: c == CMD_STEP_SIGNAL, address })
    } else if c == CMD_KILL {
        Some(GdbCommand::Kill)
    } else {
        parse_query(p)
    }
}

} // verus!
