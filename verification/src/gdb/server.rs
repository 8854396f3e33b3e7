//! The server's decisions: what to tell the debugger when the target
//! stops, and how to answer each request.
//!
//! The server holds no connection and no CPU: the caller hands in the
//! registers and each request, and carries out the effect that the answer
//! names (setting registers, touching guest memory, resuming) before it
//! sends the reply.
use vstd::prelude::*;
use vstd::string::StringExecFns;
use vstd::utf8::encode_utf8;
use crate::gdb::bytes::{ascii, literal, literal_vec, lemma_split_once_at};
use crate::gdb::command::{
    CMD_CONTINUE,
    CMD_CONTINUE_SIGNAL,
    CMD_HALT_REASON,
    CMD_KILL,
    CMD_READ_MEMORY,
    CMD_READ_REGISTERS,
    CMD_STEP,
    CMD_STEP_SIGNAL,
    CMD_WRITE_MEMORY,
    CMD_WRITE_REGISTER,
    CMD_WRITE_REGISTERS,
    CommandView,
    GdbCommand,
    GENERAL_REGISTER_COUNT,
    command_of,
    read_memory_of,
    write_memory_of,
    register_word,
    registers_of,
    well_formed,
};
use crate::gdb::hex::{
    is_lower_hex_digit,
    lemma_lower_byte_roundtrip,
    lemma_lower_word_roundtrip,
    hex_char,
    hex_usize,
    digits_value,
    lemma_hex_char_value,
    hex_u32,
    byte_of,
    lemma_number_text_bytes,
    byte_hex,
    bytes_hex,
    hex_u8,
    lemma_byte_hex_roundtrip,
    lemma_register_hex_value,
    lemma_swap32_involutive,
    parse_hex_u8,
    push_bytes_hex,
    push_register_hex,
    register_hex,
    swap32,
};

verus! {

/// ARM architecture used by the guest.
#[derive(Debug, Clone, Copy, PartialEq, Eq)]
pub enum ArmArchitecture {
    Armv6,
    Armv7,
}

/// The architecture name expected by GDB.
pub open spec fn arch_name(architecture: ArmArchitecture) -> Seq<char> {
    match architecture {
        ArmArchitecture::Armv6 => "armv6"@,
        ArmArchitecture::Armv7 => "armv7"@,
    }
}

impl ArmArchitecture {
    /// The architecture name expected by GDB.
    pub fn gdb_name(self) -> (name: &'static str)
        ensures
            name@ == arch_name(self),
    {
        match self {
            ArmArchitecture::Armv6 => "armv6",
            ArmArchitecture::Armv7 => "armv7",
        }
    }
}

/// The text of the target description before the architecture name.
pub open spec fn xml_head() -> Seq<char> {
    "\n<target version=\"1.0\">\n    <architecture>"@
}

/// The text of the target description after the architecture name.
pub open spec fn xml_tail() -> Seq<char> {
    "</architecture>\n    <osabi>Darwin</osabi>\n</target>\n"@
}

/// The GDB target description for `architecture`.
pub open spec fn target_description(architecture: ArmArchitecture) -> Seq<char> {
    xml_head() + arch_name(architecture) + xml_tail()
}

/// Generates the GDB target description XML.
pub fn target_xml(architecture: ArmArchitecture) -> (xml: String)
    ensures
        xml@ == target_description(architecture),
{
    let mut xml = String::from_str("\n<target version=\"1.0\">\n    <architecture>");
    xml.append(architecture.gdb_name());
    xml.append("</architecture>\n    <osabi>Darwin</osabi>\n</target>\n");
    xml
}

/// Why the CPU stopped and handed control to the debugger.
#[derive(Debug, Clone, Copy, PartialEq, Eq)]
pub enum StopReason {
    UndefinedInstruction,
    Breakpoint,
    MemoryError,
}

/// The CPU registers that the debugger can see: r0..r15 and the CPSR.
#[derive(Debug, Clone, Copy, PartialEq, Eq)]
pub struct CpuRegisters {
    pub regs: [u32; 16],
    pub cpsr: u32,
}

/// What the caller must do for a request, before sending the reply.
pub enum GdbEffect {
    /// Nothing.
    Nothing,
    /// Set r0..r15 to these values.
    SetRegisters { values: Vec<u32> },
    /// Set register `num` (below 16).
    SetRegister { num: usize, value: u32 },
    /// Set the CPSR.
    SetCpsr { value: u32 },
    /// Read `length` bytes of guest memory at `addr` and answer with
    /// [`memory_read_reply`].
    ReadMemory { addr: u32, length: u32 },
    /// Write guest memory at `addr`: if the `length` bytes there can be
    /// written, decode `data` with [`decode_memory_data`], store it,
    /// invalidate the CPU's cache for the range, and answer with
    /// [`memory_write_reply`].
    WriteMemory { addr: u32, length: u32, data: Vec<u8> },
    /// Stop talking to the debugger and run: one instruction (then come
    /// back) if `step`, else freely; first branch to `branch_to` (an address
    /// whose low bit selects Thumb) if given.
    Resume { step: bool, branch_to: Option<u32> },
    /// The debugger asked to kill the target.
    Kill,
}

/// An answer to a request: an effect, then (if any) a packet to send.
pub struct GdbResponse {
    pub effect: GdbEffect,
    pub reply: Option<Vec<u8>>,
}

/// [`GdbEffect`] as mathematical values.
pub enum EffectView {
    Nothing,
    SetRegisters { values: Seq<u32> },
    SetRegister { num: usize, value: u32 },
    SetCpsr { value: u32 },
    ReadMemory { addr: u32, length: u32 },
    WriteMemory { addr: u32, length: u32, data: Seq<u8> },
    Resume { step: bool, branch_to: Option<u32> },
    Kill,
}

/// [`GdbResponse`] as mathematical values.
pub struct ResponseView {
    pub effect: EffectView,
    pub reply: Option<Seq<u8>>,
}

impl View for GdbEffect {
    type V = EffectView;

    open spec fn view(&self) -> EffectView {
        match self {
            GdbEffect::Nothing => EffectView::Nothing,
            GdbEffect::SetRegisters { values } => EffectView::SetRegisters { values: values@ },
            GdbEffect::SetRegister { num, value } => EffectView::SetRegister {
                num: *num,
                value: *value,
            },
            GdbEffect::SetCpsr { value } => EffectView::SetCpsr { value: *value },
            GdbEffect::ReadMemory { addr, length } => EffectView::ReadMemory {
                addr: *addr,
                length: *length,
            },
            GdbEffect::WriteMemory { addr, length, data } => EffectView::WriteMemory {
                addr: *addr,
                length: *length,
                data: data@,
            },
            GdbEffect::Resume { step, branch_to } => EffectView::Resume {
                step: *step,
                branch_to: *branch_to,
            },
            GdbEffect::Kill => EffectView::Kill,
        }
    }
}

impl View for GdbResponse {
    type V = ResponseView;

    open spec fn view(&self) -> ResponseView {
        ResponseView {
            effect: self.effect@,
            reply: match &self.reply {
                Some(r) => Some(r@),
                None => None,
            },
        }
    }
}

/// `OK`
pub open spec fn reply_ok() -> Seq<u8> {
    ascii("OK"@)
}

/// `E00`
pub open spec fn reply_error() -> Seq<u8> {
    ascii("E00"@)
}

/// The registers r0..r(n-1) in GDB's notation, one after the other.
pub open spec fn registers_hex(values: Seq<u32>) -> Seq<u8>
    decreases values.len(),
{
    if values.len() == 0 {
        Seq::empty()
    } else {
        registers_hex(values.drop_last()) + register_hex(values.last())
    }
}

/// The answer to `p<num>`: r0..r15 and the CPSR (25) as they are, 16..24
/// and 58 as zero, 26..57 as a 64-bit zero, anything else an error.
pub open spec fn register_reply(num: usize, regs: CpuRegisters) -> Seq<u8> {
    if num < 16 {
        register_hex(regs.regs@[num as int])
    } else if num <= 24 {
        register_hex(0)
    } else if num == 25 {
        register_hex(regs.cpsr)
    } else if num <= 57 {
        ascii("0000000000000000"@)
    } else if num == 58 {
        register_hex(0)
    } else {
        reply_error()
    }
}

/// What `P<num>=...` does.
pub open spec fn write_register_response(num: usize, value: Option<u32>) -> ResponseView {
    if num < 16 {
        ResponseView {
            effect: EffectView::SetRegister { num, value: value.unwrap() },
            reply: Some(reply_ok()),
        }
    } else if num == 25 {
        ResponseView { effect: EffectView::SetCpsr { value: value.unwrap() }, reply: Some(reply_ok()) }
    } else if num <= 58 {
        ResponseView { effect: EffectView::Nothing, reply: Some(reply_ok()) }
    } else {
        ResponseView { effect: EffectView::Nothing, reply: Some(reply_error()) }
    }
}

/// The answer to a read of the target description: from byte `offset`, at
/// most `length` bytes, after `m` (more to come) or `l` (that was the
/// last); an error for another annex or an offset past the end.
pub open spec fn features_reply(xml: Seq<u8>, target_xml: bool, offset: usize, length: usize) -> Seq<u8> {
    if target_xml && offset <= xml.len() {
        let rest = xml.subrange(offset as int, xml.len() as int);
        let n = if length < rest.len() {
            length as int
        } else {
            rest.len() as int
        };
        let marker: u8 = if n < length {
            108
        } else {
            109
        };
        seq![marker] + rest.subrange(0, n)
    } else {
        reply_error()
    }
}

/// A reply and no effect.
pub open spec fn reply_only(reply: Seq<u8>) -> ResponseView {
    ResponseView { effect: EffectView::Nothing, reply: Some(reply) }
}

/// The answer to a request, for a target of the given architecture whose
/// registers are `regs`.
pub open spec fn response_of(architecture: ArmArchitecture, cmd: CommandView, regs: CpuRegisters) -> ResponseView {
    match cmd {
        CommandView::Ignore => ResponseView { effect: EffectView::Nothing, reply: None },
        CommandView::QueryHaltReason => reply_only(ascii("S00"@)),
        CommandView::ReadRegisters => reply_only(registers_hex(regs.regs@)),
        CommandView::WriteRegisters { values } => ResponseView {
            effect: EffectView::SetRegisters { values },
            reply: Some(reply_ok()),
        },
        CommandView::ReadRegister { num } => reply_only(register_reply(num, regs)),
        CommandView::WriteRegister { num, value } => write_register_response(num, value),
        CommandView::ReadMemory { addr, length } => ResponseView {
            effect: EffectView::ReadMemory { addr, length },
            reply: None,
        },
        CommandView::WriteMemory { addr, length, data } => ResponseView {
            effect: EffectView::WriteMemory { addr, length, data },
            reply: None,
        },
        CommandView::Resume { step, address } => ResponseView {
            effect: EffectView::Resume { step, branch_to: address },
            reply: None,
        },
        CommandView::Kill => ResponseView { effect: EffectView::Kill, reply: None },
        CommandView::QueryAttached => reply_only(ascii("0"@)),
        CommandView::QuerySupported => reply_only(ascii("qXfer:features:read+"@)),
        CommandView::ReadFeatures { target_xml, offset, length } => reply_only(
            features_reply(encode_utf8(target_description(architecture)), target_xml, offset, length),
        ),
        CommandView::Unsupported => reply_only(Seq::empty()),
    }
}

/// The packet that reports a stop, if one is due: none at the very first
/// halt (the debugger asks with `?`), `S05` (SIGTRAP) after a later halt,
/// an undefined instruction or a breakpoint, `S0b` (SIGSEGV) after a
/// memory error.
pub open spec fn stop_packet(first_halt: bool, stop_reason: Option<StopReason>) -> Option<Seq<u8>> {
    match stop_reason {
        None => if first_halt {
            None
        } else {
            Some(ascii("S05"@))
        },
        Some(StopReason::MemoryError) => Some(ascii("S0b"@)),
        Some(_) => Some(ascii("S05"@)),
    }
}

/// The answer to `m`: the bytes in hex, or an error when they cannot be
/// read.
pub open spec fn memory_reply(data: Option<Seq<u8>>) -> Seq<u8> {
    match data {
        Some(d) => bytes_hex(d),
        None => reply_error(),
    }
}

/// The bytes that the hex text of an `M` request stands for: each pair of
/// characters read as a number no greater than 255; `None` if one is not.
pub open spec fn memory_data_of(data: Seq<u8>) -> Option<Seq<u8>> {
    if data.len() % 2 == 0 && forall|i: int|
        0 <= i < data.len() / 2 ==> #[trigger] hex_u8(data.subrange(2 * i, 2 * i + 2)) is Some {
        Some(Seq::new(data.len() / 2, |i: int| hex_u8(data.subrange(2 * i, 2 * i + 2)).unwrap()))
    } else {
        None
    }
}

/// The answer to `m`: the bytes that could be read, in hex, or `E00`.
pub fn memory_read_reply(data: Option<&[u8]>) -> (reply: Vec<u8>)
    ensures
        reply@ == memory_reply(
            match data {
                Some(d) => Some(d@),
                None => None,
            },
        ),
{
    match data {
        Some(d) => {
            let mut out: Vec<u8> = Vec::new();
            push_bytes_hex(&mut out, d);
            assert(out@ =~= bytes_hex(d@));
            out
        },
        None => {
            proof {
                reveal_strlit("E00");
            }
            literal_vec("E00")
        },
    }
}

/// The answer to `M`: `OK` when the memory could be written, else `E00`.
pub fn memory_write_reply(written: bool) -> (reply: Vec<u8>)
    ensures
        reply@ == (if written {
            reply_ok()
        } else {
            reply_error()
        }),
{
    proof {
        reveal_strlit("OK");
        reveal_strlit("E00");
    }
    if written {
        literal_vec("OK")
    } else {
        literal_vec("E00")
    }
}

/// Decodes the hex text of an `M` request into bytes; `None` if a pair of
/// characters is not a byte (the server gives up then).
pub fn decode_memory_data(data: &[u8]) -> (r: Option<Vec<u8>>)
    ensures
        match memory_data_of(data@) {
            Some(b) => r matches Some(x) && x@ == b,
            None => r is None,
        },
{
    let n = data.len();
    if n % 2 != 0 {
        return None;
    }
    let mut out: Vec<u8> = Vec::new();
    let mut i: usize = 0;
    while i < n / 2
        invariant
            n == data@.len(),
            n % 2 == 0,
            i <= n / 2,
            out@.len() == i,
            forall|j: int| 0 <= j < i ==> #[trigger] hex_u8(data@.subrange(2 * j, 2 * j + 2)) is Some,
            forall|j: int|
                0 <= j < i ==> out@[j] == hex_u8(data@.subrange(2 * j, 2 * j + 2)).unwrap(),
        decreases n / 2 - i,
    {
        let pair = vstd::slice::slice_subrange(data, 2 * i, 2 * i + 2);
        match parse_hex_u8(pair) {
            None => {
                assert(hex_u8(data@.subrange(2 * i as int, 2 * i as int + 2)) is None);
                return None;
            },
            Some(b) => out.push(b),
        }
        i = i + 1;
    }
    assert(out@ =~= Seq::new(
        (n / 2) as nat,
        |k: int| hex_u8(data@.subrange(2 * k, 2 * k + 2)).unwrap(),
    ));
    Some(out)
}

/// The protocol state of the server.
pub struct GdbServer {
    first_halt: bool,
    architecture: ArmArchitecture,
}

impl GdbServer {
    /// Whether the next halt is the first one, which is not reported.
    pub closed spec fn spec_first_halt(&self) -> bool {
        self.first_halt
    }

    /// The architecture reported to the debugger.
    pub closed spec fn spec_architecture(&self) -> ArmArchitecture {
        self.architecture
    }

    /// A server for a target of the given architecture, before its first
    /// halt.
    pub fn new_with_architecture(architecture: ArmArchitecture) -> (s: GdbServer)
        ensures
            s.spec_first_halt(),
            s.spec_architecture() == architecture,
    {
        GdbServer { first_halt: true, architecture }
    }

    /// A server for an ARMv6 target (the default), before its first halt.
    pub fn new() -> (s: GdbServer)
        ensures
            s.spec_first_halt(),
            s.spec_architecture() == ArmArchitecture::Armv6,
    {
        Self::new_with_architecture(ArmArchitecture::Armv6)
    }

    /// The architecture reported to the debugger.
    pub fn architecture(&self) -> (a: ArmArchitecture)
        ensures
            a == self.spec_architecture(),
    {
        self.architecture
    }

    /// The packet to send when the target stops, if one is due (see
    /// [`stop_packet`]); after it, the next halt is no longer the first.
    pub fn halt_notification(&mut self, stop_reason: Option<StopReason>) -> (packet: Option<Vec<u8>>)
        ensures
            match packet {
                Some(p) => stop_packet(old(self).spec_first_halt(), stop_reason) == Some(p@),
                None => stop_packet(old(self).spec_first_halt(), stop_reason) is None,
            },
            final(self).spec_first_halt() == (old(self).spec_first_halt() && stop_reason is Some),
            final(self).spec_architecture() == old(self).spec_architecture(),
    {
        proof {
            reveal_strlit("S05");
            reveal_strlit("S0b");
        }
        match stop_reason {
            None => {
                if self.first_halt {
                    self.first_halt = false;
                    None
                } else {
                    Some(literal_vec("S05"))
                }
            },
            Some(StopReason::MemoryError) => Some(literal_vec("S0b")),
            Some(_) => Some(literal_vec("S05")),
        }
    }

    /// Answers a request, given the target's registers. A halt-reason
    /// query is only made while the target stopped with no fault.
    pub fn handle_command(
        &self,
        cmd: GdbCommand,
        stop_reason: Option<StopReason>,
        regs: &CpuRegisters,
    ) -> (response: GdbResponse)
        requires
            well_formed(cmd@),
            cmd@ is QueryHaltReason ==> stop_reason is None,
        ensures
            response@ == response_of(self.spec_architecture(), cmd@, *regs),
    {
        match cmd {
            GdbCommand::Ignore => GdbResponse { effect: GdbEffect::Nothing, reply: None },
            GdbCommand::QueryHaltReason => {
                proof {
                    reveal_strlit("S00");
                }
                reply(literal_vec("S00"))
            },
            GdbCommand::ReadRegisters => reply(all_registers_reply(regs)),
            GdbCommand::WriteRegisters { values } => {
                proof {
                    reveal_strlit("OK");
                }
                GdbResponse {
                    effect: GdbEffect::SetRegisters { values },
                    reply: Some(literal_vec("OK")),
                }
            },
            GdbCommand::ReadRegister { num } => reply(read_register_reply(num, regs)),
            GdbCommand::WriteRegister { num, value } => write_register(num, value),
            GdbCommand::ReadMemory { addr, length } => GdbResponse {
                effect: GdbEffect::ReadMemory { addr, length },
                reply: None,
            },
            GdbCommand::WriteMemory { addr, length, data } => GdbResponse {
                effect: GdbEffect::WriteMemory { addr, length, data },
                reply: None,
            },
            GdbCommand::Resume { step, address } => GdbResponse {
                effect: GdbEffect::Resume { step, branch_to: address },
                reply: None,
            },
            GdbCommand::Kill => GdbResponse { effect: GdbEffect::Kill, reply: None },
            GdbCommand::QueryAttached => {
                proof {
                    reveal_strlit("0");
                }
                reply(literal_vec("0"))
            },
            GdbCommand::QuerySupported => {
                proof {
                    reveal_strlit("qXfer:features:read+");
                }
                reply(literal_vec("qXfer:features:read+"))
            },
            GdbCommand::ReadFeatures { target_xml: is_target_xml, offset, length } => {
                let xml = target_xml(self.architecture);
                let bytes = xml.as_str().as_bytes();
                reply(read_features_reply(bytes, is_target_xml, offset, length))
            },
            GdbCommand::Unsupported => reply(Vec::new()),
        }
    }
}

fn reply(packet: Vec<u8>) -> (r: GdbResponse)
    ensures
        r@ == reply_only(packet@),
{
    GdbResponse { effect: GdbEffect::Nothing, reply: Some(packet) }
}

fn all_registers_reply(regs: &CpuRegisters) -> (out: Vec<u8>)
    ensures
        out@ == registers_hex(regs.regs@),
{
    let mut out: Vec<u8> = Vec::new();
    let mut i: usize = 0;
    while i < GENERAL_REGISTER_COUNT
        invariant
            i <= GENERAL_REGISTER_COUNT,
            regs.regs@.len() == GENERAL_REGISTER_COUNT,
            out@ == registers_hex(regs.regs@.subrange(0, i as int)),
        decreases GENERAL_REGISTER_COUNT - i,
    {
        proof {
            let t = regs.regs@.subrange(0, i as int + 1);
            assert(t.drop_last() =~= regs.regs@.subrange(0, i as int));
        }
        push_register_hex(&mut out, regs.regs[i]);
        i = i + 1;
    }
    assert(regs.regs@.subrange(0, GENERAL_REGISTER_COUNT as int) =~= regs.regs@);
    out
}

fn register_text(v: u32) -> (out: Vec<u8>)
    ensures
        out@ == register_hex(v),
{
    let mut out: Vec<u8> = Vec::new();
    push_register_hex(&mut out, v);
    assert(out@ =~= register_hex(v));
    out
}

fn read_register_reply(num: usize, regs: &CpuRegisters) -> (out: Vec<u8>)
    ensures
        out@ == register_reply(num, *regs),
{
    proof {
        reveal_strlit("0000000000000000");
        reveal_strlit("E00");
    }
    if num < 16 {
        register_text(regs.regs[num])
    } else if num <= 24 {
        register_text(0)
    } else if num == 25 {
        register_text(regs.cpsr)
    } else if num <= 57 {
        literal_vec("0000000000000000")
    } else if num == 58 {
        register_text(0)
    } else {
        literal_vec("E00")
    }
}

fn write_register(num: usize, value: Option<u32>) -> (r: GdbResponse)
    requires
        num < 16 || num == 25 ==> value is Some,
    ensures
        r@ == write_register_response(num, value),
{
    proof {
        reveal_strlit("OK");
        reveal_strlit("E00");
    }
    if num < 16 {
        GdbResponse {
            effect: GdbEffect::SetRegister { num, value: value.unwrap() },
            reply: Some(literal_vec("OK")),
        }
    } else if num == 25 {
        GdbResponse { effect: GdbEffect::SetCpsr { value: value.unwrap() }, reply: Some(literal_vec("OK")) }
    } else if num <= 58 {
        reply(literal_vec("OK"))
    } else {
        reply(literal_vec("E00"))
    }
}

fn read_features_reply(xml: &[u8], target_xml: bool, offset: usize, length: usize) -> (out: Vec<u8>)
    ensures
        out@ == features_reply(xml@, target_xml, offset, length),
{
    if target_xml && offset <= xml.len() {
        let rest = vstd::slice::slice_subrange(xml, offset, xml.len());
        let n = if length < rest.len() {
            length
        } else {
            rest.len()
        };
        let mut out: Vec<u8> = Vec::new();
        if n < length {
            out.push(108);
        } else {
            out.push(109);
        }
        let mut i: usize = 0;
        while i < n
            invariant
                i <= n <= rest@.len(),
                out@.len() == i + 1,
                out@[0] == (if n < length {
                    108u8
                } else {
                    109u8
                }),
                forall|j: int| 0 <= j < i ==> out@[j + 1] == rest@[j],
            decreases n - i,
        {
            out.push(rest[i]);
            i = i + 1;
        }
        let ghost marker: u8 = if n < length {
            108
        } else {
            109
        };
        assert(out@ =~= seq![marker] + rest@.subrange(0, n as int));
        out
    } else {
        proof {
            reveal_strlit("E00");
        }
        literal_vec("E00")
    }
}

/// The registers in GDB's notation take eight characters each, in order.
proof fn lemma_registers_hex_layout(values: Seq<u32>)
    ensures
        registers_hex(values).len() == 8 * values.len(),
        forall|i: int|
            0 <= i < values.len() ==> #[trigger] registers_hex(values).subrange(8 * i, 8 * i + 8)
                == register_hex(values[i]),
    decreases values.len(),
{
    if values.len() > 0 {
        let prev = values.drop_last();
        lemma_registers_hex_layout(prev);
        let x = register_hex(values.last());
        assert(x.len() == 8);
        let all = registers_hex(values);
        assert(all == registers_hex(prev) + x);
        assert forall|i: int| 0 <= i < values.len() implies #[trigger] all.subrange(8 * i, 8 * i + 8)
            == register_hex(values[i]) by {
            if i < values.len() - 1 {
                assert(all.subrange(8 * i, 8 * i + 8) =~= registers_hex(prev).subrange(8 * i, 8 * i + 8));
                assert(prev[i] == values[i]);
            } else {
                assert(all.subrange(8 * i, 8 * i + 8) =~= x);
            }
        }
    }
}

/// Bytes in hex take two characters each, in order.
proof fn lemma_bytes_hex_layout(b: Seq<u8>)
    ensures
        bytes_hex(b).len() == 2 * b.len(),
        forall|i: int|
            0 <= i < b.len() ==> #[trigger] bytes_hex(b).subrange(2 * i, 2 * i + 2) == byte_hex(b[i]),
    decreases b.len(),
{
    if b.len() > 0 {
        let prev = b.drop_last();
        lemma_bytes_hex_layout(prev);
        let x = byte_hex(b.last());
        let all = bytes_hex(b);
        assert(all == bytes_hex(prev) + x);
        assert forall|i: int| 0 <= i < b.len() implies #[trigger] all.subrange(2 * i, 2 * i + 2)
            == byte_hex(b[i]) by {
            if i < b.len() - 1 {
                assert(all.subrange(2 * i, 2 * i + 2) =~= bytes_hex(prev).subrange(2 * i, 2 * i + 2));
                assert(prev[i] == b[i]);
            } else {
                assert(all.subrange(2 * i, 2 * i + 2) =~= x);
            }
        }
    }
}

/// Writing back what a register read gave leaves the registers as they
/// were: the body of the answer to `g`, sent back after `G`, is a request to
/// set r0..r15 to exactly the values that were read.
pub proof fn lemma_read_registers_then_write(regs: CpuRegisters)
    ensures
        command_of(seq![CMD_WRITE_REGISTERS] + registers_hex(regs.regs@)) == Some(
            CommandView::WriteRegisters { values: regs.regs@ },
        ),
{
    let values = regs.regs@;
    let p = seq![CMD_WRITE_REGISTERS] + registers_hex(values);
    lemma_registers_hex_layout(values);
    let rest = p.subrange(1, p.len() as int);
    assert(rest =~= registers_hex(values));
    assert forall|i: int| 0 <= i < GENERAL_REGISTER_COUNT implies #[trigger] hex_u32(
        register_word(rest, i),
    ) == Some(swap32(values[i])) by {
        assert(register_word(rest, i) == register_hex(values[i]));
        lemma_register_hex_value(values[i]);
    }
    let decoded = Seq::new(
        GENERAL_REGISTER_COUNT as nat,
        |i: int| swap32(hex_u32(register_word(rest, i)).unwrap()),
    );
    assert forall|i: int| 0 <= i < GENERAL_REGISTER_COUNT implies decoded[i] == values[i] by {
        lemma_swap32_involutive(values[i]);
    }
    assert(decoded =~= values);
    assert(registers_of(rest) == Some(decoded));
}

/// Writing back what a memory read gave stores the same bytes: the hex
/// text of the answer to `m` decodes, as the data of an `M` request, to the
/// bytes that were read.
pub proof fn lemma_read_memory_then_write(data: Seq<u8>)
    ensures
        memory_data_of(memory_reply(Some(data))) == Some(data),
{
    let text = bytes_hex(data);
    lemma_bytes_hex_layout(data);
    assert(text.len() / 2 == data.len());
    assert forall|i: int| 0 <= i < text.len() / 2 implies #[trigger] hex_u8(
        text.subrange(2 * i, 2 * i + 2),
    ) == Some(data[i]) by {
        lemma_byte_hex_roundtrip(data[i]);
    }
    let decoded = Seq::new(text.len() / 2, |i: int| hex_u8(text.subrange(2 * i, 2 * i + 2)).unwrap());
    assert(decoded =~= data);
}

/// Writing back what a single-register read gave sets the register to the
/// value that was read: for r0..r15, the answer to `p<n>` is the register
/// in GDB's notation, and `P<n>=` followed by that answer is a request to
/// set register `n` to exactly that value.
pub proof fn lemma_read_register_then_write(num: usize, regs: CpuRegisters)
    requires
        num < 16,
    ensures
        register_reply(num, regs) == register_hex(regs.regs@[num as int]),
        command_of(seq![CMD_WRITE_REGISTER, hex_char(num as nat), 61u8] + register_reply(num, regs))
            == Some(CommandView::WriteRegister { num, value: Some(regs.regs@[num as int]) }),
{
    let v = regs.regs@[num as int];
    let p = seq![CMD_WRITE_REGISTER, hex_char(num as nat), 61u8] + register_hex(v);
    let rest = p.subrange(1, p.len() as int);
    assert(rest =~= seq![hex_char(num as nat), 61u8] + register_hex(v));
    lemma_hex_char_value(num as nat);
    assert(rest[0] != 61u8);
    assert(rest[1] == 61u8);
    let w = choose|i: int| 0 <= i < rest.len() && rest[i] == 61u8 && forall|j: int| 0 <= j < i ==> rest[j] != 61u8;
    assert(exists|i: int| 0 <= i < rest.len() && rest[i] == 61u8);
    assert(w == 1) by {
        if w > 1 {
            assert(rest[1] != 61u8);
        }
    }
    let n = rest.subrange(0, 1);
    let word = rest.subrange(2, rest.len() as int);
    assert(n =~= seq![hex_char(num as nat)]);
    assert(word =~= register_hex(v));
    assert(n.drop_last() =~= Seq::<u8>::empty());
    assert(digits_value(n.drop_last()) == Some(0nat));
    assert(digits_value(n) == Some(num as nat));
    assert(hex_usize(n) == Some(num));
    lemma_register_hex_value(v);
    lemma_swap32_involutive(v);
}

/// Only the very first halt goes unreported: after a halt without a fault
/// (which clears the first-halt flag), every later halt sends a stop
/// packet, and a halt caused by a fault always does.
pub proof fn lemma_later_halts_reported(
    first_halt: bool,
    earlier_stop: Option<StopReason>,
    later_stop: Option<StopReason>,
)
    ensures
        earlier_stop is None ==> stop_packet(first_halt && earlier_stop is Some, later_stop) is Some,
        later_stop is Some ==> stop_packet(first_halt, later_stop) is Some,
{
}


/// Registers set with `G` are what `g` then reads: for data of sixteen
/// eight-digit words in lower-case hex (as `g` writes them), the `G`
/// request sets r0..r15 to the values the words stand for and answers
/// `OK`, and once the target holds those values the answer to `g` is that
/// same data.
pub proof fn lemma_write_registers_then_read(
    architecture: ArmArchitecture,
    data: Seq<u8>,
    before: CpuRegisters,
    after: CpuRegisters,
)
    requires
        data.len() == 8 * GENERAL_REGISTER_COUNT,
        forall|j: int| 0 <= j < data.len() ==> is_lower_hex_digit(#[trigger] data[j]),
        registers_of(data) is Some ==> after.regs@ == registers_of(data).unwrap(),
    ensures
        registers_of(data) is Some,
        command_of(seq![CMD_WRITE_REGISTERS] + data) == Some(
            CommandView::WriteRegisters { values: registers_of(data).unwrap() },
        ),
        response_of(architecture, command_of(seq![CMD_WRITE_REGISTERS] + data).unwrap(), before) == (
        ResponseView {
            effect: EffectView::SetRegisters { values: registers_of(data).unwrap() },
            reply: Some(reply_ok()),
        }),
        response_of(architecture, CommandView::ReadRegisters, after).reply == Some(data),
{
    assert forall|i: int| 0 <= i < GENERAL_REGISTER_COUNT implies #[trigger] hex_u32(
        register_word(data, i),
    ) is Some && register_hex(swap32(hex_u32(register_word(data, i)).unwrap())) == register_word(
        data,
        i,
    ) by {
        let w = register_word(data, i);
        assert forall|k: int| 0 <= k < 8 implies is_lower_hex_digit(#[trigger] w[k]) by {
            assert(w[k] == data[8 * i + k]);
        }
        lemma_lower_word_roundtrip(w);
    }
    let values = registers_of(data).unwrap();
    let p = seq![CMD_WRITE_REGISTERS] + data;
    assert(p.subrange(1, p.len() as int) =~= data);
    lemma_registers_hex_layout(values);
    let text = registers_hex(values);
    assert forall|j: int| 0 <= j < data.len() implies #[trigger] text[j] == data[j] by {
        let i = j / 8;
        assert(0 <= i < GENERAL_REGISTER_COUNT);
        assert(text.subrange(8 * i, 8 * i + 8) == register_hex(values[i]));
        assert(text.subrange(8 * i, 8 * i + 8)[j - 8 * i] == text[j]);
        assert(register_word(data, i)[j - 8 * i] == data[j]);
    }
    assert(text =~= data);
}

/// Memory written with `M` is what `m` then reads: lower-case hex text (as
/// `m` writes it) decodes to bytes that, read back, are answered with that
/// same text.
pub proof fn lemma_write_memory_then_read(data: Seq<u8>)
    requires
        data.len() % 2 == 0,
        forall|j: int| 0 <= j < data.len() ==> is_lower_hex_digit(#[trigger] data[j]),
    ensures
        memory_data_of(data) is Some,
        memory_reply(memory_data_of(data)) == data,
{
    assert forall|i: int| 0 <= i < data.len() / 2 implies #[trigger] hex_u8(data.subrange(2 * i, 2 * i + 2))
        is Some && byte_hex(hex_u8(data.subrange(2 * i, 2 * i + 2)).unwrap()) == data.subrange(
        2 * i,
        2 * i + 2,
    ) by {
        let w = data.subrange(2 * i, 2 * i + 2);
        assert(w[0] == data[2 * i] && w[1] == data[2 * i + 1]);
        lemma_lower_byte_roundtrip(w);
    }
    let bytes = memory_data_of(data).unwrap();
    lemma_bytes_hex_layout(bytes);
    let text = bytes_hex(bytes);
    assert forall|j: int| 0 <= j < data.len() implies #[trigger] text[j] == data[j] by {
        let i = j / 2;
        assert(text.subrange(2 * i, 2 * i + 2) == byte_hex(bytes[i]));
        assert(text.subrange(2 * i, 2 * i + 2)[j - 2 * i] == text[j]);
        assert(data.subrange(2 * i, 2 * i + 2)[j - 2 * i] == data[j]);
    }
    assert(text =~= data);
}


/// The bytes `OK`.
pub open spec fn ok_bytes() -> Seq<u8> {
    seq![79u8, 75u8]
}

/// The bytes `E00`.
pub open spec fn error_bytes() -> Seq<u8> {
    seq![69u8, 48u8, 48u8]
}

/// `n` characters `0`.
pub open spec fn zero_digits(n: nat) -> Seq<u8> {
    Seq::new(n, |i: int| 48u8)
}

proof fn lemma_reply_texts()
    ensures
        reply_ok() == ok_bytes(),
        reply_error() == error_bytes(),
        ascii("0000000000000000"@) == zero_digits(16),
        register_hex(0) == zero_digits(8),
{
    reveal_strlit("OK");
    reveal_strlit("E00");
    reveal_strlit("0000000000000000");
    assert(reply_ok() =~= ok_bytes());
    assert(reply_error() =~= error_bytes());
    assert(ascii("0000000000000000"@) =~= zero_digits(16));
    assert(byte_of(0, 0) == 0 && byte_of(0, 1) == 0 && byte_of(0, 2) == 0 && byte_of(0, 3) == 0) by (bit_vector);
    assert(register_hex(0) =~= zero_digits(8));
}

/// What `P<num>=<value>` does, for every register number: r0..r15 and the
/// CPSR (25) take the value; the registers the target does not hold
/// (16..24, the FPA registers, and 26..58) are accepted and left alone;
/// only a number above 58 is refused with `E00`. Every accepted write is
/// answered `OK`.
pub proof fn lemma_write_register_answers(
    architecture: ArmArchitecture,
    num: usize,
    value: Option<u32>,
    regs: CpuRegisters,
)
    ensures
        ({
            let r = response_of(architecture, CommandView::WriteRegister { num, value }, regs);
            &&& num < 16 ==> r == (ResponseView {
                effect: EffectView::SetRegister { num, value: value.unwrap() },
                reply: Some(ok_bytes()),
            })
            &&& num == 25 ==> r == (ResponseView {
                effect: EffectView::SetCpsr { value: value.unwrap() },
                reply: Some(ok_bytes()),
            })
            &&& (16 <= num <= 24 || 26 <= num <= 58) ==> r == (ResponseView {
                effect: EffectView::Nothing,
                reply: Some(ok_bytes()),
            })
            &&& num > 58 ==> r == (ResponseView { effect: EffectView::Nothing, reply: Some(error_bytes()) })
        }),
{
    lemma_reply_texts();
}

/// What `p<num>` answers, for every register number: r0..r15 and the CPSR
/// (25) as they are; the registers the target does not hold read as zero,
/// eight `0`s for 16..24 (the FPA registers) and 58, sixteen for the 64-bit
/// 26..57; a number above 58 is refused with `E00`. Reading changes
/// nothing.
pub proof fn lemma_read_register_answers(architecture: ArmArchitecture, num: usize, regs: CpuRegisters)
    ensures
        ({
            let r = response_of(architecture, CommandView::ReadRegister { num }, regs);
            &&& r.effect == EffectView::Nothing
            &&& num < 16 ==> r.reply == Some(register_hex(regs.regs@[num as int]))
            &&& num == 25 ==> r.reply == Some(register_hex(regs.cpsr))
            &&& (16 <= num <= 24 || num == 58) ==> r.reply == Some(zero_digits(8))
            &&& 26 <= num <= 57 ==> r.reply == Some(zero_digits(16))
            &&& num > 58 ==> r.reply == Some(error_bytes())
        }),
{
    lemma_reply_texts();
}

/// `c<addr>` and `s<addr>` resume at the address given: for any text that
/// reads as a 32-bit hex number `a`, continuing (or stepping) with it is a
/// request to branch to `a` and then run (or step); without an address the
/// target resumes where it stopped.
pub proof fn lemma_resume_at_address(architecture: ArmArchitecture, text: Seq<u8>, regs: CpuRegisters)
    ensures
        hex_u32(text) is Some ==> {
            &&& command_of(seq![CMD_CONTINUE] + text) == Some(
                CommandView::Resume { step: false, address: hex_u32(text) },
            )
            &&& command_of(seq![CMD_STEP] + text) == Some(
                CommandView::Resume { step: true, address: hex_u32(text) },
            )
            &&& response_of(architecture, command_of(seq![CMD_CONTINUE] + text).unwrap(), regs) == (
            ResponseView {
                effect: EffectView::Resume { step: false, branch_to: hex_u32(text) },
                reply: None,
            })
            &&& response_of(architecture, command_of(seq![CMD_STEP] + text).unwrap(), regs) == (
            ResponseView {
                effect: EffectView::Resume { step: true, branch_to: hex_u32(text) },
                reply: None,
            })
        },
        command_of(seq![CMD_CONTINUE]) == Some(CommandView::Resume { step: false, address: None }),
        command_of(seq![CMD_STEP]) == Some(CommandView::Resume { step: true, address: None }),
{
    let c = seq![CMD_CONTINUE] + text;
    let st = seq![CMD_STEP] + text;
    assert(c.subrange(1, c.len() as int) =~= text);
    assert(st.subrange(1, st.len() as int) =~= text);
    assert(seq![CMD_CONTINUE].subrange(1, 1) =~= Seq::<u8>::empty());
    assert(seq![CMD_STEP].subrange(1, 1) =~= Seq::<u8>::empty());
    if hex_u32(text) is Some {
        assert(text.len() > 0);
    }
}


/// `m<addr>,<length>` asks to read `length` bytes at `addr`: the target
/// does the read and answers (with [`memory_read_reply`]), the server sends
/// nothing itself.
pub proof fn lemma_read_memory_request(
    addr_text: Seq<u8>,
    length_text: Seq<u8>,
)
    requires
        hex_u32(addr_text) is Some,
        hex_u32(length_text) is Some,
    ensures
        command_of(seq![CMD_READ_MEMORY] + (addr_text + seq![44u8] + length_text)) == Some(
            CommandView::ReadMemory { addr: hex_u32(addr_text).unwrap(), length: hex_u32(length_text).unwrap() },
        ),
{
    let header = addr_text + seq![44u8] + length_text;
    assert(forall|i: int| 0 <= i < addr_text.len() ==> addr_text[i] != 44u8) by {
        lemma_number_text_bytes(addr_text);
    }
    lemma_split_once_at(addr_text, 44u8, length_text);
    let read = seq![CMD_READ_MEMORY] + header;
    assert(read.subrange(1, read.len() as int) =~= header);
    lemma_dispatch(read);
}

/// `M<addr>,<length>:<data>` asks to write the bytes that `data` (two hex
/// characters per byte) stands for at `addr`: the target does the write
/// and answers (with [`memory_write_reply`]); data of another length than
/// twice `length` is refused.
pub proof fn lemma_write_memory_request(
    addr_text: Seq<u8>,
    length_text: Seq<u8>,
    data: Seq<u8>,
)
    requires
        hex_u32(addr_text) is Some,
        hex_u32(length_text) is Some,
    ensures
        data.len() == 2 * hex_u32(length_text).unwrap() ==> command_of(
            seq![CMD_WRITE_MEMORY] + ((addr_text + seq![44u8] + length_text) + seq![58u8] + data),
        ) == Some(
            CommandView::WriteMemory {
                addr: hex_u32(addr_text).unwrap(),
                length: hex_u32(length_text).unwrap(),
                data,
            },
        ),
        data.len() != 2 * hex_u32(length_text).unwrap() ==> command_of(
            seq![CMD_WRITE_MEMORY] + ((addr_text + seq![44u8] + length_text) + seq![58u8] + data),
        ) is None,
{
    let header = addr_text + seq![44u8] + length_text;
    assert(forall|i: int| 0 <= i < addr_text.len() ==> addr_text[i] != 44u8 && addr_text[i] != 58u8) by {
        lemma_number_text_bytes(addr_text);
    }
    assert(forall|i: int| 0 <= i < length_text.len() ==> length_text[i] != 58u8) by {
        lemma_number_text_bytes(length_text);
    }
    lemma_split_once_at(addr_text, 44u8, length_text);
    lemma_no_colon(addr_text, length_text);
    lemma_split_once_at(header, 58u8, data);
    let body = header + seq![58u8] + data;
    let write = seq![CMD_WRITE_MEMORY] + body;
    assert(write.subrange(1, write.len() as int) =~= body);
    lemma_dispatch(write);
}

/// Memory requests are left to the target: reading or writing memory has
/// the target do the access and answer; the server sends nothing itself.
pub proof fn lemma_memory_responses(
    architecture: ArmArchitecture,
    addr: u32,
    length: u32,
    data: Seq<u8>,
    regs: CpuRegisters,
)
    ensures
        response_of(architecture, CommandView::ReadMemory { addr, length }, regs) == (ResponseView {
            effect: EffectView::ReadMemory { addr, length },
            reply: None,
        }),
        response_of(architecture, CommandView::WriteMemory { addr, length, data }, regs) == (
        ResponseView { effect: EffectView::WriteMemory { addr, length, data }, reply: None }),
{
}

/// Number texts joined by a comma hold no colon.
proof fn lemma_no_colon(a: Seq<u8>, b: Seq<u8>)
    requires
        forall|i: int| 0 <= i < a.len() ==> #[trigger] a[i] != 58u8,
        forall|i: int| 0 <= i < b.len() ==> #[trigger] b[i] != 58u8,
    ensures
        forall|i: int| 0 <= i < (a + seq![44u8] + b).len() ==> (a + seq![44u8] + b)[i] != 58u8,
{
    let h = a + seq![44u8] + b;
    assert forall|i: int| 0 <= i < h.len() implies h[i] != 58u8 by {
        if i < a.len() {
            assert(h[i] == a[i]);
        } else if i > a.len() {
            assert(h[i] == b[i - a.len() - 1]);
        }
    }
}

/// The request of a packet is chosen by its first byte, from the rest.
proof fn lemma_dispatch(p: Seq<u8>)
    requires
        p.len() > 0,
    ensures
        p[0] == CMD_READ_MEMORY ==> command_of(p) == read_memory_of(p.subrange(1, p.len() as int)),
        p[0] == CMD_WRITE_MEMORY ==> command_of(p) == write_memory_of(p.subrange(1, p.len() as int)),
{
}

/// `C<signal>;<addr>` and `S<signal>;<addr>` resume (or step) at the
/// address given, the signal being ignored.
pub proof fn lemma_resume_with_signal(signal: Seq<u8>, text: Seq<u8>)
    requires
        forall|i: int| 0 <= i < signal.len() ==> signal[i] != 59u8,
        hex_u32(text) is Some,
    ensures
        command_of(seq![CMD_CONTINUE_SIGNAL] + signal + seq![59u8] + text) == Some(
            CommandView::Resume { step: false, address: hex_u32(text) },
        ),
        command_of(seq![CMD_STEP_SIGNAL] + signal + seq![59u8] + text) == Some(
            CommandView::Resume { step: true, address: hex_u32(text) },
        ),
{
    lemma_number_text_bytes(text);
    lemma_split_once_at(signal, 59u8, text);
    let c = seq![CMD_CONTINUE_SIGNAL] + signal + seq![59u8] + text;
    let st = seq![CMD_STEP_SIGNAL] + signal + seq![59u8] + text;
    assert(c.subrange(1, c.len() as int) =~= signal + seq![59u8] + text);
    assert(st.subrange(1, st.len() as int) =~= signal + seq![59u8] + text);
}

/// Requests that need no argument, whatever follows their letter: `?` is
/// answered `S00` (stopped, no signal), `g` with r0..r15 in GDB's
/// notation, eight characters each in register order, and `k` stops
/// talking to the debugger without an answer. None of them changes the
/// target, but for `k`.
pub proof fn lemma_plain_requests(architecture: ArmArchitecture, rest: Seq<u8>, regs: CpuRegisters)
    ensures
        command_of(seq![CMD_HALT_REASON] + rest) == Some(CommandView::QueryHaltReason),
        response_of(architecture, CommandView::QueryHaltReason, regs) == (ResponseView {
            effect: EffectView::Nothing,
            reply: Some(seq![83u8, 48u8, 48u8]),
        }),
        command_of(seq![CMD_READ_REGISTERS] + rest) == Some(CommandView::ReadRegisters),
        response_of(architecture, CommandView::ReadRegisters, regs).effect == EffectView::Nothing,
        response_of(architecture, CommandView::ReadRegisters, regs).reply.unwrap().len() == 8
            * GENERAL_REGISTER_COUNT,
        forall|i: int|
            0 <= i < GENERAL_REGISTER_COUNT ==> #[trigger] response_of(
                architecture,
                CommandView::ReadRegisters,
                regs,
            ).reply.unwrap().subrange(8 * i, 8 * i + 8) == register_hex(regs.regs@[i]),
        command_of(seq![CMD_KILL] + rest) == Some(CommandView::Kill),
        response_of(architecture, CommandView::Kill, regs) == (ResponseView {
            effect: EffectView::Kill,
            reply: None,
        }),
{
    reveal_strlit("S00");
    assert(ascii("S00"@) =~= seq![83u8, 48u8, 48u8]);
    lemma_registers_hex_layout(regs.regs@);
}

/// What is sent when the target halts: nothing at the very first halt
/// without a fault, `S05` (SIGTRAP) at a later halt, an undefined
/// instruction or a breakpoint, `S0b` (SIGSEGV) after a memory error.
pub proof fn lemma_stop_packets(first_halt: bool, stop_reason: Option<StopReason>)
    ensures
        stop_reason is None && first_halt ==> stop_packet(first_halt, stop_reason) is None,
        stop_reason is None && !first_halt ==> stop_packet(first_halt, stop_reason) == Some(
            seq![83u8, 48u8, 53u8],
        ),
        stop_reason == Some(StopReason::UndefinedInstruction) || stop_reason == Some(
            StopReason::Breakpoint,
        ) ==> stop_packet(first_halt, stop_reason) == Some(seq![83u8, 48u8, 53u8]),
        stop_reason == Some(StopReason::MemoryError) ==> stop_packet(first_halt, stop_reason) == Some(
            seq![83u8, 48u8, 98u8],
        ),
{
    reveal_strlit("S05");
    reveal_strlit("S0b");
    assert(ascii("S05"@) =~= seq![83u8, 48u8, 53u8]);
    assert(ascii("S0b"@) =~= seq![83u8, 48u8, 98u8]);
}


/// A read of the target description answers the part of it that starts at
/// `offset`: the next `length` bytes, or as many as remain, after `l` when
/// the request reaches past the end (nothing more to read) and `m`
/// otherwise; another annex, or an offset past the end, is refused.
pub proof fn lemma_features_chunk(xml: Seq<u8>, target_xml: bool, offset: usize, length: usize)
    ensures
        target_xml && offset <= xml.len() ==> {
            let r = features_reply(xml, target_xml, offset, length);
            let n = if offset + length <= xml.len() { length as int } else { xml.len() - offset };
            &&& r.len() == 1 + n
            &&& r.subrange(1, r.len() as int) == xml.subrange(offset as int, offset + n)
            &&& r[0] == (if offset + length > xml.len() { 108u8 } else { 109u8 })
        },
        !(target_xml && offset <= xml.len()) ==> features_reply(xml, target_xml, offset, length)
            == error_bytes(),
{
    lemma_reply_texts();
    if target_xml && offset <= xml.len() {
        let r = features_reply(xml, target_xml, offset, length);
        let rest = xml.subrange(offset as int, xml.len() as int);
        let n = if offset + length <= xml.len() { length as int } else { xml.len() - offset };
        assert(r.subrange(1, r.len() as int) =~= xml.subrange(offset as int, offset + n));
    }
}

} // verus!
