//! Messages between tasks: endpoints with bounded queues, capabilities for them, tokens
//! for one reply each, and loans of pages.
use vstd::prelude::*;

pub mod laws;
pub mod self_check;
pub use self::self_check::self_test;

verus! {

pub const MAX_ENDPOINTS: usize = 8;

pub const MAX_CAPABILITIES: usize = 64;

pub const MAX_REPLY_TOKENS: usize = 32;

pub const QUEUE_DEPTH: usize = 8;

pub const MAX_PAYLOAD_BYTES: usize = 192;

pub const MAX_PAGE_LOANS: usize = 16;

pub const MAX_LOAN_PAGES: usize = 8;

pub const IPC_ABI_VERSION: u64 = 2;

pub const SYS_IPC_ABI_INFO: u64 = 0x1100;

pub const SYS_ENDPOINT_CREATE: u64 = 0x1101;

pub const SYS_SERVICE_LOOKUP: u64 = 0x1102;

pub const SYS_IPC_CALL_SEND: u64 = 0x1103;

pub const SYS_IPC_RECEIVE: u64 = 0x1104;

pub const SYS_IPC_REPLY: u64 = 0x1105;

pub const SYS_IPC_LOAN_SEND: u64 = 0x1106;

pub const SYS_IPC_LOAN_MAP: u64 = 0x1107;

pub const SERVICE_VFS: u32 = 1;

#[derive(Clone, Copy, Debug, PartialEq, Eq, Structural)]
pub enum RequestKind {
    ConsoleWrite,
    ConsolePrompt,
    VfsReadFile,
    VfsWriteFile,
    VfsListDir,
    ProcExec,
    KernelListServices,
    KernelListTasks,
    NetStatus,
    NetPing,
    ProcFork,
    ProcClone,
    ProcExit,
    ProcWait4,
    ProcSignal,
    ProcFutex,
    ProcSched,
    ProcAffinity,
    ProcWaitQueue,
    ProcTimer,
}

impl RequestKind {
    /// The number of a kind of request.
    pub open spec fn spec_opcode(self) -> u16 {
        match self {
            RequestKind::ConsoleWrite => 1,
            RequestKind::ConsolePrompt => 2,
            RequestKind::VfsReadFile => 3,
            RequestKind::VfsWriteFile => 4,
            RequestKind::VfsListDir => 5,
            RequestKind::ProcExec => 6,
            RequestKind::KernelListServices => 7,
            RequestKind::KernelListTasks => 8,
            RequestKind::NetStatus => 9,
            RequestKind::NetPing => 10,
            RequestKind::ProcFork => 11,
            RequestKind::ProcClone => 12,
            RequestKind::ProcExit => 13,
            RequestKind::ProcWait4 => 14,
            RequestKind::ProcSignal => 15,
            RequestKind::ProcFutex => 16,
            RequestKind::ProcSched => 17,
            RequestKind::ProcAffinity => 18,
            RequestKind::ProcWaitQueue => 19,
            RequestKind::ProcTimer => 20,
        }
    }

    /// The name of a kind of request.
    pub open spec fn spec_name(self) -> Seq<char> {
        match self {
            RequestKind::ConsoleWrite => "write"@,
            RequestKind::ConsolePrompt => "read"@,
            RequestKind::VfsReadFile => "pread64"@,
            RequestKind::VfsWriteFile => "pwrite64"@,
            RequestKind::VfsListDir => "getdents64"@,
            RequestKind::ProcExec => "execve"@,
            RequestKind::KernelListServices => "service_list"@,
            RequestKind::KernelListTasks => "task_list"@,
            RequestKind::NetStatus => "rtnetlink_getlink"@,
            RequestKind::NetPing => "icmp_echo"@,
            RequestKind::ProcFork => "fork"@,
            RequestKind::ProcClone => "clone"@,
            RequestKind::ProcExit => "exit"@,
            RequestKind::ProcWait4 => "wait4"@,
            RequestKind::ProcSignal => "rt_sigqueueinfo"@,
            RequestKind::ProcFutex => "futex"@,
            RequestKind::ProcSched => "sched_setscheduler"@,
            RequestKind::ProcAffinity => "sched_setaffinity"@,
            RequestKind::ProcWaitQueue => "wait_queue"@,
            RequestKind::ProcTimer => "timer_settime"@,
        }
    }

    pub fn from_opcode(opcode: u16) -> (kind: Option<Self>)
        ensures
            kind is Some <==> 1 <= opcode <= 20,
            kind is Some ==> kind.unwrap().spec_opcode() == opcode,
    {
        match opcode {
            1 => Some(RequestKind::ConsoleWrite),
            2 => Some(RequestKind::ConsolePrompt),
            3 => Some(RequestKind::VfsReadFile),
            4 => Some(RequestKind::VfsWriteFile),
            5 => Some(RequestKind::VfsListDir),
            6 => Some(RequestKind::ProcExec),
            7 => Some(RequestKind::KernelListServices),
            8 => Some(RequestKind::KernelListTasks),
            9 => Some(RequestKind::NetStatus),
            10 => Some(RequestKind::NetPing),
            11 => Some(RequestKind::ProcFork),
            12 => Some(RequestKind::ProcClone),
            13 => Some(RequestKind::ProcExit),
            14 => Some(RequestKind::ProcWait4),
            15 => Some(RequestKind::ProcSignal),
            16 => Some(RequestKind::ProcFutex),
            17 => Some(RequestKind::ProcSched),
            18 => Some(RequestKind::ProcAffinity),
            19 => Some(RequestKind::ProcWaitQueue),
            20 => Some(RequestKind::ProcTimer),
            _ => None,
        }
    }

    pub fn opcode(self) -> (opcode: u16)
        ensures
            opcode == self.spec_opcode(),
    {
        match self {
            RequestKind::ConsoleWrite => 1,
            RequestKind::ConsolePrompt => 2,
            RequestKind::VfsReadFile => 3,
            RequestKind::VfsWriteFile => 4,
            RequestKind::VfsListDir => 5,
            RequestKind::ProcExec => 6,
            RequestKind::KernelListServices => 7,
            RequestKind::KernelListTasks => 8,
            RequestKind::NetStatus => 9,
            RequestKind::NetPing => 10,
            RequestKind::ProcFork => 11,
            RequestKind::ProcClone => 12,
            RequestKind::ProcExit => 13,
            RequestKind::ProcWait4 => 14,
            RequestKind::ProcSignal => 15,
            RequestKind::ProcFutex => 16,
            RequestKind::ProcSched => 17,
            RequestKind::ProcAffinity => 18,
            RequestKind::ProcWaitQueue => 19,
            RequestKind::ProcTimer => 20,
        }
    }

    pub fn as_str(self) -> (name: &'static str)
        ensures
            name@ == self.spec_name(),
    {
        match self {
            RequestKind::ConsoleWrite => "write",
            RequestKind::ConsolePrompt => "read",
            RequestKind::VfsReadFile => "pread64",
            RequestKind::VfsWriteFile => "pwrite64",
            RequestKind::VfsListDir => "getdents64",
            RequestKind::ProcExec => "execve",
            RequestKind::KernelListServices => "service_list",
            RequestKind::KernelListTasks => "task_list",
            RequestKind::NetStatus => "rtnetlink_getlink",
            RequestKind::NetPing => "icmp_echo",
            RequestKind::ProcFork => "fork",
            RequestKind::ProcClone => "clone",
            RequestKind::ProcExit => "exit",
            RequestKind::ProcWait4 => "wait4",
            RequestKind::ProcSignal => "rt_sigqueueinfo",
            RequestKind::ProcFutex => "futex",
            RequestKind::ProcSched => "sched_setscheduler",
            RequestKind::ProcAffinity => "sched_setaffinity",
            RequestKind::ProcWaitQueue => "wait_queue",
            RequestKind::ProcTimer => "timer_settime",
        }
    }
}

#[derive(Clone, Copy, Debug, PartialEq, Eq, Structural)]
pub struct EndpointId(pub u64);

impl EndpointId {
    pub fn from_raw(raw: u64) -> (id: Self)
        ensures
            id == EndpointId(raw),
    {
        EndpointId(raw)
    }

    pub fn raw(self) -> (raw: u64)
        ensures
            raw == self.0,
    {
        self.0
    }
}

#[derive(Clone, Copy, Debug, PartialEq, Eq, Structural)]
pub struct CapabilityId(pub u64);

impl CapabilityId {
    pub fn from_raw(raw: u64) -> (id: Self)
        ensures
            id == CapabilityId(raw),
    {
        CapabilityId(raw)
    }

    pub fn raw(self) -> (raw: u64)
        ensures
            raw == self.0,
    {
        self.0
    }
}

#[derive(Clone, Copy, Debug, PartialEq, Eq, Structural)]
pub struct ReplyTokenId(pub u64);

impl ReplyTokenId {
    /// The token of a message that wants no reply.
    pub fn none() -> (id: Self)
        ensures
            id == ReplyTokenId(0),
    {
        ReplyTokenId(0)
    }

    pub fn from_raw(raw: u64) -> (id: Self)
        ensures
            id == ReplyTokenId(raw),
    {
        ReplyTokenId(raw)
    }

    pub fn raw(self) -> (raw: u64)
        ensures
            raw == self.0,
    {
        self.0
    }
}

#[derive(Clone, Copy, Debug, PartialEq, Eq, Structural)]
pub struct PageLoanId(pub u64);

impl PageLoanId {
    /// The loan of a message that carries its payload.
    pub fn none() -> (id: Self)
        ensures
            id == PageLoanId(0),
    {
        PageLoanId(0)
    }

    pub fn from_raw(raw: u64) -> (id: Self)
        ensures
            id == PageLoanId(raw),
    {
        PageLoanId(raw)
    }

    pub fn raw(self) -> (raw: u64)
        ensures
            raw == self.0,
    {
        self.0
    }
}

/// What a capability allows: to send, to receive, to manage, or all of it.
#[derive(Clone, Copy, Debug, PartialEq, Eq, Structural)]
pub enum IpcRights {
    Send,
    Receive,
    Manage,
    Owner,
}

impl IpcRights {
    pub const SEND: Self = Self::Send;

    pub const RECEIVE: Self = Self::Receive;

    pub const MANAGE: Self = Self::Manage;

    pub const OWNER: Self = Self::Owner;

    pub open spec fn spec_contains(self, required: Self) -> bool {
        self == IpcRights::Owner || self == required
    }

    pub fn contains(self, required: Self) -> (contained: bool)
        ensures
            contained == self.spec_contains(required),
    {
        self == IpcRights::Owner || self == required
    }
}

#[derive(Clone, Copy, Debug, PartialEq, Eq, Structural)]
pub enum IpcError {
    InvalidOwner,
    EndpointTableFull,
    CapabilityTableFull,
    ReplyTokenTableFull,
    InvalidEndpoint,
    InvalidCapability,
    InvalidReplyToken,
    PermissionDenied,
    InvalidRights,
    PayloadTooLarge,
    QueueFull,
    QueueEmpty,
    MessageIdExhausted,
    ProtocolViolation,
    PageLoanTableFull,
    InvalidPageLoan,
    InvalidPageRange,
}

/// The text that describes an error.
pub open spec fn error_text(error: IpcError) -> Seq<char> {
    match error {
        IpcError::InvalidOwner => "ipc: owner PID must be nonzero"@,
        IpcError::EndpointTableFull => "ipc: endpoint table is full"@,
        IpcError::CapabilityTableFull => "ipc: capability table is full"@,
        IpcError::ReplyTokenTableFull => "ipc: reply token table is full"@,
        IpcError::InvalidEndpoint => "ipc: invalid or stale endpoint"@,
        IpcError::InvalidCapability => "ipc: invalid or stale capability"@,
        IpcError::InvalidReplyToken => "ipc: invalid, stale, or consumed reply token"@,
        IpcError::PermissionDenied => "ipc: capability permission denied"@,
        IpcError::InvalidRights => "ipc: invalid capability rights"@,
        IpcError::PayloadTooLarge => "ipc: message payload is too large"@,
        IpcError::QueueFull => "ipc: endpoint queue is full"@,
        IpcError::QueueEmpty => "ipc: endpoint queue is empty"@,
        IpcError::MessageIdExhausted => "ipc: message id space exhausted"@,
        IpcError::ProtocolViolation => "ipc: message protocol violation"@,
        IpcError::PageLoanTableFull => "ipc: page loan table is full"@,
        IpcError::InvalidPageLoan => "ipc: invalid, stale, or unauthorized page loan"@,
        IpcError::InvalidPageRange => "ipc: invalid page loan range"@,
    }
}

impl IpcError {
    pub fn message(self) -> (text: &'static str)
        ensures
            text@ == error_text(self),
    {
        match self {
            IpcError::InvalidOwner => "ipc: owner PID must be nonzero",
            IpcError::EndpointTableFull => "ipc: endpoint table is full",
            IpcError::CapabilityTableFull => "ipc: capability table is full",
            IpcError::ReplyTokenTableFull => "ipc: reply token table is full",
            IpcError::InvalidEndpoint => "ipc: invalid or stale endpoint",
            IpcError::InvalidCapability => "ipc: invalid or stale capability",
            IpcError::InvalidReplyToken => "ipc: invalid, stale, or consumed reply token",
            IpcError::PermissionDenied => "ipc: capability permission denied",
            IpcError::InvalidRights => "ipc: invalid capability rights",
            IpcError::PayloadTooLarge => "ipc: message payload is too large",
            IpcError::QueueFull => "ipc: endpoint queue is full",
            IpcError::QueueEmpty => "ipc: endpoint queue is empty",
            IpcError::MessageIdExhausted => "ipc: message id space exhausted",
            IpcError::ProtocolViolation => "ipc: message protocol violation",
            IpcError::PageLoanTableFull => "ipc: page loan table is full",
            IpcError::InvalidPageLoan => "ipc: invalid, stale, or unauthorized page loan",
            IpcError::InvalidPageRange => "ipc: invalid page loan range",
        }
    }
}

/// What a message says: its opcode and either its bytes or the loan of pages that holds
/// them.
#[verifier::ext_equal]
pub struct MessageView {
    pub opcode: u16,
    pub loan: PageLoanId,
    pub length: nat,
    pub payload: Seq<u8>,
}

#[derive(Clone, Copy, Debug, PartialEq, Eq)]
pub struct Message {
    opcode: u16,
    length: u16,
    loan: PageLoanId,
    payload: [u8; 192],
}

impl View for Message {
    type V = MessageView;

    closed spec fn view(&self) -> MessageView {
        MessageView {
            opcode: self.opcode,
            loan: self.loan,
            length: self.length as nat,
            payload: if self.loan == PageLoanId(0) {
                self.payload@.subrange(0, self.length as int)
            } else {
                Seq::empty()
            },
        }
    }
}

impl Message {
    #[verifier::type_invariant]
    spec fn fits(self) -> bool {
        self.loan == PageLoanId(0) ==> self.length <= 192
    }

    /// The message that carries bytes; what lies behind them is zero.
    pub closed spec fn spec_new(kind: RequestKind, payload: Seq<u8>) -> Self {
        Message {
            opcode: kind.spec_opcode(),
            length: payload.len() as u16,
            loan: PageLoanId(0),
            payload: padded(payload, payload.len()),
        }
    }

    pub fn new(kind: RequestKind, payload: &[u8]) -> (message: Result<Self, IpcError>)
        ensures
            payload@.len() <= MAX_PAYLOAD_BYTES ==> message == Ok::<Message, IpcError>(
                Message::spec_new(kind, payload@),
            ),
            payload@.len() > MAX_PAYLOAD_BYTES ==> message == Err::<Message, IpcError>(
                IpcError::PayloadTooLarge,
            ),
            payload@.len() <= MAX_PAYLOAD_BYTES ==> message is Ok && message->Ok_0@ == (
            MessageView {
                opcode: kind.spec_opcode(),
                loan: PageLoanId(0),
                length: payload@.len(),
                payload: payload@,
            }),
    {
        if payload.len() > MAX_PAYLOAD_BYTES {
            return Err(IpcError::PayloadTooLarge);
        }
        let mut bytes: [u8; 192] = [0; 192];
        let mut index: usize = 0;
        while index < payload.len()
            invariant
                index <= payload.len() <= 192,
                forall|i: int| 0 <= i < index ==> #[trigger] bytes@[i] == payload@[i],
                forall|i: int| index <= i < 192 ==> #[trigger] bytes@[i] == 0,
            decreases payload.len() - index,
        {
            bytes[index] = payload[index];
            index += 1;
        }
        let message = Message {
            opcode: kind.opcode(),
            length: payload.len() as u16,
            loan: PageLoanId(0),
            payload: bytes,
        };
        assert(message@.payload =~= payload@);
        proof {
            lemma_padded(payload@, payload@.len());
        }
        assert(message.payload =~= Message::spec_new(kind, payload@).payload);
        Ok(message)
    }

    pub fn opcode(&self) -> (opcode: u16)
        ensures
            opcode == self@.opcode,
    {
        self.opcode
    }

    pub fn payload(&self) -> (payload: &[u8])
        ensures
            payload@ == self@.payload,
    {
        proof {
            use_type_invariant(self);
        }
        let end: usize = if self.loan == PageLoanId(0) {
            self.length as usize
        } else {
            0
        };
        let payload = vstd::slice::slice_subrange(self.payload.as_slice(), 0, end);
        assert(payload@ =~= self@.payload);
        payload
    }

    pub fn page_loan(kind: RequestKind, loan: PageLoanId, length: usize) -> (message: Result<
        Self,
        IpcError,
    >)
        ensures
            loan == PageLoanId(0) || length == 0 || length > 32768 ==> message == Err::<
                Message,
                IpcError,
            >(IpcError::InvalidPageRange),
            loan != PageLoanId(0) && 1 <= length <= 32768 ==> message is Ok && message->Ok_0@ == (
            MessageView {
                opcode: kind.spec_opcode(),
                loan,
                length: length as nat,
                payload: Seq::empty(),
            }),
    {
        if loan == PageLoanId(0) || length == 0 || length > MAX_LOAN_PAGES * 4096 {
            return Err(IpcError::InvalidPageRange);
        }
        Ok(Message { opcode: kind.opcode(), length: length as u16, loan, payload: [0; 192] })
    }

    pub fn loan(&self) -> (loan: PageLoanId)
        ensures
            loan == self@.loan,
    {
        self.loan
    }

    pub fn transferred_len(&self) -> (length: usize)
        ensures
            length == self@.length,
    {
        self.length as usize
    }
}

/// The first `count` bytes, and zeros behind them.
spec fn padded(bytes: Seq<u8>, count: nat) -> [u8; 192]
    decreases count,
{
    if count == 0 {
        vstd::array::spec_array_fill_for_copy_type::<u8, 192>(0)
    } else {
        vstd::array::spec_array_update(
            padded(bytes, (count - 1) as nat),
            count - 1,
            bytes[count - 1],
        )
    }
}

proof fn lemma_padded(bytes: Seq<u8>, count: nat)
    requires
        count <= bytes.len(),
        count <= 192,
    ensures
        forall|i: int|
            0 <= i < 192 ==> #[trigger] padded(bytes, count)@[i] == (if i < count {
                bytes[i]
            } else {
                0
            }),
    decreases count,
{
    if count > 0 {
        lemma_padded(bytes, (count - 1) as nat);
        let before = padded(bytes, (count - 1) as nat);
        let after = vstd::array::spec_array_update(before, count - 1, bytes[count - 1]);
        assert(after@ == before@.update(count - 1, bytes[count - 1]));
    } else {
        let empty = vstd::array::spec_array_fill_for_copy_type::<u8, 192>(0);
        assert forall|i: int| 0 <= i < 192 implies #[trigger] padded(bytes, count)@[i] == 0 by {
            assert(empty@[i] == 0);
        }
    }
}

/// What a message says that carries bytes.
pub proof fn lemma_spec_new(kind: RequestKind, payload: Seq<u8>)
    requires
        payload.len() <= MAX_PAYLOAD_BYTES,
    ensures
        Message::spec_new(kind, payload)@ == (MessageView {
            opcode: kind.spec_opcode(),
            loan: PageLoanId(0),
            length: payload.len(),
            payload,
        }),
{
    lemma_padded(payload, payload.len());
    let message = Message::spec_new(kind, payload);
    assert(message@.payload =~= payload);
}

/// A slot of a table of handles: how often it was used, and what it holds. A handle names
/// the slot and the generation, so it means nothing after the slot was emptied.
#[derive(Clone, Copy)]
pub struct Slot<T> {
    pub generation: u32,
    pub entry: Option<T>,
}

/// The handle for a slot in a generation.
pub open spec fn encoded(index: int, generation: u32) -> u64 {
    (generation * 0x1_0000_0000 + index + 1) as u64
}

/// The slot and the generation that a handle names, in a table of so many slots.
pub open spec fn decoded(raw: u64, length: int) -> Option<(int, u32)> {
    let slot = raw as int % 0x1_0000_0000;
    let generation = raw as int / 0x1_0000_0000;
    if slot == 0 || generation == 0 || slot - 1 >= length {
        None
    } else {
        Some((slot - 1, generation as u32))
    }
}

/// What a handle stands for.
pub open spec fn held<T>(slots: Seq<Slot<T>>, raw: u64) -> Option<T> {
    match decoded(raw, slots.len() as int) {
        None => None,
        Some((index, generation)) => if slots[index].generation == generation {
            slots[index].entry
        } else {
            None
        },
    }
}

/// The first slot from `from` on that can be used, or the number of slots.
pub open spec fn usable_from<T>(slots: Seq<Slot<T>>, from: int) -> int
    decreases slots.len() - from,
{
    if from >= slots.len() || from < 0 {
        slots.len() as int
    } else if slots[from].entry is None && slots[from].generation != u32::MAX {
        from
    } else {
        usable_from(slots, from + 1)
    }
}

/// The generation in which a slot is used.
pub open spec fn active(current: u32) -> u32 {
    if current == 0 {
        1
    } else {
        current
    }
}

/// The slots with an entry in the first usable one.
pub open spec fn filled<T>(slots: Seq<Slot<T>>, entry: T) -> Seq<Slot<T>> {
    let at = usable_from(slots, 0);
    slots.update(at, Slot { generation: active(slots[at].generation), entry: Some(entry) })
}

/// A slot that was emptied.
pub open spec fn emptied<T>(slot: Slot<T>) -> Slot<T> {
    Slot {
        generation: if slot.generation == u32::MAX {
            u32::MAX
        } else {
            (slot.generation + 1) as u32
        },
        entry: None,
    }
}

/// The slots without the entries for which `gone` holds.
pub open spec fn swept<T>(slots: Seq<Slot<T>>, gone: spec_fn(T) -> bool) -> Seq<Slot<T>> {
    slots.map_values(
        |slot: Slot<T>|
            if slot.entry is Some && gone(slot.entry.unwrap()) {
                emptied(slot)
            } else {
                slot
            },
    )
}

/// A slot in use has a generation that comes before the last.
pub open spec fn slots_ok<T>(slots: Seq<Slot<T>>) -> bool {
    forall|i: int|
        0 <= i < slots.len() && (#[trigger] slots[i]).entry is Some ==> 1 <= slots[i].generation
            < u32::MAX
}

fn encode_handle(index: usize, generation: u32) -> (raw: u64)
    requires
        index < 0xffff_ffff,
    ensures
        raw == encoded(index as int, generation),
{
    generation as u64 * 0x1_0000_0000 + index as u64 + 1
}

fn decode_handle(raw: u64, length: usize) -> (handle: Option<(usize, u32)>)
    ensures
        handle is None <==> decoded(raw, length as int) is None,
        handle is Some ==> decoded(raw, length as int) == Some(
            (handle.unwrap().0 as int, handle.unwrap().1),
        ) && handle.unwrap().0 < length,
{
    let slot: u64 = raw % 0x1_0000_0000;
    let generation: u64 = raw / 0x1_0000_0000;
    if slot == 0 || generation == 0 {
        return None;
    }
    if slot - 1 >= length as u64 {
        return None;
    }
    Some(((slot - 1) as usize, generation as u32))
}

fn next_generation(current: u32) -> (next: u32)
    ensures
        next == (if current == u32::MAX {
            u32::MAX
        } else {
            (current + 1) as u32
        }),
{
    current.saturating_add(1)
}

fn active_generation(current: u32) -> (generation: u32)
    ensures
        generation == active(current),
{
    if current == 0 {
        1
    } else {
        current
    }
}

/// The first slot that can be used, or the number of slots.
fn usable_slot<T: Copy>(slots: &[Slot<T>]) -> (index: usize)
    ensures
        index == usable_from(slots@, 0),
        index <= slots@.len(),
{
    let mut index: usize = 0;
    while index < slots.len()
        invariant
            index <= slots.len(),
            usable_from(slots@, 0) == usable_from(slots@, index as int),
        decreases slots.len() - index,
    {
        if slots[index].entry.is_none() && slots[index].generation != u32::MAX {
            return index;
        }
        index += 1;
    }
    index
}

#[derive(Clone, Copy, Debug, PartialEq, Eq)]
pub struct PageLoan {
    pub owner: u32,
    pub recipient: u32,
    pub length: u16,
    pub pages: u8,
    pub frames: [u64; 8],
}

impl PageLoan {
    pub fn frame(&self, index: usize) -> (frame: Option<u64>)
        requires
            self.pages <= 8,
        ensures
            frame == (if index < self.pages {
                Some(self.frames@[index as int])
            } else {
                None
            }),
    {
        if index < self.pages as usize {
            Some(self.frames[index])
        } else {
            None
        }
    }
}

pub struct PageLoanTable {
    slots: [Slot<PageLoan>; 16],
}

impl View for PageLoanTable {
    type V = Seq<Slot<PageLoan>>;

    closed spec fn view(&self) -> Seq<Slot<PageLoan>> {
        self.slots@
    }
}

/// The slots of loans are in order, and a loan has at most as many pages as fit.
pub open spec fn loans_ok(slots: Seq<Slot<PageLoan>>) -> bool {
    &&& slots.len() == 16
    &&& slots_ok(slots)
    &&& forall|i: int|
        0 <= i < slots.len() && (#[trigger] slots[i]).entry is Some ==> 1
            <= slots[i].entry.unwrap().pages <= 8
}

/// Whether so many bytes can be lent in these pages: the pages are whole and just enough.
pub open spec fn lendable(
    owner: u32,
    recipient: u32,
    frames: Seq<u64>,
    pages: usize,
    length: usize,
) -> bool {
    &&& owner != 0
    &&& recipient != 0
    &&& 1 <= pages <= 8
    &&& (pages - 1) * 4096 < length <= pages * 4096
    &&& forall|i: int| 0 <= i < pages ==> #[trigger] frames[i] % 4096 == 0
}

/// Lending pages.
pub open spec fn lent(slots: Seq<Slot<PageLoan>>, loan: PageLoan) -> (
    Seq<Slot<PageLoan>>,
    Result<PageLoanId, IpcError>,
) {
    if !lendable(
        loan.owner,
        loan.recipient,
        loan.frames@,
        loan.pages as usize,
        loan.length as usize,
    ) {
        (slots, Err(IpcError::InvalidPageRange))
    } else {
        let at = usable_from(slots, 0);
        if at >= slots.len() {
            (slots, Err(IpcError::PageLoanTableFull))
        } else {
            (filled(slots, loan), Ok(PageLoanId(encoded(at, active(slots[at].generation)))))
        }
    }
}

/// The loan that a handle stands for, if it was made to `recipient`.
pub open spec fn borrowed(slots: Seq<Slot<PageLoan>>, recipient: u32, id: PageLoanId) -> Result<
    PageLoan,
    IpcError,
> {
    match held(slots, id.0) {
        None => Err(IpcError::InvalidPageLoan),
        Some(loan) => if loan.recipient == recipient {
            Ok(loan)
        } else {
            Err(IpcError::InvalidPageLoan)
        },
    }
}

/// The loans to a recipient, in the order of their slots.
pub open spec fn loans_to(slots: Seq<Slot<PageLoan>>, recipient: u32, count: nat) -> Seq<PageLoan>
    decreases count,
{
    if count == 0 {
        Seq::empty()
    } else {
        let before = loans_to(slots, recipient, (count - 1) as nat);
        match slots[count - 1].entry {
            Some(loan) => if loan.recipient == recipient {
                before.push(loan)
            } else {
                before
            },
            None => before,
        }
    }
}

impl PageLoanTable {
    /// The table keeps its rules.
    pub open spec fn wf(&self) -> bool {
        loans_ok(self@)
    }

    pub fn new() -> (table: Self)
        ensures
            table@ == Seq::new(16, |i: int| Slot { generation: 0, entry: None::<PageLoan> }),
            table.wf(),
    {
        let empty = Slot { generation: 0, entry: None };
        let table = PageLoanTable { slots: [empty; 16] };
        assert(table@ =~= Seq::new(16, |i: int| Slot { generation: 0, entry: None::<PageLoan> }));
        table
    }

    pub fn create(
        &mut self,
        owner: u32,
        recipient: u32,
        frames: [u64; 8],
        pages: usize,
        length: usize,
    ) -> (id: Result<PageLoanId, IpcError>)
        requires
            old(self).wf(),
        ensures
            final(self).wf(),
            !lendable(owner, recipient, frames@, pages, length) ==> id == Err::<
                PageLoanId,
                IpcError,
            >(IpcError::InvalidPageRange) && final(self)@ == old(self)@,
            lendable(owner, recipient, frames@, pages, length) ==> (final(self)@, id) == lent(
                old(self)@,
                PageLoan { owner, recipient, length: length as u16, pages: pages as u8, frames },
            ),
    {
        if owner == 0 || recipient == 0 || pages == 0 || pages > MAX_LOAN_PAGES || length == 0
            || length > pages * 4096 || length <= (pages - 1) * 4096 {
            return Err(IpcError::InvalidPageRange);
        }
        let mut page: usize = 0;
        while page < pages
            invariant
                page <= pages <= 8,
                forall|i: int| 0 <= i < page ==> #[trigger] frames@[i] % 4096 == 0,
                self == old(self),
                old(self).wf(),
            decreases pages - page,
        {
            if frames[page] % 4096 != 0 {
                return Err(IpcError::InvalidPageRange);
            }
            page += 1;
        }
        let at: usize = usable_slot(self.slots.as_slice());
        if at >= MAX_PAGE_LOANS {
            return Err(IpcError::PageLoanTableFull);
        }
        proof {
            lemma_usable(self@, 0);
        }
        let generation: u32 = active_generation(self.slots[at].generation);
        let loan = PageLoan {
            owner,
            recipient,
            length: length as u16,
            pages: pages as u8,
            frames,
        };
        self.slots[at] = Slot { generation, entry: Some(loan) };
        assert(self@ =~= filled(old(self)@, loan));
        Ok(PageLoanId(encode_handle(at, generation)))
    }

    pub fn get(&self, recipient: u32, id: PageLoanId) -> (loan: Result<PageLoan, IpcError>)
        requires
            self.wf(),
        ensures
            loan == borrowed(self@, recipient, id),
            loan is Ok ==> 1 <= loan->Ok_0.pages <= 8,
    {
        match decode_handle(id.raw(), MAX_PAGE_LOANS) {
            None => Err(IpcError::InvalidPageLoan),
            Some((index, generation)) => {
                let slot = self.slots[index];
                assert(slot == self@[index as int]);
                if slot.generation != generation {
                    return Err(IpcError::InvalidPageLoan);
                }
                match slot.entry {
                    None => Err(IpcError::InvalidPageLoan),
                    Some(loan) => if loan.recipient != recipient {
                        Err(IpcError::InvalidPageLoan)
                    } else {
                        Ok(loan)
                    },
                }
            },
        }
    }

    pub fn consume(&mut self, recipient: u32, id: PageLoanId) -> (loan: Result<PageLoan, IpcError>)
        requires
            old(self).wf(),
        ensures
            final(self).wf(),
            loan == borrowed(old(self)@, recipient, id),
            loan is Err ==> final(self)@ == old(self)@,
            loan is Ok ==> ({
                let index = decoded(id.0, 16).unwrap().0;
                final(self)@ == old(self)@.update(index, emptied(old(self)@[index]))
            }),
    {
        match self.get(recipient, id) {
            Err(error) => Err(error),
            Ok(loan) => {
                if let Some((index, _)) = decode_handle(id.raw(), MAX_PAGE_LOANS) {
                    let generation: u32 = next_generation(self.slots[index].generation);
                    self.slots[index] = Slot { generation, entry: None };
                    assert(self@ =~= old(self)@.update(
                        index as int,
                        emptied(old(self)@[index as int]),
                    ));
                }
                Ok(loan)
            },
        }
    }

    /// Ends the loans to `subject` and gives them back, in the order of their slots.
    pub fn drain_subject(&mut self, subject: u32) -> (released: Vec<PageLoan>)
        requires
            old(self).wf(),
        ensures
            final(self).wf(),
            final(self)@ == swept(old(self)@, |loan: PageLoan| loan.recipient == subject),
            released@ == loans_to(old(self)@, subject, 16),
    {
        let mut released: Vec<PageLoan> = Vec::new();
        let mut index: usize = 0;
        let ghost after = swept(old(self)@, |loan: PageLoan| loan.recipient == subject);
        while index < 16
            invariant
                index <= 16,
                old(self).wf(),
                after == swept(old(self)@, |loan: PageLoan| loan.recipient == subject),
                self@.len() == 16,
                forall|i: int| 0 <= i < index ==> #[trigger] self@[i] == after[i],
                forall|i: int| index <= i < 16 ==> #[trigger] self@[i] == old(self)@[i],
                released@ == loans_to(old(self)@, subject, index as nat),
            decreases 16 - index,
        {
            let slot = self.slots[index];
            assert(slot == self@[index as int]);
            if let Some(loan) = slot.entry {
                if loan.recipient == subject {
                    released.push(loan);
                    self.slots[index] = Slot {
                        generation: next_generation(slot.generation),
                        entry: None,
                    };
                }
            }
            index += 1;
        }
        assert(self@ =~= after);
        released
    }
}

pub proof fn lemma_usable<T>(slots: Seq<Slot<T>>, from: int)
    requires
        0 <= from <= slots.len(),
    ensures
        from <= usable_from(slots, from) <= slots.len(),
        usable_from(slots, from) < slots.len() ==> slots[usable_from(slots, from)].entry is None
            && slots[usable_from(slots, from)].generation != u32::MAX,
        forall|i: int|
            from <= i < usable_from(slots, from) ==> (#[trigger] slots[i]).entry is Some
                || slots[i].generation == u32::MAX,
    decreases slots.len() - from,
{
    if from < slots.len() && !(slots[from].entry is None && slots[from].generation != u32::MAX) {
        lemma_usable(slots, from + 1);
    }
}

#[derive(Clone, Copy, Debug, PartialEq, Eq)]
pub struct Envelope {
    pub id: u64,
    pub sender: u32,
    pub reply_token: ReplyTokenId,
    pub message: Message,
}

/// An endpoint: whose it is, the number of the next message, and the messages that wait,
/// the oldest first.
#[verifier::ext_equal]
pub struct EndpointView {
    pub owner: u32,
    pub next_message_id: u64,
    pub queue: Seq<Envelope>,
}

impl EndpointView {
    pub open spec fn empty(owner: u32) -> Self {
        EndpointView { owner, next_message_id: 1, queue: Seq::empty() }
    }

    /// No more messages wait than there is room for, and they wait in the order of their
    /// numbers, all of which come before the next.
    pub open spec fn wf(self) -> bool {
        &&& self.queue.len() <= 8
        &&& forall|a: int, b: int|
            0 <= a < b < self.queue.len() ==> (#[trigger] self.queue[a]).id < (
            #[trigger] self.queue[b]).id
        &&& forall|a: int|
            0 <= a < self.queue.len() ==> (#[trigger] self.queue[a]).id < self.next_message_id
    }

    /// The endpoint after a message arrived, and the number of that message.
    pub open spec fn pushed(self, sender: u32, reply_token: ReplyTokenId, message: Message) -> (
        Self,
        Result<u64, IpcError>,
    ) {
        if self.queue.len() == 8 {
            (self, Err(IpcError::QueueFull))
        } else if self.next_message_id == u64::MAX {
            (self, Err(IpcError::MessageIdExhausted))
        } else {
            let id = self.next_message_id;
            (
                EndpointView {
                    owner: self.owner,
                    next_message_id: (id + 1) as u64,
                    queue: self.queue.push(Envelope { id, sender, reply_token, message }),
                },
                Ok(id),
            )
        }
    }

    /// The endpoint after its oldest message was taken, and that message.
    pub open spec fn popped(self) -> (Self, Result<Envelope, IpcError>) {
        if self.queue.len() == 0 {
            (self, Err(IpcError::QueueEmpty))
        } else {
            (EndpointView { queue: self.queue.drop_first(), ..self }, Ok(self.queue[0]))
        }
    }
}

/// A ring of messages.
#[derive(Clone, Copy)]
struct Endpoint {
    owner: u32,
    next_message_id: u64,
    head: usize,
    length: usize,
    queue: [Option<Envelope>; 8],
}

impl Endpoint {
    spec fn wf(self) -> bool {
        &&& self.head < 8
        &&& self.length <= 8
        &&& forall|i: int|
            0 <= i < self.length ==> (#[trigger] self.queue@[(self.head + i) % 8]) is Some
    }

    spec fn model(self) -> EndpointView {
        EndpointView {
            owner: self.owner,
            next_message_id: self.next_message_id,
            queue: Seq::new(
                self.length as nat,
                |i: int| self.queue@[(self.head + i) % 8].unwrap(),
            ),
        }
    }

    fn new(owner: u32) -> (endpoint: Self)
        ensures
            endpoint.wf(),
            endpoint.model() == EndpointView::empty(owner),
    {
        let endpoint = Endpoint {
            owner,
            next_message_id: 1,
            head: 0,
            length: 0,
            queue: [None; 8],
        };
        assert(endpoint.model() =~= EndpointView::empty(owner));
        endpoint
    }

    fn push(&mut self, sender: u32, reply_token: ReplyTokenId, message: Message) -> (id: Result<
        u64,
        IpcError,
    >)
        requires
            old(self).wf(),
        ensures
            final(self).wf(),
            (final(self).model(), id) == old(self).model().pushed(sender, reply_token, message),
    {
        if self.length == 8 {
            return Err(IpcError::QueueFull);
        }
        let id: u64 = self.next_message_id;
        if id == u64::MAX {
            return Err(IpcError::MessageIdExhausted);
        }
        let tail: usize = (self.head + self.length) % 8;
        self.next_message_id = id + 1;
        self.queue[tail] = Some(Envelope { id, sender, reply_token, message });
        self.length = self.length + 1;
        proof {
            assert forall|i: int| 0 <= i < self.length implies (#[trigger] self.queue@[(self.head
                + i) % 8]) is Some by {
                if i < old(self).length {
                    assert(old(self).queue@[(old(self).head + i) % 8] is Some);
                }
            }
            assert(self.model() =~= old(self).model().pushed(sender, reply_token, message).0);
        }
        Ok(id)
    }

    fn pop(&mut self) -> (envelope: Result<Envelope, IpcError>)
        requires
            old(self).wf(),
        ensures
            final(self).wf(),
            (final(self).model(), envelope) == old(self).model().popped(),
    {
        if self.length == 0 {
            return Err(IpcError::QueueEmpty);
        }
        assert(self.queue@[(self.head + 0) % 8] is Some);
        match self.queue[self.head] {
            None => Err(IpcError::QueueEmpty),
            Some(envelope) => {
                self.queue[self.head] = None;
                self.head = (self.head + 1) % 8;
                self.length = self.length - 1;
                proof {
                    assert forall|i: int| 0 <= i < self.length implies (#[trigger] self.queue@[(
                    self.head + i) % 8]) is Some && self.queue@[(self.head + i) % 8] == old(
                        self,
                    ).queue@[(old(self).head + (i + 1)) % 8] by {
                        assert(old(self).queue@[(old(self).head + (i + 1)) % 8] is Some);
                        assert((self.head + i) % 8 == (old(self).head + (i + 1)) % 8);
                    }
                    assert(self.model() =~= old(self).model().popped().0);
                }
                Ok(envelope)
            },
        }
    }
}

#[derive(Clone, Copy)]
pub struct Capability {
    pub subject: u32,
    pub endpoint: EndpointId,
    pub rights: IpcRights,
}

#[derive(Clone, Copy, Debug, PartialEq, Eq, Structural)]
pub struct ReplyToken {
    pub requester: u32,
    pub replier: u32,
    pub reply_endpoint: EndpointId,
}

pub struct IpcTable {
    endpoints: [Slot<Endpoint>; 8],
    capabilities: [Slot<Capability>; 64],
    reply_tokens: [Slot<ReplyToken>; 32],
}

/// The state of the messages: the endpoints, the capabilities and the tokens.
#[verifier::ext_equal]
pub struct IpcView {
    pub endpoints: Seq<Slot<EndpointView>>,
    pub capabilities: Seq<Slot<Capability>>,
    pub reply_tokens: Seq<Slot<ReplyToken>>,
}

/// Unused slots.
pub open spec fn unused<T>(count: nat) -> Seq<Slot<T>> {
    Seq::new(count, |i: int| Slot { generation: 0, entry: None::<T> })
}

impl IpcView {
    pub open spec fn empty() -> Self {
        IpcView { endpoints: unused(8), capabilities: unused(64), reply_tokens: unused(32) }
    }

    /// Generations are in range, and the messages of each endpoint wait in order.
    pub open spec fn wf(self) -> bool {
        &&& self.endpoints.len() == 8
        &&& self.capabilities.len() == 64
        &&& self.reply_tokens.len() == 32
        &&& slots_ok(self.endpoints)
        &&& slots_ok(self.capabilities)
        &&& slots_ok(self.reply_tokens)
        &&& forall|i: int|
            0 <= i < 8 && (#[trigger] self.endpoints[i]).entry is Some
                ==> self.endpoints[i].entry.unwrap().wf()
    }

    /// The endpoint that an identifier stands for.
    pub open spec fn endpoint(self, id: EndpointId) -> Option<EndpointView> {
        held(self.endpoints, id.0)
    }

    /// The state with another endpoint in the place of one that stands.
    pub open spec fn with_endpoint(self, id: EndpointId, endpoint: EndpointView) -> Self {
        let index = decoded(id.0, self.endpoints.len() as int).unwrap().0;
        IpcView {
            endpoints: self.endpoints.update(
                index,
                Slot { generation: self.endpoints[index].generation, entry: Some(endpoint) },
            ),
            ..self
        }
    }
}

/// The endpoint for which a capability gives its holder a right.
pub open spec fn resolved(
    view: IpcView,
    caller: u32,
    capability: CapabilityId,
    required: IpcRights,
) -> Result<EndpointId, IpcError> {
    match held(view.capabilities, capability.0) {
        None => Err(IpcError::InvalidCapability),
        Some(entry) => if entry.subject != caller || !entry.rights.spec_contains(required) {
            Err(IpcError::PermissionDenied)
        } else if view.endpoint(entry.endpoint) is None {
            Err(IpcError::InvalidEndpoint)
        } else {
            Ok(entry.endpoint)
        },
    }
}

/// The reply that a token allows to `caller`.
pub open spec fn resolved_token(view: IpcView, caller: u32, token: ReplyTokenId) -> Result<
    ReplyToken,
    IpcError,
> {
    match held(view.reply_tokens, token.0) {
        None => Err(IpcError::InvalidReplyToken),
        Some(entry) => if entry.replier != caller {
            Err(IpcError::PermissionDenied)
        } else if view.endpoint(entry.reply_endpoint) is None {
            Err(IpcError::InvalidEndpoint)
        } else {
            Ok(entry)
        },
    }
}

/// Creating an endpoint and the capability of its owner.
pub open spec fn created(view: IpcView, owner: u32) -> (
    IpcView,
    Result<(EndpointId, CapabilityId), IpcError>,
) {
    let at = usable_from(view.endpoints, 0);
    let capability_at = usable_from(view.capabilities, 0);
    if owner == 0 {
        (view, Err(IpcError::InvalidOwner))
    } else if at >= 8 {
        (view, Err(IpcError::EndpointTableFull))
    } else if capability_at >= 64 {
        (view, Err(IpcError::CapabilityTableFull))
    } else {
        let id = EndpointId(encoded(at, active(view.endpoints[at].generation)));
        (
            IpcView {
                endpoints: filled(view.endpoints, EndpointView::empty(owner)),
                capabilities: filled(
                    view.capabilities,
                    Capability { subject: owner, endpoint: id, rights: IpcRights::Owner },
                ),
                ..view
            },
            Ok(
                (
                    id,
                    CapabilityId(
                        encoded(
                            capability_at,
                            active(view.capabilities[capability_at].generation),
                        ),
                    ),
                ),
            ),
        )
    }
}

/// Whether a slot holds a capability of `subject` for an endpoint with a right.
pub open spec fn gives(
    slot: Slot<Capability>,
    subject: u32,
    endpoint: EndpointId,
    rights: IpcRights,
) -> bool {
    slot.entry matches Some(capability) && capability.subject == subject && capability.endpoint
        == endpoint && capability.rights.spec_contains(rights)
}

/// The first slot from `from` on with such a capability, or the number of slots.
pub open spec fn giving_from(
    slots: Seq<Slot<Capability>>,
    subject: u32,
    endpoint: EndpointId,
    rights: IpcRights,
    from: int,
) -> int
    decreases slots.len() - from,
{
    if from >= slots.len() || from < 0 {
        slots.len() as int
    } else if gives(slots[from], subject, endpoint, rights) {
        from
    } else {
        giving_from(slots, subject, endpoint, rights, from + 1)
    }
}

/// The first capability of `subject` for an endpoint with a right.
pub open spec fn capability_found(
    view: IpcView,
    subject: u32,
    endpoint: EndpointId,
    rights: IpcRights,
) -> Option<CapabilityId> {
    let at = giving_from(view.capabilities, subject, endpoint, rights, 0);
    if view.endpoint(endpoint) is None || at >= view.capabilities.len() {
        None
    } else {
        Some(CapabilityId(encoded(at, view.capabilities[at].generation)))
    }
}

/// Granting the right to send to another subject.
pub open spec fn granted(
    view: IpcView,
    caller: u32,
    authority: CapabilityId,
    subject: u32,
    rights: IpcRights,
) -> (IpcView, Result<CapabilityId, IpcError>) {
    if subject == 0 || rights != IpcRights::Send {
        (view, Err(IpcError::InvalidRights))
    } else {
        match resolved(view, caller, authority, IpcRights::Manage) {
            Err(error) => (view, Err(error)),
            Ok(endpoint) => match capability_found(view, subject, endpoint, rights) {
                Some(existing) => (view, Ok(existing)),
                None => {
                    let at = usable_from(view.capabilities, 0);
                    if at >= 64 {
                        (view, Err(IpcError::CapabilityTableFull))
                    } else {
                        (
                            IpcView {
                                capabilities: filled(
                                    view.capabilities,
                                    Capability { subject, endpoint, rights },
                                ),
                                ..view
                            },
                            Ok(
                                CapabilityId(
                                    encoded(at, active(view.capabilities[at].generation)),
                                ),
                            ),
                        )
                    }
                },
            },
        }
    }
}

/// A message arriving at an endpoint.
pub open spec fn delivered(
    view: IpcView,
    endpoint: EndpointId,
    sender: u32,
    token: ReplyTokenId,
    message: Message,
) -> (IpcView, Result<u64, IpcError>) {
    let (after, result) = view.endpoint(endpoint).unwrap().pushed(sender, token, message);
    (view.with_endpoint(endpoint, after), result)
}

/// Sending a message that wants no reply.
pub open spec fn sent(
    view: IpcView,
    caller: u32,
    capability: CapabilityId,
    message: Message,
) -> (IpcView, Result<u64, IpcError>) {
    match resolved(view, caller, capability, IpcRights::Send) {
        Err(error) => (view, Err(error)),
        Ok(endpoint) => delivered(view, endpoint, caller, ReplyTokenId(0), message),
    }
}

/// Sending a message with a token for one reply; the token is void if the message does
/// not arrive.
pub open spec fn called(
    view: IpcView,
    caller: u32,
    capability: CapabilityId,
    reply_capability: CapabilityId,
    message: Message,
) -> (IpcView, Result<u64, IpcError>) {
    match resolved(view, caller, capability, IpcRights::Send) {
        Err(error) => (view, Err(error)),
        Ok(destination) => match resolved(view, caller, reply_capability, IpcRights::Receive) {
            Err(error) => (view, Err(error)),
            Ok(reply_endpoint) => {
                let at = usable_from(view.reply_tokens, 0);
                if at >= 32 {
                    (view, Err(IpcError::ReplyTokenTableFull))
                } else {
                    let entry = ReplyToken {
                        requester: caller,
                        replier: view.endpoint(destination).unwrap().owner,
                        reply_endpoint,
                    };
                    let armed = IpcView { reply_tokens: filled(view.reply_tokens, entry), ..view };
                    let token = ReplyTokenId(
                        encoded(at, active(view.reply_tokens[at].generation)),
                    );
                    let (after, result) = delivered(armed, destination, caller, token, message);
                    if result is Ok {
                        (after, result)
                    } else {
                        (
                            IpcView {
                                reply_tokens: armed.reply_tokens.update(
                                    at,
                                    emptied(armed.reply_tokens[at]),
                                ),
                                ..view
                            },
                            result,
                        )
                    }
                }
            },
        },
    }
}

/// Answering a message; the token is used up if the answer arrives.
pub open spec fn replied(
    view: IpcView,
    caller: u32,
    token: ReplyTokenId,
    message: Message,
) -> (IpcView, Result<u64, IpcError>) {
    match resolved_token(view, caller, token) {
        Err(error) => (view, Err(error)),
        Ok(entry) => {
            let (after, result) = delivered(
                view,
                entry.reply_endpoint,
                caller,
                ReplyTokenId(0),
                message,
            );
            let at = decoded(token.0, 32).unwrap().0;
            if result is Ok {
                (
                    IpcView {
                        reply_tokens: view.reply_tokens.update(
                            at,
                            emptied(view.reply_tokens[at]),
                        ),
                        ..after
                    },
                    result,
                )
            } else {
                (view, result)
            }
        },
    }
}

/// Taking the oldest message of an endpoint.
pub open spec fn taken(view: IpcView, caller: u32, capability: CapabilityId) -> (
    IpcView,
    Result<Envelope, IpcError>,
) {
    match resolved(view, caller, capability, IpcRights::Receive) {
        Err(error) => (view, Err(error)),
        Ok(endpoint) => {
            let (after, result) = view.endpoint(endpoint).unwrap().popped();
            (view.with_endpoint(endpoint, after), result)
        },
    }
}

/// Closing an endpoint: its capabilities go, and the tokens for replies to it or by its
/// owner.
pub open spec fn closed_by(view: IpcView, caller: u32, capability: CapabilityId) -> (
    IpcView,
    Result<(), IpcError>,
) {
    match resolved(view, caller, capability, IpcRights::Manage) {
        Err(error) => (view, Err(error)),
        Ok(endpoint) => if view.endpoint(endpoint).unwrap().owner != caller {
            (view, Err(IpcError::PermissionDenied))
        } else {
            let at = decoded(endpoint.0, 8).unwrap().0;
            (
                IpcView {
                    endpoints: view.endpoints.update(at, emptied(view.endpoints[at])),
                    capabilities: swept(
                        view.capabilities,
                        |entry: Capability| entry.endpoint == endpoint,
                    ),
                    reply_tokens: swept(
                        view.reply_tokens,
                        |entry: ReplyToken|
                            entry.reply_endpoint == endpoint || entry.replier == caller,
                    ),
                },
                Ok(()),
            )
        },
    }
}

/// The capabilities without those for the endpoints of `subject` in the first `count`
/// slots.
pub open spec fn disowned(
    endpoints: Seq<Slot<EndpointView>>,
    capabilities: Seq<Slot<Capability>>,
    subject: u32,
    count: nat,
) -> Seq<Slot<Capability>>
    decreases count,
{
    if count == 0 {
        capabilities
    } else {
        let before = disowned(endpoints, capabilities, subject, (count - 1) as nat);
        let slot = endpoints[count - 1];
        if slot.entry is Some && slot.entry.unwrap().owner == subject {
            let id = EndpointId(encoded(count - 1, slot.generation));
            swept(before, |entry: Capability| entry.endpoint == id)
        } else {
            before
        }
    }
}

/// The state without a subject: its endpoints and all that belongs to them go, its
/// capabilities, and the tokens that it holds or waits for.
pub open spec fn removed(view: IpcView, subject: u32) -> IpcView {
    IpcView {
        endpoints: swept(view.endpoints, |entry: EndpointView| entry.owner == subject),
        capabilities: swept(
            disowned(view.endpoints, view.capabilities, subject, 8),
            |entry: Capability| entry.subject == subject,
        ),
        reply_tokens: swept(
            view.reply_tokens,
            |entry: ReplyToken| entry.requester == subject || entry.replier == subject,
        ),
    }
}

impl View for IpcTable {
    type V = IpcView;

    closed spec fn view(&self) -> IpcView {
        IpcView {
            endpoints: self.endpoints@.map_values(
                |slot: Slot<Endpoint>|
                    Slot {
                        generation: slot.generation,
                        entry: match slot.entry {
                            Some(endpoint) => Some(endpoint.model()),
                            None => None,
                        },
                    },
            ),
            capabilities: self.capabilities@,
            reply_tokens: self.reply_tokens@,
        }
    }
}

impl IpcTable {
    /// The rings are in order.
    pub closed spec fn rings_ok(&self) -> bool {
        forall|i: int|
            0 <= i < 8 && (#[trigger] self.endpoints@[i]).entry is Some
                ==> self.endpoints@[i].entry.unwrap().wf()
    }

    /// The table keeps its rules.
    pub open spec fn wf(&self) -> bool {
        self@.wf() && self.rings_ok()
    }

    pub fn new() -> (table: Self)
        ensures
            table.wf(),
            table@ == IpcView::empty(),
    {
        let endpoint = Slot { generation: 0, entry: None };
        let capability = Slot { generation: 0, entry: None };
        let token = Slot { generation: 0, entry: None };
        let table = IpcTable {
            endpoints: [endpoint; 8],
            capabilities: [capability; 64],
            reply_tokens: [token; 32],
        };
        assert(table@ =~= IpcView::empty());
        table
    }

    /// Empties the table.
    pub(crate) fn reset(&mut self)
        ensures
            final(self).wf(),
            final(self)@ == IpcView::empty(),
    {
        *self = IpcTable::new();
    }

    pub fn create_endpoint(&mut self, owner: u32) -> (ids: Result<
        (EndpointId, CapabilityId),
        IpcError,
    >)
        requires
            old(self).wf(),
        ensures
            final(self).wf(),
            (final(self)@, ids) == created(old(self)@, owner),
    {
        if owner == 0 {
            return Err(IpcError::InvalidOwner);
        }
        let at: usize = usable_slot(self.endpoints.as_slice());
        let capability_at: usize = usable_slot(self.capabilities.as_slice());
        proof {
            lemma_usable_same(self.endpoints@, self@.endpoints, 0);
            lemma_usable(self@.endpoints, 0);
            lemma_usable(self@.capabilities, 0);
        }
        if at >= MAX_ENDPOINTS {
            return Err(IpcError::EndpointTableFull);
        }
        if capability_at >= MAX_CAPABILITIES {
            return Err(IpcError::CapabilityTableFull);
        }
        let generation: u32 = active_generation(self.endpoints[at].generation);
        let capability_generation: u32 = active_generation(
            self.capabilities[capability_at].generation,
        );
        let id = EndpointId(encode_handle(at, generation));
        self.endpoints[at] = Slot { generation, entry: Some(Endpoint::new(owner)) };
        self.capabilities[capability_at] = Slot {
            generation: capability_generation,
            entry: Some(Capability { subject: owner, endpoint: id, rights: IpcRights::Owner }),
        };
        assert(self@ =~= created(old(self)@, owner).0);
        Ok((id, CapabilityId(encode_handle(capability_at, capability_generation))))
    }

    pub fn grant(
        &mut self,
        caller: u32,
        authority: CapabilityId,
        subject: u32,
        rights: IpcRights,
    ) -> (id: Result<CapabilityId, IpcError>)
        requires
            old(self).wf(),
        ensures
            final(self).wf(),
            (final(self)@, id) == granted(old(self)@, caller, authority, subject, rights),
    {
        if subject == 0 || rights != IpcRights::Send {
            return Err(IpcError::InvalidRights);
        }
        match self.resolve_capability(caller, authority, IpcRights::Manage) {
            Err(error) => Err(error),
            Ok(endpoint) => {
                if let Some(existing) = self.capability_for(subject, endpoint, rights) {
                    return Ok(existing);
                }
                let at: usize = usable_slot(self.capabilities.as_slice());
                if at >= MAX_CAPABILITIES {
                    return Err(IpcError::CapabilityTableFull);
                }
                proof {
                    lemma_usable(self@.capabilities, 0);
                }
                let generation: u32 = active_generation(self.capabilities[at].generation);
                self.capabilities[at] = Slot {
                    generation,
                    entry: Some(Capability { subject, endpoint, rights }),
                };
                assert(self@ =~= granted(old(self)@, caller, authority, subject, rights).0);
                Ok(CapabilityId(encode_handle(at, generation)))
            },
        }
    }

    pub fn capability_for(&self, subject: u32, endpoint: EndpointId, rights: IpcRights) -> (id:
        Option<CapabilityId>)
        requires
            self.wf(),
        ensures
            id == capability_found(self@, subject, endpoint, rights),
    {
        if self.owner_of(endpoint).is_none() {
            return None;
        }
        let mut index: usize = 0;
        while index < 64
            invariant
                index <= 64,
                self.wf(),
                self@.endpoint(endpoint) is Some,
                giving_from(self@.capabilities, subject, endpoint, rights, 0) == giving_from(
                    self@.capabilities,
                    subject,
                    endpoint,
                    rights,
                    index as int,
                ),
            decreases 64 - index,
        {
            if let Some(capability) = self.capabilities[index].entry {
                if capability.subject == subject && capability.endpoint == endpoint
                    && capability.rights.contains(rights) {
                    return Some(
                        CapabilityId(encode_handle(index, self.capabilities[index].generation)),
                    );
                }
            }
            index += 1;
        }
        None
    }

    pub fn send(&mut self, caller: u32, capability: CapabilityId, message: Message) -> (id: Result<
        u64,
        IpcError,
    >)
        requires
            old(self).wf(),
        ensures
            final(self).wf(),
            (final(self)@, id) == sent(old(self)@, caller, capability, message),
    {
        match self.resolve_capability(caller, capability, IpcRights::Send) {
            Err(error) => Err(error),
            Ok(endpoint) => self.deliver(endpoint, caller, ReplyTokenId(0), message),
        }
    }

    /// Puts a message into the queue of an endpoint.
    fn deliver(
        &mut self,
        endpoint: EndpointId,
        sender: u32,
        token: ReplyTokenId,
        message: Message,
    ) -> (id: Result<u64, IpcError>)
        requires
            old(self).wf(),
            old(self)@.endpoint(endpoint) is Some,
        ensures
            final(self).wf(),
            (final(self)@, id) == delivered(old(self)@, endpoint, sender, token, message),
            id is Err ==> final(self)@ == old(self)@,
    {
        if let Some((index, _)) = decode_handle(endpoint.raw(), MAX_ENDPOINTS) {
            let slot = self.endpoints[index];
            if let Some(mut entry) = slot.entry {
                let ghost before = entry;
                let id = entry.push(sender, token, message);
                self.endpoints[index] = Slot { generation: slot.generation, entry: Some(entry) };
                assert(self@ =~= delivered(old(self)@, endpoint, sender, token, message).0);
                if id.is_err() {
                    assert(self@ =~= old(self)@);
                }
                return id;
            }
        }
        Err(IpcError::InvalidEndpoint)
    }

    pub fn call(
        &mut self,
        caller: u32,
        capability: CapabilityId,
        reply_capability: CapabilityId,
        message: Message,
    ) -> (id: Result<u64, IpcError>)
        requires
            old(self).wf(),
        ensures
            final(self).wf(),
            (final(self)@, id) == called(
                old(self)@,
                caller,
                capability,
                reply_capability,
                message,
            ),
    {
        let destination = match self.resolve_capability(caller, capability, IpcRights::Send) {
            Err(error) => {
                return Err(error);
            },
            Ok(endpoint) => endpoint,
        };
        let reply_endpoint = match self.resolve_capability(
            caller,
            reply_capability,
            IpcRights::Receive,
        ) {
            Err(error) => {
                return Err(error);
            },
            Ok(endpoint) => endpoint,
        };
        let replier: u32 = match self.owner_of(destination) {
            None => {
                return Err(IpcError::InvalidEndpoint);
            },
            Some(owner) => owner,
        };
        let entry = ReplyToken { requester: caller, replier, reply_endpoint };
        let at: usize = usable_slot(self.reply_tokens.as_slice());
        if at >= MAX_REPLY_TOKENS {
            return Err(IpcError::ReplyTokenTableFull);
        }
        proof {
            lemma_usable(self@.reply_tokens, 0);
        }
        let generation: u32 = active_generation(self.reply_tokens[at].generation);
        self.reply_tokens[at] = Slot { generation, entry: Some(entry) };
        let ghost armed = self@;
        assert(armed =~= (IpcView {
            reply_tokens: filled(old(self)@.reply_tokens, entry),
            ..old(self)@
        }));
        let token = ReplyTokenId(encode_handle(at, generation));
        match self.deliver(destination, caller, token, message) {
            Ok(id) => Ok(id),
            Err(error) => {
                self.reply_tokens[at] = Slot {
                    generation: next_generation(generation),
                    entry: None,
                };
                assert(self@ =~= called(
                    old(self)@,
                    caller,
                    capability,
                    reply_capability,
                    message,
                ).0);
                Err(error)
            },
        }
    }

    pub fn reply(&mut self, caller: u32, token: ReplyTokenId, message: Message) -> (id: Result<
        u64,
        IpcError,
    >)
        requires
            old(self).wf(),
        ensures
            final(self).wf(),
            (final(self)@, id) == replied(old(self)@, caller, token, message),
    {
        match self.resolve_reply_token(caller, token) {
            Err(error) => Err(error),
            Ok((index, entry)) => match self.deliver(
                entry.reply_endpoint,
                caller,
                ReplyTokenId(0),
                message,
            ) {
                Err(error) => Err(error),
                Ok(id) => {
                    let generation: u32 = next_generation(self.reply_tokens[index].generation);
                    self.reply_tokens[index] = Slot { generation, entry: None };
                    assert(self@ =~= replied(old(self)@, caller, token, message).0);
                    Ok(id)
                },
            },
        }
    }

    pub fn authorize_send(&self, caller: u32, capability: CapabilityId) -> (result: Result<
        (),
        IpcError,
    >)
        requires
            self.wf(),
        ensures
            result == (match resolved(self@, caller, capability, IpcRights::Send) {
                Ok(_) => Ok::<(), IpcError>(()),
                Err(error) => Err(error),
            }),
    {
        match self.resolve_capability(caller, capability, IpcRights::Send) {
            Ok(_) => Ok(()),
            Err(error) => Err(error),
        }
    }

    pub fn send_target(&self, caller: u32, capability: CapabilityId) -> (owner: Result<
        u32,
        IpcError,
    >)
        requires
            self.wf(),
        ensures
            owner == (match resolved(self@, caller, capability, IpcRights::Send) {
                Ok(endpoint) => Ok::<u32, IpcError>(self@.endpoint(endpoint).unwrap().owner),
                Err(error) => Err(error),
            }),
    {
        match self.resolve_capability(caller, capability, IpcRights::Send) {
            Ok(endpoint) => match self.owner_of(endpoint) {
                Some(owner) => Ok(owner),
                None => Err(IpcError::InvalidEndpoint),
            },
            Err(error) => Err(error),
        }
    }

    pub fn authorize_call(
        &self,
        caller: u32,
        capability: CapabilityId,
        reply_capability: CapabilityId,
    ) -> (result: Result<(), IpcError>)
        requires
            self.wf(),
        ensures
            result == (match resolved(self@, caller, capability, IpcRights::Send) {
                Err(error) => Err::<(), IpcError>(error),
                Ok(_) => match resolved(self@, caller, reply_capability, IpcRights::Receive) {
                    Err(error) => Err(error),
                    Ok(_) => Ok(()),
                },
            }),
    {
        match self.resolve_capability(caller, capability, IpcRights::Send) {
            Err(error) => Err(error),
            Ok(_) => match self.resolve_capability(caller, reply_capability, IpcRights::Receive) {
                Err(error) => Err(error),
                Ok(_) => Ok(()),
            },
        }
    }

    pub fn authorize_reply(&self, caller: u32, token: ReplyTokenId) -> (result: Result<
        (),
        IpcError,
    >)
        requires
            self.wf(),
        ensures
            result == (match resolved_token(self@, caller, token) {
                Ok(_) => Ok::<(), IpcError>(()),
                Err(error) => Err(error),
            }),
    {
        match self.resolve_reply_token(caller, token) {
            Ok(_) => Ok(()),
            Err(error) => Err(error),
        }
    }

    pub fn receive(&mut self, caller: u32, capability: CapabilityId) -> (envelope: Result<
        Envelope,
        IpcError,
    >)
        requires
            old(self).wf(),
        ensures
            final(self).wf(),
            (final(self)@, envelope) == taken(old(self)@, caller, capability),
    {
        match self.resolve_capability(caller, capability, IpcRights::Receive) {
            Err(error) => Err(error),
            Ok(endpoint) => {
                if let Some((index, _)) = decode_handle(endpoint.raw(), MAX_ENDPOINTS) {
                    let slot = self.endpoints[index];
                    if let Some(mut entry) = slot.entry {
                        let envelope = entry.pop();
                        self.endpoints[index] = Slot {
                            generation: slot.generation,
                            entry: Some(entry),
                        };
                        assert(self@ =~= taken(old(self)@, caller, capability).0);
                        return envelope;
                    }
                }
                Err(IpcError::InvalidEndpoint)
            },
        }
    }

    /// The owner of an endpoint, if it stands.
    fn owner_of(&self, endpoint: EndpointId) -> (owner: Option<u32>)
        requires
            self.wf(),
        ensures
            owner is Some <==> self@.endpoint(endpoint) is Some,
            owner is Some ==> owner.unwrap() == self@.endpoint(endpoint).unwrap().owner,
    {
        match decode_handle(endpoint.raw(), MAX_ENDPOINTS) {
            None => None,
            Some((index, generation)) => if self.endpoints[index].generation == generation {
                match self.endpoints[index].entry {
                    Some(entry) => Some(entry.owner),
                    None => None,
                }
            } else {
                None
            },
        }
    }

    fn resolve_capability(&self, caller: u32, capability: CapabilityId, required: IpcRights) -> (
        endpoint: Result<EndpointId, IpcError>)
        requires
            self.wf(),
        ensures
            endpoint == resolved(self@, caller, capability, required),
    {
        match decode_handle(capability.raw(), MAX_CAPABILITIES) {
            None => Err(IpcError::InvalidCapability),
            Some((index, generation)) => {
                if self.capabilities[index].generation != generation {
                    return Err(IpcError::InvalidCapability);
                }
                match self.capabilities[index].entry {
                    None => Err(IpcError::InvalidCapability),
                    Some(entry) => {
                        if entry.subject != caller || !entry.rights.contains(required) {
                            return Err(IpcError::PermissionDenied);
                        }
                        if self.owner_of(entry.endpoint).is_none() {
                            return Err(IpcError::InvalidEndpoint);
                        }
                        Ok(entry.endpoint)
                    },
                }
            },
        }
    }

    fn resolve_reply_token(&self, caller: u32, token: ReplyTokenId) -> (result: Result<
        (usize, ReplyToken),
        IpcError,
    >)
        requires
            self.wf(),
        ensures
            result is Err ==> resolved_token(self@, caller, token) == Err::<ReplyToken, IpcError>(
                result->Err_0,
            ),
            result is Ok ==> resolved_token(self@, caller, token) == Ok::<ReplyToken, IpcError>(
                result->Ok_0.1,
            ) && decoded(token.0, 32) is Some && result->Ok_0.0 == decoded(token.0, 32).unwrap().0
                && result->Ok_0.0 < 32,
    {
        match decode_handle(token.raw(), MAX_REPLY_TOKENS) {
            None => Err(IpcError::InvalidReplyToken),
            Some((index, generation)) => {
                if self.reply_tokens[index].generation != generation {
                    return Err(IpcError::InvalidReplyToken);
                }
                match self.reply_tokens[index].entry {
                    None => Err(IpcError::InvalidReplyToken),
                    Some(entry) => {
                        if entry.replier != caller {
                            return Err(IpcError::PermissionDenied);
                        }
                        if self.owner_of(entry.reply_endpoint).is_none() {
                            return Err(IpcError::InvalidEndpoint);
                        }
                        Ok((index, entry))
                    },
                }
            },
        }
    }
}

/// Which slots can be used does not depend on what the others hold.
proof fn lemma_usable_same<T, U>(a: Seq<Slot<T>>, b: Seq<Slot<U>>, from: int)
    requires
        a.len() == b.len(),
        0 <= from <= a.len(),
        forall|i: int|
            #![trigger a[i]]
            #![trigger b[i]]
            0 <= i < a.len() ==> a[i].generation == b[i].generation && (a[i].entry is None
                <==> b[i].entry is None),
    ensures
        usable_from(a, from) == usable_from(b, from),
    decreases a.len() - from,
{
    if from < a.len() {
        assert(a[from].generation == b[from].generation);
        lemma_usable_same(a, b, from + 1);
    }
}

/// A slot after a decision on its entry: kept as it was, or emptied.
pub open spec fn kept_or_emptied<T>(
    before: Slot<T>,
    after: Slot<T>,
    kept: spec_fn(T) -> bool,
    gone: spec_fn(T) -> bool,
) -> bool {
    match before.entry {
        None => after == before,
        Some(entry) => (after == before && kept(entry)) || (after == emptied(before) && gone(
            entry,
        )),
    }
}

/// The state with the capabilities and tokens of the subjects that live alone. A token
/// needs both the requester and the replier.
pub open spec fn retained(view: IpcView, lives: spec_fn(u32) -> bool) -> IpcView {
    IpcView {
        capabilities: swept(view.capabilities, |entry: Capability| !lives(entry.subject)),
        reply_tokens: swept(
            view.reply_tokens,
            |entry: ReplyToken| !lives(entry.requester) || !lives(entry.replier),
        ),
        ..view
    }
}

impl IpcTable {
    pub fn close(&mut self, caller: u32, capability: CapabilityId) -> (result: Result<
        (),
        IpcError,
    >)
        requires
            old(self).wf(),
        ensures
            final(self).wf(),
            (final(self)@, result) == closed_by(old(self)@, caller, capability),
    {
        let endpoint = match self.resolve_capability(caller, capability, IpcRights::Manage) {
            Err(error) => {
                return Err(error);
            },
            Ok(endpoint) => endpoint,
        };
        match self.owner_of(endpoint) {
            None => {
                return Err(IpcError::PermissionDenied);
            },
            Some(owner) => {
                if owner != caller {
                    return Err(IpcError::PermissionDenied);
                }
            },
        }
        if let Some((index, _)) = decode_handle(endpoint.raw(), MAX_ENDPOINTS) {
            self.drop_endpoint(index);
        }
        self.drop_capabilities(endpoint);
        let mut index: usize = 0;
        let ghost before = self@;
        let ghost after = swept(
            before.reply_tokens,
            |entry: ReplyToken| entry.reply_endpoint == endpoint || entry.replier == caller,
        );
        while index < 32
            invariant
                index <= 32,
                before.wf(),
                self.rings_ok(),
                after == swept(
                    before.reply_tokens,
                    |entry: ReplyToken| entry.reply_endpoint == endpoint || entry.replier == caller,
                ),
                self@ == (IpcView { reply_tokens: self@.reply_tokens, ..before }),
                self@.reply_tokens.len() == 32,
                forall|i: int| 0 <= i < index ==> #[trigger] self@.reply_tokens[i] == after[i],
                forall|i: int|
                    index <= i < 32 ==> #[trigger] self@.reply_tokens[i] == before.reply_tokens[i],
            decreases 32 - index,
        {
            let slot = self.reply_tokens[index];
            assert(slot == self@.reply_tokens[index as int]);
            if let Some(entry) = slot.entry {
                if entry.reply_endpoint == endpoint || entry.replier == caller {
                    self.empty_token(index);
                }
            }
            index += 1;
        }
        assert(self@.reply_tokens =~= after);
        Ok(())
    }

    /// Empties the slot of an endpoint.
    fn drop_endpoint(&mut self, index: usize)
        requires
            old(self).wf(),
            index < 8,
        ensures
            final(self).wf(),
            final(self)@ == (IpcView {
                endpoints: old(self)@.endpoints.update(
                    index as int,
                    emptied(old(self)@.endpoints[index as int]),
                ),
                ..old(self)@
            }),
    {
        let generation: u32 = next_generation(self.endpoints[index].generation);
        self.endpoints[index] = Slot { generation, entry: None };
        assert(self@.endpoints =~= old(self)@.endpoints.update(
            index as int,
            emptied(old(self)@.endpoints[index as int]),
        ));
    }

    /// Empties the slot of a token.
    fn empty_token(&mut self, index: usize)
        requires
            index < 32,
        ensures
            final(self)@ == (IpcView {
                reply_tokens: old(self)@.reply_tokens.update(
                    index as int,
                    emptied(old(self)@.reply_tokens[index as int]),
                ),
                ..old(self)@
            }),
            final(self).rings_ok() == old(self).rings_ok(),
    {
        let generation: u32 = next_generation(self.reply_tokens[index].generation);
        self.reply_tokens[index] = Slot { generation, entry: None };
        assert(self@ =~= (IpcView {
            reply_tokens: old(self)@.reply_tokens.update(
                index as int,
                emptied(old(self)@.reply_tokens[index as int]),
            ),
            ..old(self)@
        }));
    }

    /// Empties the slot of a capability.
    fn empty_capability(&mut self, index: usize)
        requires
            index < 64,
        ensures
            final(self)@ == (IpcView {
                capabilities: old(self)@.capabilities.update(
                    index as int,
                    emptied(old(self)@.capabilities[index as int]),
                ),
                ..old(self)@
            }),
            final(self).rings_ok() == old(self).rings_ok(),
    {
        let generation: u32 = next_generation(self.capabilities[index].generation);
        self.capabilities[index] = Slot { generation, entry: None };
        assert(self@ =~= (IpcView {
            capabilities: old(self)@.capabilities.update(
                index as int,
                emptied(old(self)@.capabilities[index as int]),
            ),
            ..old(self)@
        }));
    }

    /// Takes out the capabilities for an endpoint.
    fn drop_capabilities(&mut self, endpoint: EndpointId)
        requires
            old(self).wf(),
        ensures
            final(self).wf(),
            final(self)@ == (IpcView {
                capabilities: swept(
                    old(self)@.capabilities,
                    |entry: Capability| entry.endpoint == endpoint,
                ),
                ..old(self)@
            }),
    {
        let mut index: usize = 0;
        let ghost after = swept(
            old(self)@.capabilities,
            |entry: Capability| entry.endpoint == endpoint,
        );
        while index < 64
            invariant
                index <= 64,
                old(self).wf(),
                self.rings_ok(),
                after == swept(
                    old(self)@.capabilities,
                    |entry: Capability| entry.endpoint == endpoint,
                ),
                self@ == (IpcView { capabilities: self@.capabilities, ..old(self)@ }),
                self@.capabilities.len() == 64,
                forall|i: int| 0 <= i < index ==> #[trigger] self@.capabilities[i] == after[i],
                forall|i: int|
                    index <= i < 64 ==> #[trigger] self@.capabilities[i] == old(
                        self,
                    )@.capabilities[i],
            decreases 64 - index,
        {
            let slot = self.capabilities[index];
            assert(slot == self@.capabilities[index as int]);
            if let Some(entry) = slot.entry {
                if entry.endpoint == endpoint {
                    self.empty_capability(index);
                }
            }
            index += 1;
        }
        assert(self@.capabilities =~= after);
    }

    /// Keeps the capabilities and tokens of the subjects that `retain` accepts. A token
    /// needs both the requester and the replier.
    pub fn retain_subjects<F: Fn(u32) -> bool>(&mut self, retain: F)
        requires
            old(self).wf(),
            forall|subject: u32| #[trigger] retain.requires((subject,)),
        ensures
            final(self).wf(),
            final(self)@.endpoints == old(self)@.endpoints,
            forall|i: int|
                0 <= i < 64 ==> kept_or_emptied(
                    old(self)@.capabilities[i],
                    #[trigger] final(self)@.capabilities[i],
                    |entry: Capability| retain.ensures((entry.subject,), true),
                    |entry: Capability| retain.ensures((entry.subject,), false),
                ),
            forall|i: int|
                0 <= i < 32 ==> kept_or_emptied(
                    old(self)@.reply_tokens[i],
                    #[trigger] final(self)@.reply_tokens[i],
                    |entry: ReplyToken|
                        retain.ensures((entry.requester,), true) && retain.ensures(
                            (entry.replier,),
                            true,
                        ),
                    |entry: ReplyToken|
                        retain.ensures((entry.requester,), false) || retain.ensures(
                            (entry.replier,),
                            false,
                        ),
                ),
    {
        let mut index: usize = 0;
        while index < 64
            invariant
                index <= 64,
                old(self).wf(),
                self.rings_ok(),
                forall|subject: u32| #[trigger] retain.requires((subject,)),
                self@ == (IpcView { capabilities: self@.capabilities, ..old(self)@ }),
                self@.capabilities.len() == 64,
                forall|i: int|
                    0 <= i < index ==> kept_or_emptied(
                        old(self)@.capabilities[i],
                        #[trigger] self@.capabilities[i],
                        |entry: Capability| retain.ensures((entry.subject,), true),
                        |entry: Capability| retain.ensures((entry.subject,), false),
                    ),
                forall|i: int|
                    index <= i < 64 ==> #[trigger] self@.capabilities[i] == old(
                        self,
                    )@.capabilities[i],
            decreases 64 - index,
        {
            let slot = self.capabilities[index];
            assert(slot == self@.capabilities[index as int]);
            if let Some(entry) = slot.entry {
                if !retain(entry.subject) {
                    self.empty_capability(index);
                }
            }
            index += 1;
        }
        let ghost between = self@;
        index = 0;
        while index < 32
            invariant
                index <= 32,
                old(self).wf(),
                self.rings_ok(),
                forall|subject: u32| #[trigger] retain.requires((subject,)),
                between.reply_tokens == old(self)@.reply_tokens,
                self@ == (IpcView { reply_tokens: self@.reply_tokens, ..between }),
                self@.reply_tokens.len() == 32,
                forall|i: int|
                    0 <= i < index ==> kept_or_emptied(
                        old(self)@.reply_tokens[i],
                        #[trigger] self@.reply_tokens[i],
                        |entry: ReplyToken|
                            retain.ensures((entry.requester,), true) && retain.ensures(
                                (entry.replier,),
                                true,
                            ),
                        |entry: ReplyToken|
                            retain.ensures((entry.requester,), false) || retain.ensures(
                                (entry.replier,),
                                false,
                            ),
                    ),
                forall|i: int|
                    index <= i < 32 ==> #[trigger] self@.reply_tokens[i] == old(
                        self,
                    )@.reply_tokens[i],
            decreases 32 - index,
        {
            let slot = self.reply_tokens[index];
            assert(slot == self@.reply_tokens[index as int]);
            if let Some(entry) = slot.entry {
                if !retain(entry.requester) || !retain(entry.replier) {
                    self.empty_token(index);
                }
            }
            index += 1;
        }
    }

    pub fn remove_subject(&mut self, subject: u32)
        requires
            old(self).wf(),
        ensures
            final(self).wf(),
            final(self)@ == removed(old(self)@, subject),
    {
        let ghost start = self@;
        let ghost ends = swept(start.endpoints, |entry: EndpointView| entry.owner == subject);
        let mut index: usize = 0;
        while index < 8
            invariant
                index <= 8,
                self.wf(),
                start == old(self)@,
                ends == swept(start.endpoints, |entry: EndpointView| entry.owner == subject),
                ends.len() == 8,
                self@.reply_tokens == start.reply_tokens,
                self@.capabilities == disowned(
                    start.endpoints,
                    start.capabilities,
                    subject,
                    index as nat,
                ),
                forall|i: int| 0 <= i < index ==> #[trigger] self@.endpoints[i] == ends[i],
                forall|i: int|
                    index <= i < 8 ==> #[trigger] self@.endpoints[i] == start.endpoints[i],
            decreases 8 - index,
        {
            let slot = self.endpoints[index];
            assert(self@.endpoints[index as int] == start.endpoints[index as int]);
            if let Some(entry) = slot.entry {
                if entry.owner == subject {
                    let id = EndpointId(encode_handle(index, slot.generation));
                    self.drop_endpoint(index);
                    self.drop_capabilities(id);
                }
            }
            index += 1;
        }
        assert(self@.endpoints =~= ends);
        let ghost between = self@;
        let ghost capabilities = swept(
            between.capabilities,
            |entry: Capability| entry.subject == subject,
        );
        index = 0;
        while index < 64
            invariant
                index <= 64,
                between.wf(),
                self.rings_ok(),
                capabilities == swept(
                    between.capabilities,
                    |entry: Capability| entry.subject == subject,
                ),
                self@ == (IpcView { capabilities: self@.capabilities, ..between }),
                self@.capabilities.len() == 64,
                forall|i: int|
                    0 <= i < index ==> #[trigger] self@.capabilities[i] == capabilities[i],
                forall|i: int|
                    index <= i < 64 ==> #[trigger] self@.capabilities[i] == between.capabilities[i],
            decreases 64 - index,
        {
            let slot = self.capabilities[index];
            assert(slot == self@.capabilities[index as int]);
            if let Some(entry) = slot.entry {
                if entry.subject == subject {
                    self.empty_capability(index);
                }
            }
            index += 1;
        }
        assert(self@.capabilities =~= capabilities);
        let ghost last = self@;
        assert(last.wf());
        let ghost tokens = swept(
            last.reply_tokens,
            |entry: ReplyToken| entry.requester == subject || entry.replier == subject,
        );
        index = 0;
        while index < 32
            invariant
                index <= 32,
                last.wf(),
                self.rings_ok(),
                tokens == swept(
                    last.reply_tokens,
                    |entry: ReplyToken| entry.requester == subject || entry.replier == subject,
                ),
                self@ == (IpcView { reply_tokens: self@.reply_tokens, ..last }),
                self@.reply_tokens.len() == 32,
                forall|i: int| 0 <= i < index ==> #[trigger] self@.reply_tokens[i] == tokens[i],
                forall|i: int|
                    index <= i < 32 ==> #[trigger] self@.reply_tokens[i] == last.reply_tokens[i],
            decreases 32 - index,
        {
            let slot = self.reply_tokens[index];
            assert(slot == self@.reply_tokens[index as int]);
            if let Some(entry) = slot.entry {
                if entry.requester == subject || entry.replier == subject {
                    self.empty_token(index);
                }
            }
            index += 1;
        }
        assert(self@.reply_tokens =~= tokens);
    }
}

} // verus!
