//! A conversation between two subjects.
use crate::ipc;
use crate::ipc::{
    Capability, CapabilityId, EndpointId, EndpointView, IpcError, IpcRights, IpcTable, IpcView,
    Message, PageLoan, PageLoanTable, ReplyToken, ReplyTokenId, RequestKind, Slot,
};
use crate::ipc::laws;
use crate::text;
use vstd::prelude::*;

verus! {

/// A table with one endpoint of subject 10, to which subject 20 may send.
spec fn talking(view: IpcView, endpoint: EndpointView) -> bool {
    &&& view.wf()
    &&& view.endpoints == ipc::unused::<EndpointView>(8).update(
        0,
        Slot { generation: 1, entry: Some(endpoint) },
    )
    &&& view.capabilities == ipc::unused::<Capability>(64).update(0, owner_slot()).update(
        1,
        sender_slot(),
    )
    &&& view.reply_tokens == ipc::unused::<ReplyToken>(32)
}

spec fn owner_slot() -> Slot<Capability> {
    Slot {
        generation: 1,
        entry: Some(
            Capability {
                subject: 10,
                endpoint: EndpointId(0x1_0000_0001),
                rights: IpcRights::Owner,
            },
        ),
    }
}

spec fn sender_slot() -> Slot<Capability> {
    Slot {
        generation: 1,
        entry: Some(
            Capability {
                subject: 20,
                endpoint: EndpointId(0x1_0000_0001),
                rights: IpcRights::Send,
            },
        ),
    }
}

/// The table in which subject 20 has an endpoint for replies too.
spec fn paired(
    view: IpcView,
    endpoint: EndpointView,
    reply_endpoint: EndpointView,
    token: Slot<ReplyToken>,
) -> bool {
    &&& view.wf()
    &&& view.endpoints == ipc::unused::<EndpointView>(8).update(
        0,
        Slot { generation: 1, entry: Some(endpoint) },
    ).update(1, Slot { generation: 1, entry: Some(reply_endpoint) })
    &&& view.capabilities == ipc::unused::<Capability>(64).update(0, owner_slot()).update(
        1,
        sender_slot(),
    ).update(
        2,
        Slot {
            generation: 1,
            entry: Some(
                Capability {
                    subject: 20,
                    endpoint: EndpointId(0x1_0000_0002),
                    rights: IpcRights::Owner,
                },
            ),
        },
    )
    &&& view.reply_tokens == ipc::unused::<ReplyToken>(32).update(0, token)
}

/// The first usable slot.
proof fn lemma_usable_at<T>(slots: Seq<Slot<T>>, at: int)
    requires
        0 <= at < slots.len(),
        slots[at].entry is None,
        slots[at].generation == 0,
        forall|i: int| 0 <= i < at ==> (#[trigger] slots[i]).entry is Some,
    ensures
        ipc::usable_from(slots, 0) == at,
{
    ipc::lemma_usable(slots, 0);
    let found = ipc::usable_from(slots, 0);
    if found < at {
        assert(slots[found].entry is Some);
    }
}

proof fn lemma_other_generation()
    by (bit_vector)
    ensures
        0x1_0000_0002u64 ^ (1u64 << 32u64) == 2u64,
{
}

/// Subject 20 gets the right to send to subject 10, and nobody gets more.
fn set_up(table: &mut IpcTable) -> (ids: Option<(EndpointId, CapabilityId, CapabilityId)>)
    requires
        old(table).wf(),
        old(table)@ == IpcView::empty(),
    ensures
        final(table).wf(),
        ids == Some(
            (
                EndpointId(0x1_0000_0001),
                CapabilityId(0x1_0000_0001),
                CapabilityId(0x1_0000_0002),
            ),
        ),
        talking(final(table)@, EndpointView::empty(10)),
{
    proof {
        lemma_usable_at(table@.endpoints, 0);
        lemma_usable_at(table@.capabilities, 0);
    }
    let (endpoint, owner) = match table.create_endpoint(10) {
        Ok(ids) => ids,
        Err(_) => {
            return None;
        },
    };
    proof {
        lemma_usable_at(table@.capabilities, 1);
        reveal_with_fuel(ipc::giving_from, 1);
        lemma_not_given(table@.capabilities, 20, EndpointId(0x1_0000_0001), IpcRights::Send, 0);
    }
    let sender = match table.grant(10, owner, 20, IpcRights::SEND) {
        Ok(id) => id,
        Err(_) => {
            return None;
        },
    };
    assert(table@.capabilities =~= ipc::unused::<Capability>(64).update(0, owner_slot()).update(
        1,
        sender_slot(),
    ));
    if EndpointId::from_raw(endpoint.raw()) != endpoint {
        return None;
    }
    match table.grant(10, owner, 20, IpcRights::MANAGE) {
        Err(IpcError::InvalidRights) => Some((endpoint, owner, sender)),
        _ => None,
    }
}

proof fn lemma_not_given(
    slots: Seq<Slot<Capability>>,
    subject: u32,
    endpoint: EndpointId,
    rights: IpcRights,
    from: int,
)
    requires
        0 <= from <= slots.len(),
        forall|i: int|
            0 <= i < slots.len() ==> !ipc::gives(#[trigger] slots[i], subject, endpoint, rights),
    ensures
        ipc::giving_from(slots, subject, endpoint, rights, from) == slots.len(),
    decreases slots.len() - from,
{
    if from < slots.len() {
        assert(!ipc::gives(slots[from], subject, endpoint, rights));
        lemma_not_given(slots, subject, endpoint, rights, from + 1);
    }
}

/// Whether a message could not be sent for want of the right.
fn is_denied(result: Result<u64, IpcError>) -> (denied: bool)
    ensures
        denied == (result == Err::<u64, IpcError>(IpcError::PermissionDenied)),
{
    match result {
        Err(IpcError::PermissionDenied) => true,
        _ => false,
    }
}

/// A message goes from subject 20 to subject 10, and from no other.
fn talk(
    table: &mut IpcTable,
    owner: CapabilityId,
    sender: CapabilityId,
    message: Message,
) -> (passed: bool)
    requires
        old(table).wf(),
        talking(old(table)@, EndpointView::empty(10)),
        owner == CapabilityId(0x1_0000_0001),
        sender == CapabilityId(0x1_0000_0002),
        message@.opcode == 1,
        message@.payload == seq![104u8, 101, 108, 108, 111],
    ensures
        final(table).wf(),
        passed,
        talking(
            final(table)@,
            EndpointView { owner: 10, next_message_id: 2, queue: Seq::empty() },
        ),
{
    if !is_denied(table.send(21, sender, message)) {
        return false;
    }
    match table.receive(20, sender) {
        Err(IpcError::PermissionDenied) => {},
        _ => {
            return false;
        },
    }
    proof {
        lemma_other_generation();
    }
    if table.send(20, CapabilityId::from_raw(sender.raw() ^ (1u64 << 32u64)), message).is_ok() {
        return false;
    }
    let ghost before = table@;
    let id: u64 = match table.send(20, sender, message) {
        Ok(id) => id,
        Err(_) => {
            return false;
        },
    };
    let received = match table.receive(10, owner) {
        Ok(envelope) => envelope,
        Err(_) => {
            return false;
        },
    };
    assert(table@.endpoints =~= ipc::unused::<EndpointView>(8).update(
        0,
        Slot {
            generation: 1,
            entry: Some(EndpointView { owner: 10, next_message_id: 2, queue: Seq::empty() }),
        },
    )) by {
        assert(table@.endpoints[0].entry.unwrap().queue =~= Seq::empty());
    }
    let hello: [u8; 5] = [104, 101, 108, 108, 111];
    assert(hello@ =~= seq![104u8, 101, 108, 108, 111]);
    received.id == id && received.sender == 20 && received.reply_token == ReplyTokenId::none()
        && received.message.opcode() == RequestKind::ConsoleWrite.opcode() && text::equal(
        received.message.payload(),
        hello.as_slice(),
    )
}

/// An endpoint with an empty queue.
spec fn idle(owner: u32, next_message_id: u64) -> EndpointView {
    EndpointView { owner, next_message_id, queue: Seq::empty() }
}

/// Subject 20 calls, subject 10 answers once, and the answer arrives.
fn call_and_reply(
    table: &mut IpcTable,
    owner: CapabilityId,
    sender: CapabilityId,
    message: Message,
    response: Message,
) -> (passed: bool)
    requires
        old(table).wf(),
        talking(old(table)@, idle(10, 2)),
        owner == CapabilityId(0x1_0000_0001),
        sender == CapabilityId(0x1_0000_0002),
        response@.payload == seq![119u8, 111, 114, 108, 100],
    ensures
        final(table).wf(),
        passed,
        paired(final(table)@, idle(10, 3), idle(20, 2), Slot { generation: 2, entry: None }),
{
    proof {
        lemma_usable_at(table@.endpoints, 1);
        lemma_usable_at(table@.capabilities, 2);
    }
    let reply_owner = match table.create_endpoint(20) {
        Ok((_, id)) => id,
        Err(_) => {
            return false;
        },
    };
    proof {
        assert(table@.reply_tokens =~= ipc::unused::<ReplyToken>(32).update(
            0,
            Slot { generation: 0, entry: None },
        ));
        assert(paired(
            table@,
            idle(10, 2),
            idle(20, 1),
            Slot { generation: 0, entry: None },
        ));
        lemma_usable_at(table@.reply_tokens, 0);
    }
    let call_id: u64 = match table.call(20, sender, reply_owner, message) {
        Ok(id) => id,
        Err(_) => {
            return false;
        },
    };
    let request = match table.receive(10, owner) {
        Ok(envelope) => envelope,
        Err(_) => {
            return false;
        },
    };
    let ghost token = Slot {
        generation: 1,
        entry: Some(
            ReplyToken {
                requester: 20,
                replier: 10,
                reply_endpoint: EndpointId(0x1_0000_0002),
            },
        ),
    };
    proof {
        assert(table@.endpoints[0].entry.unwrap() =~= idle(10, 3));
        assert(table@.endpoints =~= ipc::unused::<EndpointView>(8).update(
            0,
            Slot { generation: 1, entry: Some(idle(10, 3)) },
        ).update(1, Slot { generation: 1, entry: Some(idle(20, 1)) }));
        assert(table@.reply_tokens =~= ipc::unused::<ReplyToken>(32).update(0, token));
        assert(paired(table@, idle(10, 3), idle(20, 1), token));
        assert(request.reply_token == ReplyTokenId(0x1_0000_0001));
    }
    if request.id != call_id || request.reply_token == ReplyTokenId::none() {
        return false;
    }
    match table.authorize_reply(20, request.reply_token) {
        Err(IpcError::PermissionDenied) => {},
        _ => {
            return false;
        },
    }
    let ghost before = table@;
    proof {
        assert(ipc::replied(before, 10, request.reply_token, response).1 is Ok);
        laws::law_tokens_answer_once(before, 10, request.reply_token, response, 10, response);
    }
    if table.reply(10, request.reply_token, response).is_err() {
        return false;
    }
    match table.reply(10, request.reply_token, response) {
        Err(IpcError::InvalidReplyToken) => {},
        _ => {
            return false;
        },
    }
    let reply = match table.receive(20, reply_owner) {
        Ok(envelope) => envelope,
        Err(_) => {
            return false;
        },
    };
    proof {
        assert(table@.endpoints[1].entry.unwrap() =~= idle(20, 2));
        assert(table@.endpoints =~= ipc::unused::<EndpointView>(8).update(
            0,
            Slot { generation: 1, entry: Some(idle(10, 3)) },
        ).update(1, Slot { generation: 1, entry: Some(idle(20, 2)) }));
        assert(table@.reply_tokens =~= ipc::unused::<ReplyToken>(32).update(
            0,
            Slot { generation: 2, entry: None },
        ));
    }
    let world: [u8; 5] = [119, 111, 114, 108, 100];
    assert(world@ =~= seq![119u8, 111, 114, 108, 100]);
    reply.sender == 10 && reply.reply_token == ReplyTokenId::none() && text::equal(
        reply.message.payload(),
        world.as_slice(),
    )
}

/// The queue takes eight messages and no more.
fn fill(table: &mut IpcTable, sender: CapabilityId, message: Message) -> (passed: bool)
    requires
        old(table).wf(),
        paired(old(table)@, idle(10, 3), idle(20, 2), Slot { generation: 2, entry: None }),
        sender == CapabilityId(0x1_0000_0002),
    ensures
        final(table).wf(),
        passed,
        exists|endpoint: EndpointView| #[trigger]
            paired(final(table)@, endpoint, idle(20, 2), Slot { generation: 2, entry: None })
                && endpoint.owner == 10,
{
    let mut count: usize = 0;
    let ghost mut endpoint = idle(10, 3);
    while count < 8
        invariant
            count <= 8,
            table.wf(),
            paired(table@, endpoint, idle(20, 2), Slot { generation: 2, entry: None }),
            endpoint.owner == 10,
            endpoint.queue.len() == count,
            endpoint.next_message_id == 3 + count,
            sender == CapabilityId(0x1_0000_0002),
        decreases 8 - count,
    {
        if table.send(20, sender, message).is_err() {
            return false;
        }
        proof {
            endpoint = endpoint.pushed(20, ReplyTokenId(0), message).0;
            assert(table@.endpoints =~= ipc::unused::<EndpointView>(8).update(
                0,
                Slot { generation: 1, entry: Some(endpoint) },
            ).update(1, Slot { generation: 1, entry: Some(idle(20, 2)) }));
        }
        count += 1;
    }
    let ghost before = table@;
    match table.send(20, sender, message) {
        Err(IpcError::QueueFull) => {
            assert(table@.endpoints =~= before.endpoints);
            assert(paired(table@, endpoint, idle(20, 2), Slot { generation: 2, entry: None }));
            true
        },
        _ => false,
    }
}

/// A closed endpoint takes nothing, and the one that replaces it is another.
fn close_and_replace(
    table: &mut IpcTable,
    endpoint: EndpointId,
    owner: CapabilityId,
    sender: CapabilityId,
    message: Message,
) -> (passed: bool)
    requires
        old(table).wf(),
        exists|entry: EndpointView| #[trigger]
            paired(old(table)@, entry, idle(20, 2), Slot { generation: 2, entry: None })
                && entry.owner == 10,
        endpoint == EndpointId(0x1_0000_0001),
        owner == CapabilityId(0x1_0000_0001),
        sender == CapabilityId(0x1_0000_0002),
    ensures
        final(table).wf(),
        passed,
{
    let ghost before = table@;
    proof {
        laws::law_closed_endpoints_are_deaf(before, 10, owner, 20, sender, message);
    }
    if table.close(10, owner).is_err() {
        return false;
    }
    if table.send(20, sender, message).is_ok() {
        return false;
    }
    proof {
        ipc::lemma_usable(table@.endpoints, 0);
        ipc::lemma_usable(table@.capabilities, 0);
        assert(table@.endpoints[0].entry is None && table@.endpoints[0].generation == 2);
        assert(table@.capabilities[3].entry is None && table@.capabilities[3].generation == 0);
    }
    match table.create_endpoint(10) {
        Ok((replacement, _)) => replacement != endpoint,
        Err(_) => false,
    }
}

/// Two pages are lent from subject 20 to subject 10 and consumed once.
fn lend() -> (passed: bool)
    ensures
        passed,
{
    let mut loans = PageLoanTable::new();
    let mut frames: [u64; 8] = [0; 8];
    frames[0] = 0x1000;
    frames[1] = 0x2000;
    let ghost loan = PageLoan { owner: 20, recipient: 10, length: 4097, pages: 2, frames };
    proof {
        assert(ipc::lendable(20, 10, frames@, 2, 4097)) by {
            assert forall|i: int| 0 <= i < 2 implies #[trigger] frames@[i] % 4096 == 0 by {
                assert(i == 0 || i == 1);
            }
        }
        lemma_usable_at(loans@, 0);
        laws::law_loans_reach_their_recipient(loans@, loan, 20);
    }
    let id = match loans.create(20, 10, frames, 2, 4097) {
        Ok(id) => id,
        Err(_) => {
            return false;
        },
    };
    let message = match Message::page_loan(RequestKind::VfsReadFile, id, 4097) {
        Ok(message) => message,
        Err(_) => {
            return false;
        },
    };
    if message.payload().len() != 0 || message.transferred_len() != 4097 || message.loan() != id {
        return false;
    }
    match loans.get(20, id) {
        Err(IpcError::InvalidPageLoan) => {},
        _ => {
            return false;
        },
    }
    match loans.get(10, id) {
        Ok(found) => match found.frame(1) {
            Some(frame) => {
                if frame != 0x2000 {
                    return false;
                }
            },
            None => {
                return false;
            },
        },
        Err(_) => {
            return false;
        },
    }
    proof {
        laws::law_loans_are_consumed_once(loans@, 10, id, 10);
    }
    if loans.consume(10, id).is_err() {
        return false;
    }
    match loans.consume(10, id) {
        Err(IpcError::InvalidPageLoan) => true,
        _ => false,
    }
}

/// Runs a conversation on a table of its own and says whether all of it went as it
/// should.
pub fn self_test() -> (passed: bool)
    ensures
        passed,
{
    let mut table = IpcTable::new();
    table.reset();
    let (endpoint, owner, sender) = match set_up(&mut table) {
        Some(ids) => ids,
        None => {
            return false;
        },
    };
    let long: [u8; 193] = [0; 193];
    match Message::new(RequestKind::ConsoleWrite, long.as_slice()) {
        Err(IpcError::PayloadTooLarge) => {},
        _ => {
            return false;
        },
    }
    let hello: [u8; 5] = [104, 101, 108, 108, 111];
    let world: [u8; 5] = [119, 111, 114, 108, 100];
    assert(hello@ =~= seq![104u8, 101, 108, 108, 111]);
    assert(world@ =~= seq![119u8, 111, 114, 108, 100]);
    let message = match Message::new(RequestKind::ConsoleWrite, hello.as_slice()) {
        Ok(message) => message,
        Err(_) => {
            return false;
        },
    };
    if !talk(&mut table, owner, sender, message) {
        return false;
    }
    let response = match Message::new(RequestKind::ConsoleWrite, world.as_slice()) {
        Ok(message) => message,
        Err(_) => {
            return false;
        },
    };
    call_and_reply(&mut table, owner, sender, message, response) && fill(
        &mut table,
        sender,
        message,
    ) && close_and_replace(&mut table, endpoint, owner, sender, message) && lend()
}

} // verus!
