//! What holds of messages over several calls.
use crate::ipc;
use crate::ipc::{
    Capability, CapabilityId, EndpointId, EndpointView, Envelope, IpcError, IpcRights, IpcView,
    Message, PageLoan, PageLoanId, ReplyToken, ReplyTokenId, RequestKind, Slot,
};
use vstd::prelude::*;

verus! {

/// Two kinds of request have two numbers.
pub proof fn law_opcodes_tell_kinds_apart(a: RequestKind, b: RequestKind)
    requires
        a.spec_opcode() == b.spec_opcode(),
    ensures
        a == b,
        1 <= a.spec_opcode() <= 20,
{
}

/// A handle names the slot and the generation that it was made of.
pub proof fn law_handles_round_trip(index: int, generation: u32, length: int)
    requires
        0 <= index < length < 0xffff_ffff,
        generation >= 1,
    ensures
        ipc::decoded(ipc::encoded(index, generation), length) == Some((index, generation)),
{
    let raw = generation * 0x1_0000_0000 + index + 1;
    assert(raw <= u64::MAX);
    assert(raw / 0x1_0000_0000 == generation && raw % 0x1_0000_0000 == index + 1) by (nonlinear_arith)
        requires
            raw == generation * 0x1_0000_0000 + index + 1,
            0 <= index < 0xffff_fffe,
    ;
}

/// Later slots: no generation is lower, and what left its slot left it in a higher one.
pub open spec fn advanced<T>(before: Seq<Slot<T>>, after: Seq<Slot<T>>) -> bool {
    &&& before.len() == after.len()
    &&& forall|i: int|
        0 <= i < before.len() ==> (#[trigger] after[i]).generation >= before[i].generation
    &&& forall|i: int|
        0 <= i < before.len() && before[i].entry is Some && (#[trigger] after[i]).entry is None
            ==> after[i].generation > before[i].generation
}

/// A handle whose generation has passed.
pub open spec fn passed<T>(slots: Seq<Slot<T>>, raw: u64) -> bool {
    ipc::decoded(raw, slots.len() as int) matches Some((index, generation))
        && slots[index].generation > generation
}

/// A handle whose generation has passed stands for nothing, then and ever after.
pub proof fn law_passed_handles_stay_dead<T>(
    slots: Seq<Slot<T>>,
    later: Seq<Slot<T>>,
    raw: u64,
)
    requires
        passed(slots, raw),
        advanced(slots, later),
    ensures
        ipc::held(slots, raw) is None,
        ipc::held(later, raw) is None,
        passed(later, raw),
{
    let (index, generation) = ipc::decoded(raw, slots.len() as int).unwrap();
    assert(later[index].generation >= slots[index].generation);
}

/// A handle of what has left its slot has passed.
pub proof fn law_revoked_handles_have_passed<T>(
    slots: Seq<Slot<T>>,
    later: Seq<Slot<T>>,
    raw: u64,
)
    requires
        ipc::held(slots, raw) is Some,
        advanced(slots, later),
        later[ipc::decoded(raw, slots.len() as int).unwrap().0].entry is None,
    ensures
        passed(later, raw),
{
}

proof fn lemma_filled<T>(slots: Seq<Slot<T>>, entry: T)
    ensures
        ipc::usable_from(slots, 0) < slots.len() ==> advanced(slots, ipc::filled(slots, entry)),
{
    ipc::lemma_usable(slots, 0);
}

proof fn lemma_swept<T>(slots: Seq<Slot<T>>, gone: spec_fn(T) -> bool)
    requires
        ipc::slots_ok(slots),
    ensures
        advanced(slots, ipc::swept(slots, gone)),
        ipc::slots_ok(ipc::swept(slots, gone)),
{
}

proof fn lemma_advanced_twice<T>(a: Seq<Slot<T>>, b: Seq<Slot<T>>, c: Seq<Slot<T>>)
    requires
        advanced(a, b),
        advanced(b, c),
    ensures
        advanced(a, c),
{
    assert forall|i: int| 0 <= i < a.len() && a[i].entry is Some && (#[trigger] c[i]).entry is None implies c[i].generation
        > a[i].generation by {
        assert(b[i].generation >= a[i].generation);
    }
    assert forall|i: int| 0 <= i < a.len() implies (#[trigger] c[i]).generation
        >= a[i].generation by {
        assert(b[i].generation >= a[i].generation);
    }
}

/// All tables only move on.
pub open spec fn moved_on(before: IpcView, after: IpcView) -> bool {
    &&& advanced(before.endpoints, after.endpoints)
    &&& advanced(before.capabilities, after.capabilities)
    &&& advanced(before.reply_tokens, after.reply_tokens)
}

/// Creating an endpoint and granting a right move the tables on.
pub proof fn law_new_handles_move_on(
    view: IpcView,
    owner: u32,
    authority: CapabilityId,
    subject: u32,
    rights: IpcRights,
)
    requires
        view.wf(),
    ensures
        moved_on(view, ipc::created(view, owner).0),
        moved_on(view, ipc::granted(view, owner, authority, subject, rights).0),
{
    let at = ipc::usable_from(view.endpoints, 0);
    let id = EndpointId(ipc::encoded(at, ipc::active(view.endpoints[at].generation)));
    lemma_filled(view.endpoints, EndpointView::empty(owner));
    lemma_filled(
        view.capabilities,
        Capability { subject: owner, endpoint: id, rights: IpcRights::Owner },
    );
    if let Ok(endpoint) = ipc::resolved(view, owner, authority, IpcRights::Manage) {
        lemma_filled(view.capabilities, Capability { subject, endpoint, rights });
    }
}

proof fn lemma_resolved(
    view: IpcView,
    caller: u32,
    capability: CapabilityId,
    required: IpcRights,
)
    requires
        view.wf(),
        ipc::resolved(view, caller, capability, required) is Ok,
    ensures
        ({
            let id = ipc::resolved(view, caller, capability, required)->Ok_0;
            &&& view.endpoint(id) is Some
            &&& ipc::decoded(id.0, 8) matches Some((index, generation)) && 0 <= index < 8
                && view.endpoints[index].entry is Some && view.endpoints[index].generation
                == generation
        }),
{
}

/// Sending, calling, answering and receiving move the tables on.
pub proof fn law_messages_move_on(
    view: IpcView,
    caller: u32,
    capability: CapabilityId,
    reply_capability: CapabilityId,
    token: ReplyTokenId,
    message: Message,
)
    requires
        view.wf(),
    ensures
        moved_on(view, ipc::sent(view, caller, capability, message).0),
        moved_on(view, ipc::called(view, caller, capability, reply_capability, message).0),
        moved_on(view, ipc::replied(view, caller, token, message).0),
        moved_on(view, ipc::taken(view, caller, capability).0),
{
    let at = ipc::usable_from(view.reply_tokens, 0);
    ipc::lemma_usable(view.reply_tokens, 0);
    if let Ok(destination) = ipc::resolved(view, caller, capability, IpcRights::Send) {
        if let Ok(reply_endpoint) = ipc::resolved(
            view,
            caller,
            reply_capability,
            IpcRights::Receive,
        ) {
            let entry = ReplyToken {
                requester: caller,
                replier: view.endpoint(destination).unwrap().owner,
                reply_endpoint,
            };
            lemma_filled(view.reply_tokens, entry);
        }
    }
}

/// Closing an endpoint and removing a subject move the tables on.
pub proof fn law_removals_move_on(
    view: IpcView,
    caller: u32,
    capability: CapabilityId,
    subject: u32,
)
    requires
        view.wf(),
    ensures
        moved_on(view, ipc::closed_by(view, caller, capability).0),
        moved_on(view, ipc::removed(view, subject)),
{
    if let Ok(endpoint) = ipc::resolved(view, caller, capability, IpcRights::Manage) {
        lemma_swept(view.capabilities, |entry: Capability| entry.endpoint == endpoint);
        lemma_swept(
            view.reply_tokens,
            |entry: ReplyToken| entry.reply_endpoint == endpoint || entry.replier == caller,
        );
    }
    lemma_swept(view.endpoints, |entry: EndpointView| entry.owner == subject);
    lemma_swept(
        view.reply_tokens,
        |entry: ReplyToken| entry.requester == subject || entry.replier == subject,
    );
    lemma_disowned(view, subject, 8);
    let between = ipc::disowned(view.endpoints, view.capabilities, subject, 8);
    let last = ipc::swept(between, |entry: Capability| entry.subject == subject);
    lemma_swept(between, |entry: Capability| entry.subject == subject);
    lemma_advanced_twice(view.capabilities, between, last);
}

proof fn lemma_disowned(view: IpcView, subject: u32, count: nat)
    requires
        view.wf(),
        count <= 8,
    ensures
        advanced(
            view.capabilities,
            ipc::disowned(view.endpoints, view.capabilities, subject, count),
        ),
        ipc::slots_ok(ipc::disowned(view.endpoints, view.capabilities, subject, count)),
    decreases count,
{
    if count > 0 {
        lemma_disowned(view, subject, (count - 1) as nat);
        let before = ipc::disowned(
            view.endpoints,
            view.capabilities,
            subject,
            (count - 1) as nat,
        );
        let slot = view.endpoints[count - 1];
        let id = EndpointId(ipc::encoded(count - 1, slot.generation));
        lemma_swept(before, |entry: Capability| entry.endpoint == id);
        lemma_advanced_twice(
            view.capabilities,
            before,
            ipc::swept(before, |entry: Capability| entry.endpoint == id),
        );
    }
}

/// What was sent is received: the next message of an empty endpoint is the one that was
/// sent to it, with its sender, and without a token for a reply.
pub proof fn law_sent_is_received(
    view: IpcView,
    sender: u32,
    capability: CapabilityId,
    receiver: u32,
    receiver_capability: CapabilityId,
    message: Message,
)
    requires
        view.wf(),
        ipc::resolved(view, sender, capability, IpcRights::Send) is Ok,
        ipc::resolved(view, receiver, receiver_capability, IpcRights::Receive) == ipc::resolved(
            view,
            sender,
            capability,
            IpcRights::Send,
        ),
        view.endpoint(
            ipc::resolved(view, sender, capability, IpcRights::Send)->Ok_0,
        ).unwrap().queue.len() == 0,
        view.endpoint(
            ipc::resolved(view, sender, capability, IpcRights::Send)->Ok_0,
        ).unwrap().next_message_id < u64::MAX,
    ensures
        ({
            let (after, id) = ipc::sent(view, sender, capability, message);
            let (last, envelope) = ipc::taken(after, receiver, receiver_capability);
            &&& id is Ok
            &&& envelope == Ok::<Envelope, IpcError>(
                Envelope { id: id->Ok_0, sender, reply_token: ReplyTokenId(0), message },
            )
        }),
{
    lemma_resolved(view, sender, capability, IpcRights::Send);
    lemma_resolved(view, receiver, receiver_capability, IpcRights::Receive);
}

/// An endpoint hands out messages in the order in which they came, and numbers them so.
pub proof fn law_endpoints_are_queues(
    endpoint: EndpointView,
    sender: u32,
    token: ReplyTokenId,
    message: Message,
)
    requires
        endpoint.queue.len() < 8,
        endpoint.next_message_id < u64::MAX,
    ensures
        ({
            let (after, id) = endpoint.pushed(sender, token, message);
            &&& id == Ok::<u64, IpcError>(endpoint.next_message_id)
            &&& after.next_message_id > endpoint.next_message_id
            &&& endpoint.queue.len() > 0 ==> after.popped().1 == endpoint.popped().1
                && after.popped().0 == endpoint.popped().0.pushed(sender, token, message).0
            &&& endpoint.queue.len() == 0 ==> after.popped().0.queue == endpoint.queue
        }),
{
    let after = endpoint.pushed(sender, token, message).0;
    if endpoint.queue.len() > 0 {
        let other = EndpointView {
            owner: endpoint.owner,
            next_message_id: endpoint.next_message_id,
            queue: endpoint.queue.drop_first(),
        };
        assert(after.popped().0 =~= other.pushed(sender, token, message).0);
    } else {
        assert(after.popped().0.queue =~= endpoint.queue);
    }
}

/// What comes of taking so many messages one after the other: the state, and the messages.
pub open spec fn received(view: IpcView, caller: u32, capability: CapabilityId, count: nat) -> (
    IpcView,
    Seq<Envelope>,
)
    decreases count,
{
    if count == 0 {
        (view, Seq::empty())
    } else {
        let (before, messages) = received(view, caller, capability, (count - 1) as nat);
        match ipc::taken(before, caller, capability) {
            (after, Ok(envelope)) => (after, messages.push(envelope)),
            (after, Err(_)) => (after, messages),
        }
    }
}

/// The messages of an endpoint are received in the order in which they wait, which is that of
/// their numbers, none of them twice and none left out. Once there are none left, that is
/// said, and nothing changes.
pub proof fn law_messages_are_received_in_order(
    view: IpcView,
    caller: u32,
    capability: CapabilityId,
    count: nat,
)
    requires
        view.wf(),
        ipc::resolved(view, caller, capability, IpcRights::Receive) is Ok,
        count <= view.endpoint(
            ipc::resolved(view, caller, capability, IpcRights::Receive)->Ok_0,
        ).unwrap().queue.len(),
    ensures
        ({
            let id = ipc::resolved(view, caller, capability, IpcRights::Receive)->Ok_0;
            let queue = view.endpoint(id).unwrap().queue;
            let (after, messages) = received(view, caller, capability, count);
            let next = ipc::taken(after, caller, capability);
            &&& after.wf()
            &&& messages == queue.take(count as int)
            &&& forall|a: int, b: int|
                0 <= a < b < messages.len() ==> (#[trigger] messages[a]).id < (
                #[trigger] messages[b]).id
            &&& after == view.with_endpoint(
                id,
                EndpointView { queue: queue.skip(count as int), ..view.endpoint(id).unwrap() },
            )
            &&& next.1 == (if count < queue.len() {
                Ok::<Envelope, IpcError>(queue[count as int])
            } else {
                Err(IpcError::QueueEmpty)
            })
            &&& count == queue.len() ==> next.0 == after
        }),
    decreases count,
{
    let id = ipc::resolved(view, caller, capability, IpcRights::Receive)->Ok_0;
    lemma_resolved(view, caller, capability, IpcRights::Receive);
    let queue = view.endpoint(id).unwrap().queue;
    let index = ipc::decoded(id.0, 8).unwrap().0;
    let (after, messages) = received(view, caller, capability, count);
    if count > 0 {
        law_messages_are_received_in_order(view, caller, capability, (count - 1) as nat);
        let (before, fewer) = received(view, caller, capability, (count - 1) as nat);
        assert(before.endpoint(id).unwrap().queue =~= queue.skip(count - 1));
        assert(queue.skip(count - 1).drop_first() =~= queue.skip(count as int));
        assert(queue.take(count - 1).push(queue[count - 1]) =~= queue.take(count as int));
        assert(before.endpoint(id) is Some);
        assert(ipc::resolved(before, caller, capability, IpcRights::Receive) == ipc::resolved(
            view,
            caller,
            capability,
            IpcRights::Receive,
        ));
        assert(after =~= view.with_endpoint(
            id,
            EndpointView { queue: queue.skip(count as int), ..view.endpoint(id).unwrap() },
        ));
    } else {
        assert(queue.take(0) =~= Seq::<Envelope>::empty());
        assert(queue.skip(0) =~= queue);
        assert(after =~= view.with_endpoint(
            id,
            EndpointView { queue: queue.skip(0), ..view.endpoint(id).unwrap() },
        ));
    }
    assert(after.endpoint(id).unwrap().queue == queue.skip(count as int));
    assert(ipc::resolved(after, caller, capability, IpcRights::Receive) == ipc::resolved(
        view,
        caller,
        capability,
        IpcRights::Receive,
    ));
    let rest = queue.skip(count as int);
    assert forall|a: int, b: int| 0 <= a < b < rest.len() implies (#[trigger] rest[a]).id < (
    #[trigger] rest[b]).id by {
        assert(queue[a + count].id < queue[b + count].id);
    }
    assert forall|a: int| 0 <= a < rest.len() implies (#[trigger] rest[a]).id < view.endpoint(
        id,
    ).unwrap().next_message_id by {
        assert(queue[a + count].id < view.endpoint(id).unwrap().next_message_id);
    }
    if count == queue.len() {
        assert(ipc::taken(after, caller, capability).0 =~= after);
    }
}

/// A token answers once: after a reply arrived, no reply with the same token does.
pub proof fn law_tokens_answer_once(
    view: IpcView,
    caller: u32,
    token: ReplyTokenId,
    message: Message,
    other: u32,
    second: Message,
)
    requires
        view.wf(),
        ipc::replied(view, caller, token, message).1 is Ok,
    ensures
        ipc::replied(ipc::replied(view, caller, token, message).0, other, token, second).1 == Err::<
            u64,
            IpcError,
        >(IpcError::InvalidReplyToken),
{
    let index = ipc::decoded(token.0, 32).unwrap().0;
    assert(view.reply_tokens[index].entry is Some);
}

/// A reply goes back: the answer to a call reaches the endpoint that the caller named.
pub proof fn law_replies_reach_the_caller(
    view: IpcView,
    caller: u32,
    token: ReplyTokenId,
    message: Message,
)
    requires
        view.wf(),
        ipc::replied(view, caller, token, message).1 is Ok,
    ensures
        ({
            let entry = ipc::held(view.reply_tokens, token.0).unwrap();
            let (after, id) = ipc::replied(view, caller, token, message);
            &&& entry.replier == caller
            &&& after.endpoint(entry.reply_endpoint) is Some
            &&& after.endpoint(entry.reply_endpoint).unwrap().queue == view.endpoint(
                entry.reply_endpoint,
            ).unwrap().queue.push(
                Envelope {
                    id: id->Ok_0,
                    sender: caller,
                    reply_token: ReplyTokenId(0),
                    message,
                },
            )
        }),
{
}

/// A closed endpoint takes no more messages: no capability for it is left.
pub proof fn law_closed_endpoints_are_deaf(
    view: IpcView,
    owner: u32,
    owner_capability: CapabilityId,
    sender: u32,
    capability: CapabilityId,
    message: Message,
)
    requires
        view.wf(),
        ipc::closed_by(view, owner, owner_capability).1 is Ok,
        ipc::held(view.capabilities, capability.0) is Some,
        ipc::held(view.capabilities, capability.0).unwrap().endpoint == ipc::resolved(
            view,
            owner,
            owner_capability,
            IpcRights::Manage,
        )->Ok_0,
    ensures
        ({
            let after = ipc::closed_by(view, owner, owner_capability).0;
            &&& ipc::sent(after, sender, capability, message) == (
                after,
                Err::<u64, IpcError>(IpcError::InvalidCapability),
            )
            &&& passed(after.capabilities, capability.0)
        }),
{
    let index = ipc::decoded(capability.0, 64).unwrap().0;
    assert(view.capabilities[index].entry is Some);
}

/// Who was granted the right to send can send.
pub proof fn law_grants_let_send(
    view: IpcView,
    owner: u32,
    authority: CapabilityId,
    subject: u32,
)
    requires
        view.wf(),
        ipc::granted(view, owner, authority, subject, IpcRights::Send).1 is Ok,
    ensures
        ({
            let (after, id) = ipc::granted(view, owner, authority, subject, IpcRights::Send);
            ipc::resolved(after, subject, id->Ok_0, IpcRights::Send) == ipc::resolved(
                view,
                owner,
                authority,
                IpcRights::Manage,
            )
        }),
{
    let endpoint = ipc::resolved(view, owner, authority, IpcRights::Manage)->Ok_0;
    let (after, id) = ipc::granted(view, owner, authority, subject, IpcRights::Send);
    match ipc::capability_found(view, subject, endpoint, IpcRights::Send) {
        Some(_) => {
            let at = ipc::giving_from(view.capabilities, subject, endpoint, IpcRights::Send, 0);
            lemma_giving(view.capabilities, subject, endpoint, IpcRights::Send, 0);
            assert(view.capabilities[at].entry is Some);
            law_handles_round_trip(at, view.capabilities[at].generation, 64);
        },
        None => {
            let at = ipc::usable_from(view.capabilities, 0);
            ipc::lemma_usable(view.capabilities, 0);
            law_handles_round_trip(at, ipc::active(view.capabilities[at].generation), 64);
        },
    }
}

proof fn lemma_giving(
    slots: Seq<Slot<Capability>>,
    subject: u32,
    endpoint: EndpointId,
    rights: IpcRights,
    from: int,
)
    requires
        0 <= from <= slots.len(),
    ensures
        from <= ipc::giving_from(slots, subject, endpoint, rights, from) <= slots.len(),
        ipc::giving_from(slots, subject, endpoint, rights, from) < slots.len() ==> ipc::gives(
            slots[ipc::giving_from(slots, subject, endpoint, rights, from)],
            subject,
            endpoint,
            rights,
        ),
    decreases slots.len() - from,
{
    if from < slots.len() && !ipc::gives(slots[from], subject, endpoint, rights) {
        lemma_giving(slots, subject, endpoint, rights, from + 1);
    }
}

/// A loan is seen by its recipient alone, with the pages that were lent.
pub proof fn law_loans_reach_their_recipient(
    slots: Seq<Slot<PageLoan>>,
    loan: PageLoan,
    other: u32,
)
    requires
        ipc::loans_ok(slots),
        ipc::lent(slots, loan).1 is Ok,
    ensures
        ({
            let (after, id) = ipc::lent(slots, loan);
            &&& ipc::borrowed(after, loan.recipient, id->Ok_0) == Ok::<PageLoan, IpcError>(loan)
            &&& other != loan.recipient ==> ipc::borrowed(after, other, id->Ok_0) == Err::<
                PageLoan,
                IpcError,
            >(IpcError::InvalidPageLoan)
        }),
{
    ipc::lemma_usable(slots, 0);
    let at = ipc::usable_from(slots, 0);
    law_handles_round_trip(at, ipc::active(slots[at].generation), 16);
}

/// A loan that was consumed is gone.
pub proof fn law_loans_are_consumed_once(
    slots: Seq<Slot<PageLoan>>,
    recipient: u32,
    id: PageLoanId,
    other: u32,
)
    requires
        ipc::loans_ok(slots),
        ipc::borrowed(slots, recipient, id) is Ok,
    ensures
        ({
            let index = ipc::decoded(id.0, 16).unwrap().0;
            ipc::borrowed(slots.update(index, ipc::emptied(slots[index])), other, id) == Err::<
                PageLoan,
                IpcError,
            >(IpcError::InvalidPageLoan)
        }),
{
    let index = ipc::decoded(id.0, 16).unwrap().0;
    assert(slots[index].entry is Some);
}

/// How often a slot that is free can still be used.
pub open spec fn uses_left<T>(slot: Slot<T>) -> nat {
    if slot.entry is None {
        (u32::MAX - ipc::active(slot.generation)) as nat
    } else {
        0
    }
}

/// How often the first slots that are free can still be used.
pub open spec fn spare<T>(slots: Seq<Slot<T>>, count: nat) -> nat
    decreases count,
{
    if count == 0 {
        0
    } else {
        spare(slots, (count - 1) as nat) + uses_left(slots[count - 1])
    }
}

/// The state after one call for each of the messages.
pub open spec fn called_often(
    view: IpcView,
    caller: u32,
    capability: CapabilityId,
    reply_capability: CapabilityId,
    messages: Seq<Message>,
) -> IpcView
    decreases messages.len(),
{
    if messages.len() == 0 {
        view
    } else {
        ipc::called(
            called_often(view, caller, capability, reply_capability, messages.drop_last()),
            caller,
            capability,
            reply_capability,
            messages.last(),
        ).0
    }
}

proof fn lemma_spare_holds<T>(slots: Seq<Slot<T>>, count: nat, at: int)
    requires
        count <= slots.len(),
        0 <= at < count,
    ensures
        spare(slots, count) >= uses_left(slots[at]),
    decreases count,
{
    if at < count - 1 {
        lemma_spare_holds(slots, (count - 1) as nat, at);
    }
}

proof fn lemma_spare_none<T>(slots: Seq<Slot<T>>, count: nat)
    requires
        count <= slots.len(),
        forall|i: int| 0 <= i < count ==> uses_left(#[trigger] slots[i]) == 0,
    ensures
        spare(slots, count) == 0,
    decreases count,
{
    if count > 0 {
        lemma_spare_none(slots, (count - 1) as nat);
    }
}

proof fn lemma_spare_update<T>(slots: Seq<Slot<T>>, count: nat, at: int, slot: Slot<T>)
    requires
        count <= slots.len(),
        0 <= at < slots.len(),
    ensures
        spare(slots.update(at, slot), count) + (if at < count {
            uses_left(slots[at])
        } else {
            0
        }) == spare(slots, count) + (if at < count {
            uses_left(slot)
        } else {
            0
        }),
    decreases count,
{
    if count > 0 {
        lemma_spare_update(slots, (count - 1) as nat, at, slot);
    }
}

/// A call to an endpoint whose queue is full is refused: nothing is sent, and no token stays,
/// but the slot that the token had can be used once less. Where no slot can be used, the call
/// is refused for that.
pub proof fn law_refused_call_leaves_no_token(
    view: IpcView,
    caller: u32,
    capability: CapabilityId,
    reply_capability: CapabilityId,
    message: Message,
)
    requires
        view.wf(),
        ipc::resolved(view, caller, reply_capability, IpcRights::Receive) is Ok,
        ipc::resolved(view, caller, capability, IpcRights::Send) matches Ok(destination)
            && view.endpoint(destination).unwrap().queue.len() == 8,
    ensures
        ({
            let (after, result) = ipc::called(view, caller, capability, reply_capability, message);
            let left = spare(view.reply_tokens, 32);
            &&& result == Err::<u64, IpcError>(
                if left > 0 {
                    IpcError::QueueFull
                } else {
                    IpcError::ReplyTokenTableFull
                },
            )
            &&& after.wf()
            &&& after == (IpcView { reply_tokens: after.reply_tokens, ..view })
            &&& forall|i: int|
                0 <= i < 32 ==> (#[trigger] after.reply_tokens[i]).entry
                    == view.reply_tokens[i].entry
            &&& spare(after.reply_tokens, 32) == (if left > 0 {
                left - 1
            } else {
                0
            })
        }),
{
    let slots = view.reply_tokens;
    let at = ipc::usable_from(slots, 0);
    let after = ipc::called(view, caller, capability, reply_capability, message).0;
    ipc::lemma_usable(slots, 0);
    if at < 32 {
        lemma_spare_holds(slots, 32, at);
        let used = Slot {
            generation: (ipc::active(slots[at].generation) + 1) as u32,
            entry: None::<ReplyToken>,
        };
        lemma_spare_update(slots, 32, at, used);
        assert(after.reply_tokens =~= slots.update(at, used));
    } else {
        assert forall|i: int| 0 <= i < 32 implies uses_left(#[trigger] slots[i]) == 0 by {
            assert(slots[i].entry is Some || slots[i].generation == u32::MAX);
        }
        lemma_spare_none(slots, 32);
    }
}

/// However many calls to an endpoint with a full queue are refused in a row, they leave the
/// queue as it was and no token behind, and the next is refused for the queue as long as the
/// slots of tokens can be used at all; a slot that is free can be used as often as it has
/// generations left.
pub proof fn law_refused_calls_leave_no_token(
    view: IpcView,
    caller: u32,
    capability: CapabilityId,
    reply_capability: CapabilityId,
    messages: Seq<Message>,
    next: Message,
)
    requires
        view.wf(),
        ipc::resolved(view, caller, reply_capability, IpcRights::Receive) is Ok,
        ipc::resolved(view, caller, capability, IpcRights::Send) matches Ok(destination)
            && view.endpoint(destination).unwrap().queue.len() == 8,
    ensures
        ({
            let after = called_often(view, caller, capability, reply_capability, messages);
            let left = spare(view.reply_tokens, 32);
            &&& after.wf()
            &&& after == (IpcView { reply_tokens: after.reply_tokens, ..view })
            &&& forall|i: int|
                0 <= i < 32 ==> (#[trigger] after.reply_tokens[i]).entry
                    == view.reply_tokens[i].entry
            &&& spare(after.reply_tokens, 32) == (if left > messages.len() {
                left - messages.len()
            } else {
                0
            })
            &&& ipc::called(after, caller, capability, reply_capability, next).1 == Err::<
                u64,
                IpcError,
            >(
                if left > messages.len() {
                    IpcError::QueueFull
                } else {
                    IpcError::ReplyTokenTableFull
                },
            )
            &&& forall|i: int|
                0 <= i < 32 && (#[trigger] view.reply_tokens[i]).entry is None ==> left
                    >= u32::MAX - ipc::active(view.reply_tokens[i].generation)
        }),
    decreases messages.len(),
{
    let after = called_often(view, caller, capability, reply_capability, messages);
    assert forall|i: int|
        0 <= i < 32 && (#[trigger] view.reply_tokens[i]).entry is None implies spare(
        view.reply_tokens,
        32,
    ) >= u32::MAX - ipc::active(view.reply_tokens[i].generation) by {
        lemma_spare_holds(view.reply_tokens, 32, i);
    }
    if messages.len() > 0 {
        let before = messages.drop_last();
        let middle = called_often(view, caller, capability, reply_capability, before);
        law_refused_calls_leave_no_token(
            view,
            caller,
            capability,
            reply_capability,
            before,
            messages.last(),
        );
        law_refused_call_leaves_no_token(
            middle,
            caller,
            capability,
            reply_capability,
            messages.last(),
        );
        assert forall|i: int| 0 <= i < 32 implies (#[trigger] after.reply_tokens[i]).entry
            == view.reply_tokens[i].entry by {
            assert(middle.reply_tokens[i].entry == view.reply_tokens[i].entry);
        }
    }
    law_refused_call_leaves_no_token(after, caller, capability, reply_capability, next);
}

} // verus!
