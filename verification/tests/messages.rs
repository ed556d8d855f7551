use rustix_vkernel::ipc::{
    self, CapabilityId, IpcError, IpcRights, IpcTable, Message, PageLoanId, PageLoanTable,
    ReplyTokenId, RequestKind,
};

fn message(text: &[u8]) -> Message {
    Message::new(RequestKind::ConsoleWrite, text).unwrap()
}

#[test]
fn messages_pass_their_own_test() {
    assert!(ipc::self_test());
}

#[test]
fn kinds_have_numbers_and_names() {
    for opcode in 1..=20 {
        assert_eq!(RequestKind::from_opcode(opcode).unwrap().opcode(), opcode);
    }
    assert_eq!(RequestKind::from_opcode(0), None);
    assert_eq!(RequestKind::from_opcode(21), None);
    assert_eq!(RequestKind::NetPing.as_str(), "icmp_echo");
    assert_eq!(IpcError::QueueFull.message(), "ipc: endpoint queue is full");
}

#[test]
fn what_is_sent_is_received() {
    let mut table = IpcTable::new();
    let (endpoint, owner) = table.create_endpoint(10).unwrap();
    let sender = table.grant(10, owner, 20, IpcRights::SEND).unwrap();
    assert_eq!(table.capability_for(20, endpoint, IpcRights::SEND), Some(sender));
    assert_eq!(table.send(20, sender, message(b"one")), Ok(1));
    assert_eq!(table.send(20, sender, message(b"two")), Ok(2));
    let first = table.receive(10, owner).unwrap();
    assert_eq!((first.id, first.sender, first.message.payload()), (1, 20, &b"one"[..]));
    assert_eq!(first.reply_token, ReplyTokenId::none());
    assert_eq!(table.receive(10, owner).unwrap().message.payload(), b"two");
    assert_eq!(table.receive(10, owner).err(), Some(IpcError::QueueEmpty));
}

#[test]
fn rights_are_held_to() {
    let mut table = IpcTable::new();
    assert_eq!(table.create_endpoint(0).err(), Some(IpcError::InvalidOwner));
    let (_, owner) = table.create_endpoint(10).unwrap();
    let sender = table.grant(10, owner, 20, IpcRights::SEND).unwrap();
    assert_eq!(table.send(30, sender, message(b"x")), Err(IpcError::PermissionDenied));
    assert_eq!(table.receive(20, sender).err(), Some(IpcError::PermissionDenied));
    assert_eq!(
        table.grant(20, sender, 30, IpcRights::SEND).err(),
        Some(IpcError::PermissionDenied)
    );
    assert_eq!(
        table.grant(10, owner, 30, IpcRights::OWNER).err(),
        Some(IpcError::InvalidRights)
    );
    assert_eq!(
        table.send(20, CapabilityId::from_raw(77), message(b"x")),
        Err(IpcError::InvalidCapability)
    );
    assert_eq!(table.send_target(20, sender), Ok(10));
}

#[test]
fn queues_and_tables_are_bounded() {
    let mut table = IpcTable::new();
    let (_, owner) = table.create_endpoint(1).unwrap();
    let sender = table.grant(1, owner, 2, IpcRights::SEND).unwrap();
    for _ in 0..8 {
        assert!(table.send(2, sender, message(b"x")).is_ok());
    }
    assert_eq!(table.send(2, sender, message(b"x")), Err(IpcError::QueueFull));
    for _ in 0..7 {
        assert!(table.create_endpoint(1).is_ok());
    }
    assert_eq!(table.create_endpoint(1).err(), Some(IpcError::EndpointTableFull));
    assert_eq!(
        Message::new(RequestKind::ConsoleWrite, &[0; 193]).err(),
        Some(IpcError::PayloadTooLarge)
    );
    let mut subject = 3;
    while table.grant(1, owner, subject, IpcRights::SEND).is_ok() {
        subject += 1;
    }
    assert_eq!(
        table.grant(1, owner, subject, IpcRights::SEND).err(),
        Some(IpcError::CapabilityTableFull)
    );
}

#[test]
fn refused_calls_leave_no_token() {
    let mut table = IpcTable::new();
    let (_, server) = table.create_endpoint(10).unwrap();
    let (_, client) = table.create_endpoint(20).unwrap();
    let sender = table.grant(10, server, 20, IpcRights::SEND).unwrap();
    for _ in 0..8 {
        assert!(table.send(20, sender, message(b"x")).is_ok());
    }
    for _ in 0..100 {
        let refused = table.call(20, sender, client, message(b"ask"));
        assert_eq!(refused, Err(IpcError::QueueFull));
    }
    assert_eq!(table.receive(10, server).unwrap().id, 1);
    assert_eq!(table.call(20, sender, client, message(b"ask")), Ok(9));
}

#[test]
fn tokens_answer_once() {
    let mut table = IpcTable::new();
    let (_, server) = table.create_endpoint(10).unwrap();
    let (_, client) = table.create_endpoint(20).unwrap();
    let sender = table.grant(10, server, 20, IpcRights::SEND).unwrap();
    assert!(table.call(20, sender, client, message(b"ask")).is_ok());
    let asked = table.receive(10, server).unwrap();
    assert_eq!(table.authorize_reply(20, asked.reply_token), Err(IpcError::PermissionDenied));
    assert!(table.reply(10, asked.reply_token, message(b"answer")).is_ok());
    assert_eq!(
        table.reply(10, asked.reply_token, message(b"again")),
        Err(IpcError::InvalidReplyToken)
    );
    assert_eq!(table.receive(20, client).unwrap().message.payload(), b"answer");
}

#[test]
fn closed_endpoints_are_deaf() {
    let mut table = IpcTable::new();
    let (endpoint, owner) = table.create_endpoint(10).unwrap();
    let sender = table.grant(10, owner, 20, IpcRights::SEND).unwrap();
    assert_eq!(table.close(10, owner), Ok(()));
    assert!(table.send(20, sender, message(b"x")).is_err());
    assert_eq!(table.capability_for(20, endpoint, IpcRights::SEND), None);
    let (_, owner) = table.create_endpoint(11).unwrap();
    let kept = table.grant(11, owner, 20, IpcRights::SEND).unwrap();
    assert_ne!(kept, sender);
    table.remove_subject(20);
    assert!(table.send(20, kept, message(b"x")).is_err());
}

#[test]
fn subjects_that_are_not_kept_lose_their_rights() {
    let mut table = IpcTable::new();
    let (_, owner) = table.create_endpoint(10).unwrap();
    let first = table.grant(10, owner, 20, IpcRights::SEND).unwrap();
    let second = table.grant(10, owner, 30, IpcRights::SEND).unwrap();
    table.retain_subjects(|subject| subject != 20);
    assert!(table.send(20, first, message(b"x")).is_err());
    assert!(table.send(30, second, message(b"x")).is_ok());
}

#[test]
fn loans_reach_their_recipient_once() {
    let mut loans = PageLoanTable::new();
    let frames = [0x1000, 0x2000, 0, 0, 0, 0, 0, 0];
    let id = loans.create(10, 20, frames, 2, 5000).unwrap();
    assert_eq!(loans.get(10, id).err(), Some(IpcError::InvalidPageLoan));
    assert_eq!(loans.get(20, id).unwrap().frame(1), Some(0x2000));
    assert_eq!(loans.consume(20, id).unwrap().length, 5000);
    assert_eq!(loans.consume(20, id).err(), Some(IpcError::InvalidPageLoan));
    assert_eq!(
        loans.create(10, 20, frames, 9, 5000).err(),
        Some(IpcError::InvalidPageRange)
    );
    let kept = loans.create(10, 20, frames, 1, 100).unwrap();
    let message = Message::page_loan(RequestKind::VfsReadFile, kept, 100).unwrap();
    assert_eq!((message.loan(), message.transferred_len()), (kept, 100));
    assert_eq!(loans.drain_subject(20).len(), 1);
    assert_eq!(
        Message::page_loan(RequestKind::VfsReadFile, PageLoanId::none(), 100).err(),
        Some(IpcError::InvalidPageRange)
    );
}
