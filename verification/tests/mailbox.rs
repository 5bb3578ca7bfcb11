use lib::board::mailbox::{
    does_mbox_response_match, is_mbox_empty, is_mbox_full, mbox_call, mbox_get, mbox_set,
    videocore_mbox, Board, Flags, Mailbox, MboxAction, MboxEvent, MboxPhase, MBOX_RESPONSE,
};

#[test]
fn new_mailbox_is_zero() {
    let m = Mailbox::new();
    assert_eq!(m.to_words(), [0u32; 36]);
}

#[test]
fn get_after_set() {
    let mut m = Mailbox::new();
    mbox_set(&mut m, 3, 77);
    mbox_set(&mut m, 35, 9);
    assert_eq!(mbox_get(&m, 3), 77);
    assert_eq!(mbox_get(&m, 35), 9);
    assert_eq!(mbox_get(&m, 4), 0);
    mbox_set(&mut m, 3, 5);
    assert_eq!(mbox_get(&m, 3), 5);
}

#[test]
fn mailbox_round_trips_words() {
    let mut words = [0u32; 36];
    for (i, w) in words.iter_mut().enumerate() {
        *w = i as u32 * 3;
    }
    let m = Mailbox::from_words(words);
    assert_eq!(m.to_words(), words);
    assert_eq!(mbox_get(&m, 10), 30);
}

#[test]
fn register_addresses() {
    assert_eq!(videocore_mbox(Board::Rpi4), 0xFE00_B880);
    assert_eq!(videocore_mbox(Board::Rpi5), 0x10_7C01_3880);
    assert_eq!(Flags::read(Board::Rpi4), 0xFE00_B880);
    assert_eq!(Flags::status(Board::Rpi4), 0xFE00_B898);
    assert_eq!(Flags::write(Board::Rpi4), 0xFE00_B8A0);
    assert_eq!(Flags::status(Board::Rpi5), 0x10_7C01_3898);
}

#[test]
fn status_bits() {
    assert!(is_mbox_full(0x8000_0000));
    assert!(!is_mbox_full(0x4000_0000));
    assert!(is_mbox_empty(0x4000_0000));
    assert!(!is_mbox_empty(0x8000_0000));
    assert!(does_mbox_response_match(0x1238, 0x1238));
    assert!(!does_mbox_response_match(0x1238, 0x1239));
}

#[test]
fn request_word_carries_address_and_channel() {
    let (call, first) = mbox_call(0x0008_1230, 8);
    assert_eq!(call.request, 0x0008_1238);
    assert_eq!(first, MboxAction::ReadStatus);
    let (call, _) = mbox_call(0x0008_123F, 0x1F);
    assert_eq!(call.request, 0x0008_123F);
    assert_eq!(call.request & 0xF, 0x1F & 0xF);
}

#[test]
fn mailbox_call_handshake_success() {
    let (mut call, a) = mbox_call(0x1000, 8);
    assert_eq!(a, MboxAction::ReadStatus);
    assert_eq!(call.step(MboxEvent::Status(0x8000_0000)), MboxAction::ReadStatus);
    assert_eq!(call.step(MboxEvent::Status(0)), MboxAction::WriteRequest(0x1008));
    assert_eq!(call.step(MboxEvent::Written), MboxAction::ReadStatus);
    assert_eq!(call.step(MboxEvent::Status(0x4000_0000)), MboxAction::ReadStatus);
    assert_eq!(call.step(MboxEvent::Status(0)), MboxAction::ReadResponse);
    // An answer for someone else sends the call back to waiting.
    assert_eq!(call.step(MboxEvent::Response(0x2008)), MboxAction::ReadStatus);
    assert_eq!(call.step(MboxEvent::Status(0)), MboxAction::ReadResponse);
    assert_eq!(call.step(MboxEvent::Response(0x1008)), MboxAction::ReadMailboxWord(1));
    assert_eq!(call.step(MboxEvent::StatusWord(MBOX_RESPONSE)), MboxAction::Complete(true));
    assert_eq!(call.phase, MboxPhase::Done(true));
}

#[test]
fn mailbox_call_handshake_failure() {
    let (mut call, _) = mbox_call(0x1000, 8);
    call.step(MboxEvent::Status(0));
    call.step(MboxEvent::Written);
    call.step(MboxEvent::Status(0));
    call.step(MboxEvent::Response(0x1008));
    assert_eq!(call.step(MboxEvent::StatusWord(0x8000_0001)), MboxAction::Complete(false));
}

#[test]
fn unexpected_event_repeats_pending_action() {
    let (mut call, _) = mbox_call(0x1000, 8);
    assert_eq!(call.step(MboxEvent::Written), MboxAction::ReadStatus);
    assert_eq!(call.phase, MboxPhase::AwaitNotFull);
    call.step(MboxEvent::Status(0));
    assert_eq!(call.step(MboxEvent::Status(0)), MboxAction::WriteRequest(0x1008));
}

#[test]
fn board_set_up_call_uses_property_channel() {
    let mut m = Mailbox::new();
    let (call, first) = lib::board::screen::init_call(&mut m, Board::Rpi4, 0x0008_1230);
    assert_eq!(call.request, 0x0008_1238);
    assert_eq!(call.phase, MboxPhase::AwaitNotFull);
    assert_eq!(first, MboxAction::ReadStatus);
    assert_eq!(mbox_get(&m, 0), 140);
    assert_eq!(mbox_get(&m, 2), 0x48003);
    assert_eq!(mbox_get(&m, 5), 1500);
    assert_eq!(mbox_get(&m, 6), 900);
    assert_eq!(mbox_get(&m, 34), 0);
}

#[test]
fn hdmi_set_up_call_uses_property_channel() {
    let mut m = Mailbox::new();
    let (mut call, first) = lib::motherboards::hdmi::init_call(
        &mut m,
        lib::motherboards::hdmi::DisplayTarget::Emulator,
        0x1000,
    );
    assert_eq!(call.request, 0x1008);
    assert_eq!(first, MboxAction::ReadStatus);
    assert_eq!(mbox_get(&m, 5), 1500);
    assert_eq!(mbox_get(&m, 6), 900);
    assert_eq!(call.step(MboxEvent::Status(0)), MboxAction::WriteRequest(0x1008));
    // Once written, the request is not asked for again.
    assert_eq!(call.step(MboxEvent::Written), MboxAction::ReadStatus);
    assert_eq!(call.step(MboxEvent::Written), MboxAction::ReadStatus);
    assert_eq!(call.step(MboxEvent::Status(0)), MboxAction::ReadResponse);
}
