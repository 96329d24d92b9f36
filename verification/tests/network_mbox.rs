use lib::emu_mailbox::{NetworkMailboxImpl, NetworkMailboxRequester, NetworkMboxIrqEvent, EXECUTE_SET};

/// SRAM size of the emulated network mailbox used by these tests.
const SRAM_SIZE: u32 = 16 * 1024;

fn create_mbox() -> NetworkMailboxImpl {
    NetworkMailboxImpl::new(SRAM_SIZE)
}

#[test]
fn test_network_mbox_lock_acquire() {
    let mut mbox = create_mbox();

    // First lock read should succeed (return 0 = lock acquired)
    let lock_val = mbox.read_network_mbox_lock();
    assert_eq!(lock_val, 0, "First lock read should return 0 (lock acquired)");

    // Second lock read should fail (return non-zero = lock busy)
    let lock_val = mbox.read_network_mbox_lock();
    assert_ne!(lock_val, 0, "Second lock read should return non-zero (lock busy)");
}

#[test]
fn test_network_mbox_cmd_write_read() {
    let mut mbox = create_mbox();

    let lock_val = mbox.read_network_mbox_lock();
    assert_eq!(lock_val, 0, "Lock should be acquired");

    let cmd_val: u32 = 0xDEAD_BEEF;
    mbox.write_network_mbox_cmd(cmd_val);
    let read_back = mbox.read_network_mbox_cmd();
    assert_eq!(read_back, cmd_val, "CMD register should match written value");
}

#[test]
fn test_network_mbox_dlen_write_read() {
    let mut mbox = create_mbox();

    let lock_val = mbox.read_network_mbox_lock();
    assert_eq!(lock_val, 0, "Lock should be acquired");

    let dlen_val: u32 = 256;
    mbox.write_network_mbox_dlen(dlen_val);
    let read_back = mbox.read_network_mbox_dlen();
    assert_eq!(read_back, dlen_val, "DLEN register should match written value");
}

#[test]
fn test_network_mbox_sram_write_read() {
    let mut mbox = create_mbox();

    let lock_val = mbox.read_network_mbox_lock();
    assert_eq!(lock_val, 0, "Lock should be acquired");

    let test_data: [u32; 4] = [0xCAFE_BABE, 0x1234_5678, 0xA5A5_A5A5, 0x0000_FFFF];
    for (i, &val) in test_data.iter().enumerate() {
        mbox.write_network_mbox_sram(val, i);
    }

    for (i, &expected) in test_data.iter().enumerate() {
        let read_back = mbox.read_network_mbox_sram(i);
        assert_eq!(read_back, expected, "SRAM word at index {i} should match written value");
    }
}

#[test]
fn test_network_mbox_target_user_write_read() {
    let mut mbox = create_mbox();

    let lock_val = mbox.read_network_mbox_lock();
    assert_eq!(lock_val, 0, "Lock should be acquired");

    let target_user_val: u32 = 0x42;
    mbox.write_network_mbox_target_user(target_user_val);
    let read_back = mbox.read_network_mbox_target_user();
    assert_eq!(read_back, target_user_val, "target_user register should match written value");
}

#[test]
fn test_network_mbox_full_flow() {
    let mut mbox = create_mbox();

    // 1. Acquire the lock
    let lock_val = mbox.read_network_mbox_lock();
    assert_eq!(lock_val, 0, "Lock should be acquired");

    // 2. Set CMD
    let cmd: u32 = 0x0001;
    mbox.write_network_mbox_cmd(cmd);
    assert_eq!(mbox.read_network_mbox_cmd(), cmd);

    // 3. Set DLEN
    let dlen: u32 = 16; // 4 words
    mbox.write_network_mbox_dlen(dlen);
    assert_eq!(mbox.read_network_mbox_dlen(), dlen);

    // 4. Write payload to SRAM
    let payload: [u32; 4] = [0x11111111, 0x22222222, 0x33333333, 0x44444444];
    for (i, &word) in payload.iter().enumerate() {
        mbox.write_network_mbox_sram(word, i);
    }

    // 5. Verify SRAM contents
    for (i, &expected) in payload.iter().enumerate() {
        assert_eq!(mbox.read_network_mbox_sram(i), expected, "Payload word {i} mismatch");
    }

    // 6. Set execute
    mbox.write_network_mbox_execute(EXECUTE_SET);
    let exec = mbox.read_network_mbox_execute();
    assert_eq!(exec, 1, "Execute should be set");
}

#[test]
fn execute_raises_notification_once() {
    let mut mbox = create_mbox();
    mbox.set_requester(NetworkMailboxRequester::ExternalAgent(7));
    assert_eq!(mbox.read_network_mbox_lock(), 0);
    assert!(mbox.write_network_mbox_execute(EXECUTE_SET));
    assert_eq!(mbox.get_notif_irq(), Some(NetworkMboxIrqEvent::NetworkMboxCmdAvailable));
    assert_eq!(mbox.get_notif_irq(), None);
}

#[test]
fn execute_by_network_raises_nothing() {
    let mut mbox = create_mbox();
    assert_eq!(mbox.read_network_mbox_lock(), 0);
    assert!(!mbox.write_network_mbox_execute(EXECUTE_SET));
    assert_eq!(mbox.get_notif_irq(), None);
}
