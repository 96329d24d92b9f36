//! Register-level model of the network mailbox as the emulator presents it
//! to the network coprocessor: lock acquisition on read, data-length
//! tracking, notification on execute and on target completion, and SRAM
//! zeroization when the lock is released.

use vstd::prelude::*;

verus! {

broadcast use vstd::seq::group_seq_axioms;

/// Value of the execute register that starts a command.
pub const EXECUTE_SET: u32 = 1;

/// Value of the execute register that releases the lock.
pub const EXECUTE_CLEAR: u32 = 0;

/// Done bit of the target-status register.
pub const TARGET_STATUS_DONE: u32 = 0x10;

/// User value of the network coprocessor itself.
pub const NETWORK_USER: u32 = 0xFFFF_FFFF;

/// Events that the mailbox signals to the network coprocessor.
#[derive(Clone, Copy, Debug, Eq, PartialEq, Structural)]
pub enum NetworkMboxIrqEvent {
    NetworkMboxCmdAvailable,
    NetworkMboxTargetDone,
}

/// Agent that takes the mailbox lock.
#[derive(Clone, Copy, Debug, Eq, PartialEq, Structural)]
pub enum NetworkMailboxRequester {
    Network,
    ExternalAgent(u32),
}

/// The user-register value of a requester.
pub open spec fn requester_value(r: NetworkMailboxRequester) -> u32 {
    match r {
        NetworkMailboxRequester::Network => NETWORK_USER,
        NetworkMailboxRequester::ExternalAgent(id) => id,
    }
}

/// The requester named by a user-register value.
pub open spec fn requester_of(v: u32) -> NetworkMailboxRequester {
    if v == NETWORK_USER {
        NetworkMailboxRequester::Network
    } else {
        NetworkMailboxRequester::ExternalAgent(v)
    }
}

impl NetworkMailboxRequester {
    pub fn to_u32(self) -> (v: u32)
        ensures
            v == requester_value(self),
    {
        match self {
            NetworkMailboxRequester::Network => NETWORK_USER,
            NetworkMailboxRequester::ExternalAgent(id) => id,
        }
    }

    pub fn from_u32(v: u32) -> (r: Self)
        ensures
            r == requester_of(v),
    {
        if v == NETWORK_USER {
            NetworkMailboxRequester::Network
        } else {
            NetworkMailboxRequester::ExternalAgent(v)
        }
    }
}

/// A register value decodes to the requester it was encoded from, except an
/// external agent whose ID is the network coprocessor's own user value.
pub proof fn lemma_requester_round_trip(r: NetworkMailboxRequester, v: u32)
    ensures
        requester_value(requester_of(v)) == v,
        r != NetworkMailboxRequester::ExternalAgent(NETWORK_USER) ==> requester_of(requester_value(r)) == r,
{
}

/// Abstract state of the mailbox: registers, SRAM words and notification state.
pub ghost struct MailboxView {
    pub sram: Seq<u32>,
    pub sram_size: u32,
    pub lock: u32,
    pub user: u32,
    pub target_user: u32,
    pub target_user_valid: u32,
    pub cmd: u32,
    pub dlen: u32,
    pub execute: u32,
    pub target_status: u32,
    pub cmd_status: u32,
    pub hw_status: u32,
    pub requester: NetworkMailboxRequester,
    pub max_dlen_in_lock_session: nat,
    pub irq: bool,
    pub last_irq_event: Option<NetworkMboxIrqEvent>,
}

/// The mailbox after a lock release: the SRAM words written in the lock
/// session are zero, every register is zero and the lock is free.
pub open spec fn zeroized(v: MailboxView) -> MailboxView {
    let words = (v.max_dlen_in_lock_session + 3) / 4;
    MailboxView {
        sram: Seq::new(v.sram.len(), |i: int| if i < words { 0u32 } else { v.sram[i] }),
        lock: 0,
        user: 0,
        target_user: 0,
        target_user_valid: 0,
        cmd: 0,
        dlen: 0,
        execute: 0,
        target_status: 0,
        cmd_status: 0,
        hw_status: 0,
        max_dlen_in_lock_session: 0,
        last_irq_event: None,
        ..v
    }
}

/// A read of the lock register: a free lock is taken (the read returns 0
/// and the requester becomes the user); a taken lock reads as its value.
pub open spec fn lock_read_step(v: MailboxView) -> (u32, MailboxView) {
    if v.lock == 0 {
        (0, MailboxView { user: requester_value(v.requester), lock: 1, max_dlen_in_lock_session: 0, ..v })
    } else {
        (v.lock, v)
    }
}

/// A write of the execute register, and whether it raises an event.
pub open spec fn execute_write_step(v: MailboxView, val: u32) -> (bool, MailboxView) {
    if val == EXECUTE_SET {
        if v.user != NETWORK_USER {
            (
                true,
                MailboxView {
                    execute: val,
                    irq: true,
                    last_irq_event: Some(NetworkMboxIrqEvent::NetworkMboxCmdAvailable),
                    ..v
                },
            )
        } else {
            (false, MailboxView { execute: val, ..v })
        }
    } else if val == EXECUTE_CLEAR {
        (false, zeroized(v))
    } else {
        (false, MailboxView { execute: val, ..v })
    }
}

/// A write of the target-status register, and whether it raises an event
/// (on a rising done bit).
pub open spec fn target_status_write_step(v: MailboxView, val: u32) -> (bool, MailboxView) {
    if v.target_status & TARGET_STATUS_DONE == 0 && val & TARGET_STATUS_DONE != 0 {
        (
            true,
            MailboxView {
                target_status: val,
                irq: true,
                last_irq_event: Some(NetworkMboxIrqEvent::NetworkMboxTargetDone),
                ..v
            },
        )
    } else {
        (false, MailboxView { target_status: val, ..v })
    }
}

/// Taking the pending notification.
pub open spec fn take_irq_step(v: MailboxView) -> (Option<NetworkMboxIrqEvent>, MailboxView) {
    if v.irq {
        (v.last_irq_event, MailboxView { irq: false, last_irq_event: None, ..v })
    } else {
        (None, v)
    }
}

/// The lock excludes: reading a free lock takes it and returns 0, and a
/// further read returns non-zero and changes nothing.
pub proof fn lemma_lock_exclusive(v: MailboxView)
    requires
        v.lock == 0,
    ensures
        lock_read_step(v).0 == 0,
        lock_read_step(lock_read_step(v).1).0 != 0,
        lock_read_step(lock_read_step(v).1).1 == lock_read_step(v).1,
{
}

/// Clearing execute releases and wipes the mailbox: the lock is free,
/// every register reads zero, every SRAM word up to the largest data length
/// of the lock session is zero, and a following lock read succeeds.
pub proof fn lemma_release_wipes(v: MailboxView)
    ensures
        ({
            let w = execute_write_step(v, EXECUTE_CLEAR).1;
            &&& w.lock == 0 && w.user == 0 && w.cmd == 0 && w.dlen == 0 && w.execute == 0
            &&& w.target_user == 0 && w.target_user_valid == 0
            &&& w.target_status == 0 && w.cmd_status == 0 && w.hw_status == 0
            &&& w.sram.len() == v.sram.len()
            &&& forall|i: int|
                0 <= i < w.sram.len() && i * 4 < v.max_dlen_in_lock_session ==> w.sram[i] == 0
            &&& lock_read_step(w).0 == 0
        }),
{
    let w = execute_write_step(v, EXECUTE_CLEAR).1;
    assert forall|i: int|
        0 <= i < w.sram.len() && i * 4 < v.max_dlen_in_lock_session implies w.sram[i] == 0 by {
        assert(i < (v.max_dlen_in_lock_session + 3) / 4);
    }
}

/// After the warm-reset sequence (lock, data length set to the whole SRAM,
/// execute cleared) every SRAM word is zero and the lock is free.
pub proof fn lemma_reset_wipes_all(v: MailboxView)
    requires
        v.sram_size % 4 == 0,
        v.sram.len() == v.sram_size / 4,
        v.lock == 0,
    ensures
        ({
            let w = execute_write_step(
                MailboxView {
                    dlen: v.sram_size,
                    max_dlen_in_lock_session: v.sram_size as nat,
                    ..lock_read_step(v).1
                },
                EXECUTE_CLEAR,
            ).1;
            &&& w.lock == 0
            &&& w.sram == Seq::new(v.sram.len(), |i: int| 0u32)
        }),
{
    let w = execute_write_step(
        MailboxView {
            dlen: v.sram_size,
            max_dlen_in_lock_session: v.sram_size as nat,
            ..lock_read_step(v).1
        },
        EXECUTE_CLEAR,
    ).1;
    assert(w.sram =~= Seq::new(v.sram.len(), |i: int| 0u32));
}

/// A notification is delivered once: after it is taken, nothing is pending.
pub proof fn lemma_irq_delivered_once(v: MailboxView)
    ensures
        take_irq_step(take_irq_step(v).1).0 is None,
        take_irq_step(v).0 == (if v.irq { v.last_irq_event } else { None }),
{
}

/// Setting execute notifies the coprocessor exactly when an external agent
/// holds the lock; a rising done bit always notifies, a done bit that was
/// already set does not.
pub proof fn lemma_notifications(v: MailboxView, val: u32)
    ensures
        execute_write_step(v, EXECUTE_SET).0 == (v.user != NETWORK_USER),
        execute_write_step(v, EXECUTE_SET).0 ==> take_irq_step(execute_write_step(v, EXECUTE_SET).1).0
            == Some(NetworkMboxIrqEvent::NetworkMboxCmdAvailable),
        v.target_status & TARGET_STATUS_DONE == 0 && val & TARGET_STATUS_DONE != 0 ==> take_irq_step(
            target_status_write_step(v, val).1,
        ).0 == Some(NetworkMboxIrqEvent::NetworkMboxTargetDone),
        v.target_status & TARGET_STATUS_DONE != 0 ==> !target_status_write_step(v, val).0,
{
}

/// Emulated network mailbox registers and SRAM.
pub struct NetworkMailboxImpl {
    sram: Vec<u32>,
    sram_size: u32,
    lock: u32,
    user: u32,
    target_user: u32,
    target_user_valid: u32,
    cmd: u32,
    dlen: u32,
    execute: u32,
    target_status: u32,
    cmd_status: u32,
    hw_status: u32,
    pub requester: NetworkMailboxRequester,
    max_dlen_in_lock_session: usize,
    irq: bool,
    last_irq_event: Option<NetworkMboxIrqEvent>,
}

impl View for NetworkMailboxImpl {
    type V = MailboxView;

    closed spec fn view(&self) -> MailboxView {
        MailboxView {
            sram: self.sram@,
            sram_size: self.sram_size,
            lock: self.lock,
            user: self.user,
            target_user: self.target_user,
            target_user_valid: self.target_user_valid,
            cmd: self.cmd,
            dlen: self.dlen,
            execute: self.execute,
            target_status: self.target_status,
            cmd_status: self.cmd_status,
            hw_status: self.hw_status,
            requester: self.requester,
            max_dlen_in_lock_session: self.max_dlen_in_lock_session as nat,
            irq: self.irq,
            last_irq_event: self.last_irq_event,
        }
    }
}

impl NetworkMailboxImpl {
    /// The SRAM holds `sram_size / 4` words, and the longest data length of
    /// the lock session fits in it.
    pub open spec fn wf(&self) -> bool {
        &&& self@.sram_size % 4 == 0
        &&& self@.sram.len() == self@.sram_size / 4
        &&& self@.max_dlen_in_lock_session <= self@.sram_size
    }

    /// A mailbox with `sram_size_bytes` bytes of zeroed SRAM, all registers
    /// zero and the network coprocessor as requester.
    pub fn new(sram_size_bytes: u32) -> (r: Self)
        requires
            sram_size_bytes % 4 == 0,
        ensures
            r.wf(),
            r@ == (MailboxView {
                sram: Seq::new((sram_size_bytes / 4) as nat, |i: int| 0u32),
                sram_size: sram_size_bytes,
                lock: 0,
                user: 0,
                target_user: 0,
                target_user_valid: 0,
                cmd: 0,
                dlen: 0,
                execute: 0,
                target_status: 0,
                cmd_status: 0,
                hw_status: 0,
                requester: NetworkMailboxRequester::Network,
                max_dlen_in_lock_session: 0,
                irq: false,
                last_irq_event: None,
            }),
    {
        let words = sram_size_bytes / 4;
        let mut sram: Vec<u32> = Vec::new();
        let mut i: u32 = 0;
        while i < words
            invariant
                i <= words,
                sram@ == Seq::new(i as nat, |k: int| 0u32),
            decreases words - i,
        {
            sram.push(0);
            i = i + 1;
            assert(sram@ =~= Seq::new(i as nat, |k: int| 0u32));
        }
        NetworkMailboxImpl {
            sram,
            sram_size: sram_size_bytes,
            lock: 0,
            user: 0,
            target_user: 0,
            target_user_valid: 0,
            cmd: 0,
            dlen: 0,
            execute: 0,
            target_status: 0,
            cmd_status: 0,
            hw_status: 0,
            requester: NetworkMailboxRequester::Network,
            max_dlen_in_lock_session: 0,
            irq: false,
            last_irq_event: None,
        }
    }

    pub fn set_requester(&mut self, requester: NetworkMailboxRequester)
        ensures
            final(self)@ == (MailboxView { requester, ..old(self)@ }),
    {
        self.requester = requester;
    }

    pub fn is_locked(&self) -> (r: bool)
        ensures
            r == (self@.lock != 0),
    {
        self.lock != 0
    }

    pub fn lock(&mut self)
        ensures
            final(self)@ == (MailboxView { lock: 1, ..old(self)@ }),
    {
        self.lock = 1;
    }

    /// Releases the lock: zeroes the SRAM words written during the lock
    /// session and clears every register.
    pub fn mailbox_zeroization(&mut self)
        requires
            old(self).wf(),
        ensures
            final(self).wf(),
            final(self)@ == zeroized(old(self)@),
    {
        let ghost v0 = self@;
        let dlen = self.max_dlen_in_lock_session;
        let words = dlen / 4 + if dlen % 4 == 0 {
            0
        } else {
            1
        };
        assert(words == (dlen + 3) / 4);
        let mut idx: usize = 0;
        while idx < words
            invariant
                words == (v0.max_dlen_in_lock_session + 3) / 4,
                v0.max_dlen_in_lock_session <= v0.sram_size,
                v0.sram_size % 4 == 0,
                self.sram@.len() == v0.sram.len(),
                v0.sram.len() == v0.sram_size / 4,
                self@ == (MailboxView { sram: self@.sram, ..v0 }),
                idx <= words,
                forall|i: int|
                    0 <= i < self.sram@.len() ==> self.sram@[i] == (if i < idx {
                        0u32
                    } else {
                        v0.sram[i]
                    }),
            decreases words - idx,
        {
            self.sram.set(idx, 0);
            idx = idx + 1;
        }
        self.target_user = 0;
        self.target_user_valid = 0;
        self.cmd = 0;
        self.dlen = 0;
        self.execute = 0;
        self.target_status = 0;
        self.cmd_status = 0;
        self.hw_status = 0;
        self.last_irq_event = None;
        self.max_dlen_in_lock_session = 0;
        self.user = 0;
        self.lock = 0;
        assert(self.sram@ =~= zeroized(v0).sram);
    }

    pub fn read_network_mbox_sram(&self, index: usize) -> (v: u32)
        requires
            self.wf(),
            index < self@.sram_size / 4,
        ensures
            v == self@.sram[index as int],
    {
        self.sram[index]
    }

    /// Stores a word; only the lock holder may write.
    pub fn write_network_mbox_sram(&mut self, val: u32, index: usize)
        requires
            old(self).wf(),
            old(self)@.lock != 0,
            index < old(self)@.sram_size / 4,
        ensures
            final(self).wf(),
            final(self)@ == (MailboxView { sram: old(self)@.sram.update(index as int, val), ..old(self)@ }),
    {
        self.sram.set(index, val);
    }

    /// Reading the lock register takes a free lock (returning 0 and
    /// recording the requester as user); a taken lock reads as its value.
    pub fn read_network_mbox_lock(&mut self) -> (r: u32)
        ensures
            (r, final(self)@) == lock_read_step(old(self)@),
    {
        if self.lock == 0 {
            self.user = self.requester.to_u32();
            self.lock = 1;
            self.max_dlen_in_lock_session = 0;
            0
        } else {
            self.lock
        }
    }

    pub fn read_network_mbox_user(&self) -> (v: u32)
        ensures
            v == self@.user,
    {
        self.user
    }

    pub fn read_network_mbox_target_user(&self) -> (v: u32)
        ensures
            v == self@.target_user,
    {
        self.target_user
    }

    pub fn write_network_mbox_target_user(&mut self, val: u32)
        requires
            old(self)@.lock != 0,
        ensures
            final(self)@ == (MailboxView { target_user: val, ..old(self)@ }),
    {
        self.target_user = val;
    }

    pub fn read_network_mbox_target_user_valid(&self) -> (v: u32)
        ensures
            v == self@.target_user_valid,
    {
        self.target_user_valid
    }

    pub fn write_network_mbox_target_user_valid(&mut self, val: u32)
        requires
            old(self)@.lock != 0,
        ensures
            final(self)@ == (MailboxView { target_user_valid: val, ..old(self)@ }),
    {
        self.target_user_valid = val;
    }

    pub fn read_network_mbox_cmd(&self) -> (v: u32)
        ensures
            v == self@.cmd,
    {
        self.cmd
    }

    pub fn write_network_mbox_cmd(&mut self, val: u32)
        ensures
            final(self)@ == (MailboxView { cmd: val, ..old(self)@ }),
    {
        self.cmd = val;
    }

    pub fn read_network_mbox_dlen(&self) -> (v: u32)
        ensures
            v == self@.dlen,
    {
        self.dlen
    }

    /// Sets the data length; the session maximum follows it up.
    pub fn write_network_mbox_dlen(&mut self, val: u32)
        requires
            old(self).wf(),
            val <= old(self)@.sram_size,
        ensures
            final(self).wf(),
            final(self)@ == (MailboxView {
                dlen: val,
                max_dlen_in_lock_session: if val > old(self)@.max_dlen_in_lock_session {
                    val as nat
                } else {
                    old(self)@.max_dlen_in_lock_session
                },
                ..old(self)@
            }),
    {
        self.dlen = val;
        let d = val as usize;
        if d > self.max_dlen_in_lock_session {
            self.max_dlen_in_lock_session = d;
        }
    }

    pub fn read_network_mbox_execute(&self) -> (v: u32)
        ensures
            v == self@.execute,
    {
        self.execute
    }

    /// Writes the execute register. Setting it while an external agent holds
    /// the lock raises a command-available event; clearing it releases the
    /// lock with zeroization. Returns whether an event was raised, so that
    /// the caller schedules a poll.
    pub fn write_network_mbox_execute(&mut self, val: u32) -> (raised: bool)
        requires
            old(self).wf(),
            old(self)@.lock != 0,
        ensures
            final(self).wf(),
            (raised, final(self)@) == execute_write_step(old(self)@, val),
    {
        self.execute = val;
        if val == EXECUTE_SET {
            match NetworkMailboxRequester::from_u32(self.user) {
                NetworkMailboxRequester::ExternalAgent(_) => {
                    self.irq = true;
                    self.last_irq_event = Some(NetworkMboxIrqEvent::NetworkMboxCmdAvailable);
                    return true;
                },
                NetworkMailboxRequester::Network => {},
            }
        } else if val == EXECUTE_CLEAR {
            self.mailbox_zeroization();
        }
        false
    }

    pub fn read_network_mbox_target_status(&self) -> (v: u32)
        ensures
            v == self@.target_status,
    {
        self.target_status
    }

    /// Writes the target status; a rising done bit raises a target-done
    /// event. Returns whether an event was raised.
    pub fn write_network_mbox_target_status(&mut self, val: u32) -> (raised: bool)
        ensures
            (raised, final(self)@) == target_status_write_step(old(self)@, val),
    {
        let prev = self.target_status;
        self.target_status = val;
        let prev_done = prev & TARGET_STATUS_DONE;
        let new_done = val & TARGET_STATUS_DONE;
        if prev_done == 0 && new_done != 0 {
            self.irq = true;
            self.last_irq_event = Some(NetworkMboxIrqEvent::NetworkMboxTargetDone);
            true
        } else {
            false
        }
    }

    pub fn read_network_mbox_cmd_status(&self) -> (v: u32)
        ensures
            v == self@.cmd_status,
    {
        self.cmd_status
    }

    pub fn write_network_mbox_cmd_status(&mut self, val: u32)
        ensures
            final(self)@ == (MailboxView { cmd_status: val, ..old(self)@ }),
    {
        self.cmd_status = val;
    }

    pub fn read_network_mbox_hw_status(&self) -> (v: u32)
        ensures
            v == self@.hw_status,
    {
        self.hw_status
    }

    /// Takes the pending notification: the last event when an interrupt is
    /// pending (clearing both), `None` otherwise.
    pub fn get_notif_irq(&mut self) -> (r: Option<NetworkMboxIrqEvent>)
        ensures
            (r, final(self)@) == take_irq_step(old(self)@),
    {
        if self.irq {
            self.irq = false;
            let event = self.last_irq_event;
            self.last_irq_event = None;
            return event;
        }
        None
    }

    /// Raises a notification directly.
    pub fn set_notif_irq(&mut self, event: NetworkMboxIrqEvent)
        ensures
            final(self)@ == (MailboxView { irq: true, last_irq_event: Some(event), ..old(self)@ }),
    {
        self.irq = true;
        self.last_irq_event = Some(event);
    }

    /// Warm-reset sequence of the network coprocessor: it takes the lock,
    /// sets the data length to the whole SRAM and clears execute, which
    /// wipes the whole SRAM and frees the lock.
    pub fn reset(&mut self)
        requires
            old(self).wf(),
            old(self)@.lock == 0,
        ensures
            final(self).wf(),
            final(self)@ == zeroized(MailboxView {
                user: requester_value(old(self)@.requester),
                lock: 1,
                dlen: old(self)@.sram_size,
                max_dlen_in_lock_session: old(self)@.sram_size as nat,
                execute: EXECUTE_CLEAR,
                ..old(self)@
            }),
    {
        let _lock = self.read_network_mbox_lock();
        let size = self.sram_size;
        self.write_network_mbox_dlen(size);
        self.write_network_mbox_execute(EXECUTE_CLEAR);
    }
}

} // verus!
