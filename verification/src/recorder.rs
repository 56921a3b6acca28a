//! Decisions while audio is captured.

use vstd::prelude::*;

verus! {

/// The least number of samples in one read.
pub const MIN_PERIOD: i64 = 128;

/// The error number of a device that has no data yet.
pub const EAGAIN: i32 = 11;

/// How many milliseconds a device that has no data yet is left alone.
pub const PAUSE_MS: u64 = 5;

/// How the device is set up.
#[derive(Debug, Clone, Copy, PartialEq, Eq, Structural)]
pub struct CaptureParams {
    pub channels: u32,
    pub rate: u32,
    /// The buffer of the device in samples.
    pub buffer: i64,
    /// The samples of one read.
    pub period: i64,
}

/// The set-up for a sample rate: one channel, a buffer of one second, and reads
/// of a twentieth of a second but not less than `MIN_PERIOD`.
pub fn capture_params(rate: u32) -> (r: CaptureParams)
    ensures
        r.channels == 1,
        r.rate == rate,
        r.buffer == rate,
        r.period == if rate / 20 < MIN_PERIOD {
            MIN_PERIOD as int
        } else {
            (rate / 20) as int
        },
{
    let twentieth: i64 = rate as i64 / 20;
    let period: i64 = if twentieth < MIN_PERIOD {
        MIN_PERIOD
    } else {
        twentieth
    };
    CaptureParams { channels: 1, rate, buffer: rate as i64, period }
}

/// The samples that a read has room for, by the period that the device chose.
pub fn read_size(period: usize) -> (r: usize)
    ensures
        r == if period < MIN_PERIOD {
            MIN_PERIOD as int
        } else {
            period as int
        },
{
    if period < 128 {
        128
    } else {
        period
    }
}

/// The state of the device.
#[derive(Debug, Clone, Copy, PartialEq, Eq, Structural)]
pub enum DeviceState {
    Running,
    /// Samples were lost because they were not read in time.
    Overrun,
    Other,
}

/// What happens during a recording.
#[derive(Debug, Clone, Copy, PartialEq, Eq, Structural)]
pub enum RecordEvent {
    /// The recording is to stop.
    StopRequested,
    /// A read gave this many samples.
    Samples(usize),
    /// A read failed; the device is then in the given state.
    ReadError { errno: i32, device: DeviceState },
    /// Nobody takes the audio any more.
    ReceiverGone,
}

/// What the recording does next.
#[derive(Debug, Clone, Copy, PartialEq, Eq, Structural)]
pub enum RecordAction {
    /// Read again.
    Read,
    /// Hand on the first samples of the buffer, this many, then read again.
    Deliver(usize),
    /// Wait this many milliseconds, then read again.
    Pause(u64),
    /// Prepare the device anew, then read again.
    Recover,
    /// Give up with the error of the read.
    Fail,
    /// End the recording.
    Finish,
}

/// Whether a device that failed a read can go on once it is prepared anew.
pub open spec fn is_recoverable(device: DeviceState) -> bool {
    device == DeviceState::Running || device == DeviceState::Overrun
}

/// What an event leads to.
pub open spec fn action_of(event: RecordEvent) -> RecordAction {
    match event {
        RecordEvent::StopRequested => RecordAction::Finish,
        RecordEvent::ReceiverGone => RecordAction::Finish,
        RecordEvent::Samples(n) => if n > 0 {
            RecordAction::Deliver(n)
        } else {
            RecordAction::Read
        },
        RecordEvent::ReadError { errno, device } => if errno == EAGAIN {
            RecordAction::Pause(PAUSE_MS)
        } else if is_recoverable(device) {
            RecordAction::Recover
        } else {
            RecordAction::Fail
        },
    }
}

/// The samples that an event brings.
pub open spec fn samples_of(event: RecordEvent) -> nat {
    match event {
        RecordEvent::Samples(n) => n as nat,
        _ => 0,
    }
}

/// The samples that events bring.
pub open spec fn samples_of_all(events: Seq<RecordEvent>) -> nat
    decreases events.len(),
{
    if events.len() == 0 {
        0
    } else {
        samples_of_all(events.drop_last()) + samples_of(events.last())
    }
}

/// The samples that the actions to events hand on.
pub open spec fn delivered(events: Seq<RecordEvent>) -> nat
    decreases events.len(),
{
    if events.len() == 0 {
        0
    } else {
        delivered(events.drop_last()) + match action_of(events.last()) {
            RecordAction::Deliver(n) => n as nat,
            _ => 0,
        }
    }
}

/// A recording.
#[derive(Debug)]
pub struct Recording {
    /// The samples recorded so far.
    pub total: u64,
}

impl Recording {
    /// A recording that has just begun.
    pub fn new() -> (r: Recording)
        ensures
            r.total == 0,
    {
        Recording { total: 0 }
    }

    /// Decides what an event leads to.
    pub fn step(&mut self, event: RecordEvent) -> (r: RecordAction)
        requires
            old(self).total + samples_of(event) <= u64::MAX,
        ensures
            r == action_of(event),
            final(self).total == old(self).total + samples_of(event),
    {
        match event {
            RecordEvent::StopRequested => RecordAction::Finish,
            RecordEvent::ReceiverGone => RecordAction::Finish,
            RecordEvent::Samples(n) => {
                self.total = self.total + n as u64;
                if n > 0 {
                    RecordAction::Deliver(n)
                } else {
                    RecordAction::Read
                }
            },
            RecordEvent::ReadError { errno, device } => {
                if errno == EAGAIN {
                    RecordAction::Pause(PAUSE_MS)
                } else if device == DeviceState::Running || device == DeviceState::Overrun {
                    RecordAction::Recover
                } else {
                    RecordAction::Fail
                }
            },
        }
    }
}

/// A failed read ends the recording only where the device can neither wait for
/// data nor be recovered: not while it runs, and not after an overrun.
pub proof fn law_recoverable_errors_do_not_end(errno: i32, device: DeviceState)
    ensures
        errno == EAGAIN || is_recoverable(device) <==> action_of(
            RecordEvent::ReadError { errno, device },
        ) != RecordAction::Fail,
        errno != EAGAIN && is_recoverable(device) ==> action_of(
            RecordEvent::ReadError { errno, device },
        ) == RecordAction::Recover,
        action_of(RecordEvent::ReadError { errno, device }) != RecordAction::Finish,
{
}

/// Every sample that was recorded is handed on.
pub proof fn law_nothing_is_lost(events: Seq<RecordEvent>)
    ensures
        delivered(events) == samples_of_all(events),
    decreases events.len(),
{
    if events.len() > 0 {
        law_nothing_is_lost(events.drop_last());
    }
}

/// Samples are handed on, as many as were read; a request to stop and the loss of
/// the receiver end the recording; a device without data is left alone for five
/// milliseconds; another error leads to a recovery while the device runs or is
/// in overrun, and to a failure otherwise.
pub proof fn law_actions(n: usize, errno: i32, device: DeviceState)
    ensures
        action_of(RecordEvent::StopRequested) == RecordAction::Finish,
        action_of(RecordEvent::ReceiverGone) == RecordAction::Finish,
        n > 0 ==> action_of(RecordEvent::Samples(n)) == RecordAction::Deliver(n),
        action_of(RecordEvent::Samples(0)) == RecordAction::Read,
        errno == 11 ==> action_of(RecordEvent::ReadError { errno, device }) == RecordAction::Pause(
            5,
        ),
        errno != 11 && device != DeviceState::Other ==> action_of(
            RecordEvent::ReadError { errno, device },
        ) == RecordAction::Recover,
        errno != 11 && device == DeviceState::Other ==> action_of(
            RecordEvent::ReadError { errno, device },
        ) == RecordAction::Fail,
{
}

/// The samples of a read are counted, all of them, and nothing else is.
pub proof fn law_samples_are_counted(event: RecordEvent)
    ensures
        match event {
            RecordEvent::Samples(n) => samples_of(event) == n,
            _ => samples_of(event) == 0,
        },
        MIN_PERIOD == 128,
{
}

} // verus!
