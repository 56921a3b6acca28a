//! The states of the client: idle, recording, waiting for the text.
//!
//! `C` stands for a registered callback, `H` for the handles that end a
//! recording, and `R` for the runtime that streams run on.

use crate::asr::{AsrClient, ClientView};
use crate::config::Config;
use crate::text;
use vstd::prelude::*;

verus! {

/// What the client is doing.
#[derive(Debug, Clone, Copy, PartialEq, Eq, Structural)]
pub enum State {
    Idle,
    Recording,
    Waiting,
}

/// The client once it is initialized.
pub struct Engine<C, H, R> {
    pub cfg: Config,
    pub rt: R,
    /// What ends the recording that is going on.
    pub capture: Option<H>,
    pub state: State,
    /// Whether the stream of the recording that is going on has ended already.
    pub ended: bool,
    pub cb: Option<C>,
}

/// The client, initialized or not.
pub struct VoiceInput<C, H, R> {
    pub engine: Option<Engine<C, H, R>>,
    /// A callback that was registered before the initialization.
    pub pending: Option<Option<C>>,
}

impl<C, H, R> VoiceInput<C, H, R> {
    /// There is something to end exactly while a recording is going on, and only
    /// then a stream can have ended before its recording.
    pub open spec fn well_formed(self) -> bool {
        self.engine matches Some(e) ==> {
            &&& e.state == State::Recording <==> e.capture is Some
            &&& e.ended ==> e.state == State::Recording
        }
    }

    /// The client before its initialization.
    pub fn new() -> (r: Self)
        ensures
            r.engine is None,
            r.pending is None,
            r.well_formed(),
    {
        VoiceInput { engine: None, pending: None }
    }
}

// ---------------------------------------------------------------- transitions

/// After the initialization: idle, with the callback that was registered before.
pub open spec fn initialized<C, H, R>(v: VoiceInput<C, H, R>, cfg: Config, rt: R) -> VoiceInput<
    C,
    H,
    R,
> {
    VoiceInput {
        engine: Some(
            Engine {
                cfg,
                rt,
                capture: None,
                state: State::Idle,
                ended: false,
                cb: match v.pending {
                    Some(cb) => cb,
                    None => None,
                },
            },
        ),
        pending: None,
    }
}

/// After the release.
pub open spec fn released<C, H, R>(v: VoiceInput<C, H, R>) -> VoiceInput<C, H, R> {
    VoiceInput { engine: None, pending: v.pending }
}

/// With another callback, which is kept for later before the initialization.
pub open spec fn with_callback<C, H, R>(v: VoiceInput<C, H, R>, cb: Option<C>) -> VoiceInput<
    C,
    H,
    R,
> {
    match v.engine {
        Some(e) => VoiceInput {
            engine: Some(Engine { cb, ..e }),
            pending: v.pending,
        },
        None => VoiceInput { engine: None, pending: Some(cb) },
    }
}

/// Whether a recording can start.
pub open spec fn can_start<C, H, R>(v: VoiceInput<C, H, R>) -> bool {
    v.engine matches Some(e) && e.state == State::Idle
}

/// Whether a recording can stop.
pub open spec fn can_stop<C, H, R>(v: VoiceInput<C, H, R>) -> bool {
    v.engine matches Some(e) && e.state == State::Recording
}

/// After the start of a recording, where it can start.
pub open spec fn started<C, H, R>(v: VoiceInput<C, H, R>, capture: H) -> VoiceInput<C, H, R> {
    if can_start(v) {
        VoiceInput {
            engine: Some(
                Engine {
                    state: State::Recording,
                    ended: false,
                    capture: Some(capture),
                    ..v.engine->0
                },
            ),
            pending: v.pending,
        }
    } else {
        v
    }
}

/// After the stop of a recording, where it can stop: its text is waited for,
/// unless its stream has ended already.
pub open spec fn stopped<C, H, R>(v: VoiceInput<C, H, R>) -> VoiceInput<C, H, R> {
    if can_stop(v) {
        VoiceInput {
            engine: Some(
                Engine {
                    state: if v.engine->0.ended {
                        State::Idle
                    } else {
                        State::Waiting
                    },
                    ended: false,
                    capture: None,
                    ..v.engine->0
                },
            ),
            pending: v.pending,
        }
    } else {
        v
    }
}

/// After the end of a stream: idle, where the text was waited for; while the
/// recording still goes on, its end is kept in mind.
pub open spec fn finished<C, H, R>(v: VoiceInput<C, H, R>) -> VoiceInput<C, H, R> {
    match v.engine {
        Some(e) => if e.state == State::Waiting {
            VoiceInput {
                engine: Some(Engine { state: State::Idle, ..e }),
                pending: v.pending,
            }
        } else if e.state == State::Recording {
            VoiceInput { engine: Some(Engine { ended: true, ..e }), pending: v.pending }
        } else {
            v
        },
        None => v,
    }
}

/// The number that stands for the state.
pub open spec fn state_code<C, H, R>(v: VoiceInput<C, H, R>) -> int {
    match v.engine {
        None => -1,
        Some(e) => match e.state {
            State::Idle => 0,
            State::Recording => 1,
            State::Waiting => 2,
        },
    }
}

/// Initializes the client with what was loaded and created; a missing
/// configuration gives `-1`, a missing runtime `-2`, and both leave the client
/// as it is.
pub fn vi_init<C, H, R>(
    vi: &mut VoiceInput<C, H, R>,
    cfg: Option<Config>,
    rt: Option<R>,
) -> (r: i32)
    requires
        old(vi).well_formed(),
    ensures
        final(vi).well_formed(),
        cfg is None ==> r == -1 && *final(vi) == *old(vi),
        cfg is Some && rt is None ==> r == -2 && *final(vi) == *old(vi),
        cfg is Some && rt is Some ==> r == 0 && *final(vi) == initialized(*old(vi), cfg->0, rt->0),
{
    match cfg {
        None => -1,
        Some(cfg) => match rt {
            None => -2,
            Some(rt) => {
                let cb: Option<C> = match vi.pending.take() {
                    Some(cb) => cb,
                    None => None,
                };
                vi.engine = Some(
                    Engine { cfg, rt, capture: None, state: State::Idle, ended: false, cb },
                );
                0
            },
        },
    }
}

/// Releases the client; `-1` where it is not initialized.
pub fn vi_shutdown<C, H, R>(vi: &mut VoiceInput<C, H, R>) -> (r: i32)
    ensures
        *final(vi) == released(*old(vi)),
        r == if old(vi).engine is None {
            -1int
        } else {
            0
        },
{
    if vi.engine.is_none() {
        return -1;
    }
    vi.engine = None;
    0
}

/// Registers a callback, or none.
pub fn vi_set_callback<C, H, R>(vi: &mut VoiceInput<C, H, R>, cb: Option<C>)
    requires
        old(vi).well_formed(),
    ensures
        final(vi).well_formed(),
        *final(vi) == with_callback(*old(vi), cb),
{
    match &mut vi.engine {
        Some(e) => {
            e.cb = cb;
        },
        None => {
            vi.pending = Some(cb);
        },
    }
}

/// How an attempt to start ends.
pub enum Start<C> {
    /// The client is not initialized.
    Uninitialized,
    /// A recording or a stream is going on.
    Busy(State),
    /// A stream begins: its client, the callback for its text, and the sample
    /// rate to record at.
    Begin { client: AsrClient, cb: Option<C>, rate: u32 },
}

impl<C> Start<C> {
    /// The number that stands for the outcome.
    pub open spec fn code_of(self) -> int {
        match self {
            Start::Uninitialized => -1,
            Start::Busy(_) => -2,
            Start::Begin { .. } => 0,
        }
    }

    /// The number that stands for the outcome.
    pub fn code(&self) -> (r: i32)
        ensures
            r == self.code_of(),
    {
        match self {
            Start::Uninitialized => -1,
            Start::Busy(_) => -2,
            Start::Begin { .. } => 0,
        }
    }
}

/// Starts a recording, which `capture` can end. The callback is the one that is
/// registered now.
pub fn vi_start<C: Copy, H, R>(vi: &mut VoiceInput<C, H, R>, capture: H) -> (r: Start<C>)
    requires
        old(vi).well_formed(),
    ensures
        final(vi).well_formed(),
        *final(vi) == started(*old(vi), capture),
        match old(vi).engine {
            None => r is Uninitialized,
            Some(e) => if e.state == State::Idle {
                r matches Start::Begin { client, cb, rate } && client@ == (ClientView {
                    api_key: e.cfg.asr.api_key@,
                    resource_id: e.cfg.asr.resource_id@,
                    rate: e.cfg.asr.rate,
                }) && cb == e.cb && rate == e.cfg.asr.rate
            } else {
                r == Start::<C>::Busy(e.state)
            },
        },
{
    match &mut vi.engine {
        None => Start::Uninitialized,
        Some(e) => {
            if e.state != State::Idle {
                return Start::Busy(e.state);
            }
            e.state = State::Recording;
            e.ended = false;
            e.capture = Some(capture);
            Start::Begin { client: AsrClient::new(&e.cfg.asr), cb: e.cb, rate: e.cfg.asr.rate }
        },
    }
}

/// Stops the recording: the number that stands for the outcome, and what ends
/// the recording. Where its stream has ended already, no text is waited for.
pub fn vi_stop<C, H, R>(vi: &mut VoiceInput<C, H, R>) -> (r: (i32, Option<H>))
    requires
        old(vi).well_formed(),
    ensures
        final(vi).well_formed(),
        *final(vi) == stopped(*old(vi)),
        match old(vi).engine {
            None => r.0 == -1 && r.1 is None,
            Some(e) => if e.state == State::Recording {
                r.0 == 0 && r.1 == e.capture && r.1 is Some
            } else {
                r.0 == -2 && r.1 is None
            },
        },
{
    match &mut vi.engine {
        None => (-1, None),
        Some(e) => {
            if e.state != State::Recording {
                return (-2, None);
            }
            e.state = if e.ended {
                State::Idle
            } else {
                State::Waiting
            };
            e.ended = false;
            (0, e.capture.take())
        },
    }
}

/// Takes note that a stream has ended and its text was delivered.
pub fn vi_finished<C, H, R>(vi: &mut VoiceInput<C, H, R>)
    requires
        old(vi).well_formed(),
    ensures
        final(vi).well_formed(),
        *final(vi) == finished(*old(vi)),
{
    match &mut vi.engine {
        None => {},
        Some(e) => {
            if e.state == State::Waiting {
                e.state = State::Idle;
            } else if e.state == State::Recording {
                e.ended = true;
            }
        },
    }
}

/// The state as a number: `0` idle, `1` recording, `2` waiting, `-1` not
/// initialized.
pub fn vi_state<C, H, R>(vi: &VoiceInput<C, H, R>) -> (r: i32)
    ensures
        r == state_code(*vi),
{
    match &vi.engine {
        None => -1,
        Some(e) => match e.state {
            State::Idle => 0,
            State::Recording => 1,
            State::Waiting => 2,
        },
    }
}

// ---------------------------------------------------------------- the text

/// What a callback is told.
pub enum Delivery<C> {
    /// There is no callback.
    Dropped,
    /// The text.
    Text { cb: C, text: String },
    /// That there is no text.
    Null { cb: C },
}

/// Whether a text can be handed over: it says something, and holds no NUL,
/// which would end it early.
pub open spec fn is_deliverable(s: Seq<char>) -> bool {
    text::trimmed(s).len() > 0 && !text::trimmed(s).contains('\0')
}

fn has_nul(s: &[char]) -> (r: bool)
    ensures
        r == s@.contains('\0'),
{
    let mut i: usize = 0;
    while i < s.len()
        invariant
            i <= s@.len(),
            forall|j: int| 0 <= j < i ==> s@[j] != '\0',
        decreases s@.len() - i,
    {
        if s[i] == '\0' {
            return true;
        }
        i = i + 1;
    }
    false
}

/// Decides what a callback is told of the end of a stream: the text without
/// whitespace around it, or that there is none.
pub fn deliver_result<C, E>(cb: Option<C>, res: &Result<String, E>) -> (r: Delivery<C>)
    ensures
        match cb {
            None => r is Dropped,
            Some(c) => match res {
                Ok(t) => if is_deliverable(t@) {
                    r matches Delivery::Text { cb, text } && cb == c && text@ == text::trimmed(t@)
                } else {
                    r == Delivery::Null { cb: c }
                },
                Err(_) => r == Delivery::Null { cb: c },
            },
        },
{
    match cb {
        None => Delivery::Dropped,
        Some(cb) => match res {
            Ok(t) => {
                let text: String = text::trim(t.as_str());
                let v: Vec<char> = text::chars_of(text.as_str());
                if v.len() == 0 || has_nul(v.as_slice()) {
                    Delivery::Null { cb }
                } else {
                    Delivery::Text { cb, text }
                }
            },
            Err(_) => Delivery::Null { cb },
        },
    }
}

// ---------------------------------------------------------------- laws

/// Start, stop and the end of the stream bring an idle client back to where it
/// was.
pub proof fn law_cycle<C, H, R>(v: VoiceInput<C, H, R>, capture: H)
    requires
        v.well_formed(),
        can_start(v),
    ensures
        state_code(v) == 0,
        state_code(started(v, capture)) == 1,
        state_code(stopped(started(v, capture))) == 2,
        finished(stopped(started(v, capture))) == v,
{
}

/// A callback that is registered before the initialization is the one that the
/// first recording after it reports to.
pub proof fn law_early_callback_is_kept<C, H, R>(
    v: VoiceInput<C, H, R>,
    cb: Option<C>,
    cfg: Config,
    rt: R,
)
    requires
        v.engine is None,
    ensures
        initialized(with_callback(v, cb), cfg, rt).engine->0.cb == cb,
        initialized(with_callback(v, cb), cfg, rt).pending is None,
{
}

/// While a recording or a stream is going on, no other one starts.
pub proof fn law_no_second_start<C, H, R>(v: VoiceInput<C, H, R>, first: H, second: H)
    requires
        can_start(v),
    ensures
        !can_start(started(v, first)),
        started(started(v, first), second) == started(v, first),
        !can_start(stopped(started(v, first))),
        started(stopped(started(v, first)), second) == stopped(started(v, first)),
{
}

/// A recording is stopped once: a second stop changes nothing.
pub proof fn law_stop_once<C, H, R>(v: VoiceInput<C, H, R>)
    ensures
        !can_stop(stopped(v)),
        stopped(stopped(v)) == stopped(v),
{
}

/// The end of a stream changes the state only where its text is waited for, and
/// then to idle; a recording that is still going on can be stopped as before.
pub proof fn law_finish_only_from_waiting<C, H, R>(v: VoiceInput<C, H, R>)
    ensures
        state_code(finished(v)) == if state_code(v) == 2 {
            0
        } else {
            state_code(v)
        },
        can_stop(finished(v)) == can_stop(v),
        can_stop(v) ==> finished(v).engine->0.capture == v.engine->0.capture,
{
}

/// A stream that ends before its recording is stopped does not lock the client:
/// after the stop it is as it was before the start, and the next recording can
/// start.
pub proof fn law_early_end_does_not_lock<C, H, R>(v: VoiceInput<C, H, R>, capture: H)
    requires
        v.well_formed(),
        can_start(v),
    ensures
        state_code(finished(started(v, capture))) == 1,
        state_code(stopped(finished(started(v, capture)))) == 0,
        can_start(stopped(finished(started(v, capture)))),
        stopped(finished(started(v, capture))) == v,
{
}

/// A text is waited for only where a stream has not ended yet: the end of the
/// stream, before the stop or after it, leaves the client idle.
pub proof fn law_no_waiting_after_the_end<C, H, R>(v: VoiceInput<C, H, R>)
    requires
        can_stop(v),
    ensures
        state_code(stopped(finished(v))) == 0,
        state_code(finished(stopped(v))) == 0,
{
}

/// After a release nothing starts or stops until the next initialization.
pub proof fn law_released_is_inert<C, H, R>(v: VoiceInput<C, H, R>, capture: H)
    ensures
        state_code(released(v)) == -1,
        started(released(v), capture) == released(v),
        stopped(released(v)) == released(v),
        finished(released(v)) == released(v),
{
}

/// Every transition keeps the client well formed.
pub proof fn law_transitions_keep_well_formed<C, H, R>(
    v: VoiceInput<C, H, R>,
    cfg: Config,
    rt: R,
    cb: Option<C>,
    capture: H,
)
    requires
        v.well_formed(),
    ensures
        initialized(v, cfg, rt).well_formed(),
        released(v).well_formed(),
        with_callback(v, cb).well_formed(),
        started(v, capture).well_formed(),
        stopped(v).well_formed(),
        finished(v).well_formed(),
{
}

} // verus!
