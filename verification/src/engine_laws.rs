//! What each call does to the client, field by field.

use crate::config::Config;
use crate::engine;
use crate::engine::{Engine, Start, State, VoiceInput};
use crate::text;
use crate::text_laws;
use vstd::prelude::*;

verus! {

/// A callback that is registered on an initialized client, in any state, is the
/// one that it has from then on, and nothing else changes; before the
/// initialization it is kept for later.
pub proof fn law_callback_is_registered<C, H, R>(v: VoiceInput<C, H, R>, cb: Option<C>)
    ensures
        ({
            let r = engine::with_callback(v, cb);
            &&& v.engine is Some ==> {
                &&& r.engine is Some
                &&& r.engine->0.cb == cb
                &&& r.engine->0.cfg == v.engine->0.cfg
                &&& r.engine->0.rt == v.engine->0.rt
                &&& r.engine->0.capture == v.engine->0.capture
                &&& r.engine->0.state == v.engine->0.state
                &&& r.engine->0.ended == v.engine->0.ended
                &&& r.pending == v.pending
            }
            &&& v.engine is None ==> r.engine is None && r.pending == Some(cb)
        }),
{
}

/// The last callback that was registered counts, before the initialization and
/// after it.
pub proof fn law_last_callback_counts<C, H, R>(
    v: VoiceInput<C, H, R>,
    first: Option<C>,
    second: Option<C>,
    cfg: Config,
    rt: R,
)
    ensures
        engine::with_callback(engine::with_callback(v, first), second) == engine::with_callback(
            v,
            second,
        ),
        v.engine is Some ==> engine::with_callback(v, second).engine->0.cb == second,
        v.engine is None ==> engine::initialized(
            engine::with_callback(v, second),
            cfg,
            rt,
        ).engine->0.cb == second,
{
}

/// An initialization gives an idle client with the given settings and runtime,
/// and with the callback that was kept for it, which is then kept no longer.
pub proof fn law_initialized<C, H, R>(v: VoiceInput<C, H, R>, cfg: Config, rt: R)
    ensures
        ({
            let r = engine::initialized(v, cfg, rt);
            &&& r.engine is Some
            &&& r.engine->0.cfg == cfg
            &&& r.engine->0.rt == rt
            &&& r.engine->0.capture is None
            &&& r.engine->0.state == State::Idle
            &&& !r.engine->0.ended
            &&& v.pending is Some ==> r.engine->0.cb == v.pending->0
            &&& v.pending is None ==> r.engine->0.cb is None
            &&& r.pending is None
        }),
{
}

/// A release takes the client away and leaves a callback that is kept.
pub proof fn law_released<C, H, R>(v: VoiceInput<C, H, R>)
    ensures
        engine::released(v).engine is None,
        engine::released(v).pending == v.pending,
{
}

/// Whether nothing but the state of the recording differs.
pub open spec fn same_but_recording<C, H, R>(a: Engine<C, H, R>, b: Engine<C, H, R>) -> bool {
    a.cfg == b.cfg && a.rt == b.rt && a.cb == b.cb
}

/// An idle client starts to record with what ends the recording; another one is
/// left as it is.
pub proof fn law_started<C, H, R>(v: VoiceInput<C, H, R>, capture: H)
    ensures
        ({
            let r = engine::started(v, capture);
            let idle = v.engine is Some && v.engine->0.state == State::Idle;
            &&& engine::can_start(v) <==> idle
            &&& idle ==> {
                &&& r.engine is Some
                &&& r.engine->0.state == State::Recording
                &&& r.engine->0.capture == Some(capture)
                &&& !r.engine->0.ended
                &&& same_but_recording(r.engine->0, v.engine->0)
                &&& r.pending == v.pending
            }
            &&& !idle ==> r == v
        }),
{
}

/// A client that records stops: it waits for the text, or is idle where the
/// stream has ended already; another one is left as it is.
pub proof fn law_stopped<C, H, R>(v: VoiceInput<C, H, R>)
    ensures
        ({
            let r = engine::stopped(v);
            let records = v.engine is Some && v.engine->0.state == State::Recording;
            &&& engine::can_stop(v) <==> records
            &&& records ==> {
                &&& r.engine is Some
                &&& v.engine->0.ended ==> r.engine->0.state == State::Idle
                &&& !v.engine->0.ended ==> r.engine->0.state == State::Waiting
                &&& r.engine->0.capture is None
                &&& !r.engine->0.ended
                &&& same_but_recording(r.engine->0, v.engine->0)
                &&& r.pending == v.pending
            }
            &&& !records ==> r == v
        }),
{
}

/// The end of a stream makes a client that waits idle, and is kept in mind by one
/// that still records; another one is left as it is.
pub proof fn law_finished<C, H, R>(v: VoiceInput<C, H, R>)
    ensures
        ({
            let r = engine::finished(v);
            let waits = v.engine is Some && v.engine->0.state == State::Waiting;
            let records = v.engine is Some && v.engine->0.state == State::Recording;
            &&& waits || records ==> {
                &&& r.engine is Some
                &&& waits ==> r.engine->0.state == State::Idle && r.engine->0.ended
                    == v.engine->0.ended
                &&& records ==> r.engine->0.state == State::Recording && r.engine->0.ended
                &&& r.engine->0.capture == v.engine->0.capture
                &&& same_but_recording(r.engine->0, v.engine->0)
                &&& r.pending == v.pending
            }
            &&& !waits && !records ==> r == v
        }),
{
}

/// The numbers of the states and of the ways in which a start ends.
pub proof fn law_codes<C, H, R>(v: VoiceInput<C, H, R>, s: Start<C>)
    ensures
        v.engine is None ==> engine::state_code(v) == -1,
        v.engine is Some && v.engine->0.state == State::Idle ==> engine::state_code(v) == 0,
        v.engine is Some && v.engine->0.state == State::Recording ==> engine::state_code(v) == 1,
        v.engine is Some && v.engine->0.state == State::Waiting ==> engine::state_code(v) == 2,
        s is Uninitialized ==> s.code_of() == -1,
        s is Busy ==> s.code_of() == -2,
        s is Begin ==> s.code_of() == 0,
{
}

/// A client is well formed where there is something to end exactly while it
/// records, and only then its stream can have ended.
pub proof fn law_well_formed_clients<C, H, R>(v: VoiceInput<C, H, R>)
    ensures
        v.engine is None ==> v.well_formed(),
        v.engine is Some ==> (v.well_formed() <==> ((v.engine->0.state == State::Recording
            <==> v.engine->0.capture is Some) && (v.engine->0.ended ==> v.engine->0.state
            == State::Recording))),
{
}

/// A text is handed over where it holds a character that is not whitespace, and
/// no NUL, however long it is.
pub proof fn law_deliverable_texts(s: Seq<char>)
    ensures
        engine::is_deliverable(s) <==> (exists|i: int|
            0 <= i < s.len() && !text::is_white_space(#[trigger] s[i])) && !s.contains('\0'),
{
    let t = text::trimmed(s);
    text_laws::law_trimmed_keeps(s, '\0');
    text::law_trimmed(s);
    if t.len() > 0 {
        text_laws::law_trimmed_keeps(s, t[0]);
        assert(t.contains(t[0]));
        let i = choose|i: int| 0 <= i < s.len() && s[i] == t[0];
        assert(!text::is_white_space(s[i]));
    }
    if exists|i: int| 0 <= i < s.len() && !text::is_white_space(#[trigger] s[i]) {
        let i = choose|i: int| 0 <= i < s.len() && !text::is_white_space(#[trigger] s[i]);
        assert(s.contains(s[i]));
        text_laws::law_trimmed_keeps(s, s[i]);
        assert(t.len() > 0);
    }
}

/// What is handed over of a text is the text without the whitespace around it:
/// any whitespace before and after a text makes no difference.
pub proof fn law_whitespace_around_a_text(before: Seq<char>, middle: Seq<char>, after: Seq<char>)
    requires
        forall|i: int| 0 <= i < before.len() ==> text::is_white_space(#[trigger] before[i]),
        forall|i: int| 0 <= i < after.len() ==> text::is_white_space(#[trigger] after[i]),
        middle.len() > 0,
        !text::is_white_space(middle[0]),
        !text::is_white_space(middle.last()),
        !middle.contains('\0'),
    ensures
        engine::is_deliverable(before + middle + after),
        text::trimmed(before + middle + after) == middle,
{
    text_laws::law_trimmed_is_the_middle(before, middle, after);
}

} // verus!
