use vstd::prelude::*;

use crate::point::{Floww, Point};

verus! {

/// One event of the source musical-event stream, reduced to the plain
/// values the conversion reads. Anything else the source may carry is
/// `Other` and is ignored.
#[derive(Clone, Copy, PartialEq, Eq, Structural, Debug)]
pub enum MidiEvent {
    NoteOn { note: u8, vel: u8 },
    NoteOff { note: u8 },
    SetTempo { us_per_quarter: u32 },
    Other,
}

/// The source musical-event stream as plain values: a pulses-per-quarter
/// resolution and, per track, `(delta-ticks, event)` pairs in order.
pub struct MidiData {
    /// Pulses (ticks) per quarter note; the stream's time resolution.
    pub ppqn: u16,
    /// The tracks, each a sequence of delta-ticks and the event there.
    pub tracks: Vec<Vec<(u32, MidiEvent)>>,
}

/// Default tempo: one quarter note per second, in microseconds.
pub const DEFAULT_TEMPO: u32 = 1_000_000;

/// The tracks of a score, as contracts see them.
pub open spec fn tracks_view(tracks: Seq<Vec<(u32, MidiEvent)>>) -> Seq<Seq<(u32, MidiEvent)>> {
    Seq::new(tracks.len(), |i: int| tracks[i]@)
}

/// A running time in micro-units, clamped into a point's time field.
pub open spec fn clamp_time(t: int) -> i64
    recommends
        t >= 0,
{
    if t > i64::MAX {
        i64::MAX
    } else {
        t as i64
    }
}

/// A raw velocity scaled to micro-units of full velocity: 127 maps to
/// exactly one million.
pub open spec fn vel_micro(vel: u8) -> i64 {
    ((vel * 1_000_000) / 127) as i64
}

/// The points one event emits at running time `time`: a `NoteOn` emits
/// its scaled velocity, a `NoteOff` emits velocity zero, all else emits
/// nothing.
pub open spec fn event_points(time: int, ev: MidiEvent) -> Seq<Point> {
    match ev {
        MidiEvent::NoteOn { note, vel } => seq![
            Point {
                id: note as u64,
                time: clamp_time(time),
                note: note as i64,
                vel: vel_micro(vel),
            },
        ],
        MidiEvent::NoteOff { note } => seq![
            Point { id: note as u64, time: clamp_time(time), note: note as i64, vel: 0 },
        ],
        MidiEvent::SetTempo { .. } => Seq::empty(),
        MidiEvent::Other => Seq::empty(),
    }
}

/// The tempo in force after one event: a `SetTempo` replaces it.
pub open spec fn next_tempo(tempo: int, ev: MidiEvent) -> int {
    match ev {
        MidiEvent::SetTempo { us_per_quarter } => us_per_quarter as int,
        _ => tempo,
    }
}

/// The tempo in force after a whole event sequence.
pub open spec fn tempo_after(events: Seq<(u32, MidiEvent)>, tempo: int) -> int
    decreases events.len(),
{
    if events.len() == 0 {
        tempo
    } else {
        tempo_after(events.drop_first(), next_tempo(tempo, events[0].1))
    }
}

/// The points of one track: running time accumulates, per event, its
/// delta-ticks times the tempo in force, divided by the resolution
/// (all in micro-units, flooring).
pub open spec fn track_floww(events: Seq<(u32, MidiEvent)>, ppqn: u16, time: int, tempo: int) -> Seq<
    Point,
>
    decreases events.len(),
{
    if events.len() == 0 {
        Seq::empty()
    } else {
        let t2 = time + (events[0].0 * tempo) / (ppqn as int);
        event_points(t2, events[0].1) + track_floww(
            events.drop_first(),
            ppqn,
            t2,
            next_tempo(tempo, events[0].1),
        )
    }
}

/// The points of a whole score: each track starts at time zero, but the
/// tempo in force carries over from track to track.
pub open spec fn score_floww(tracks: Seq<Seq<(u32, MidiEvent)>>, ppqn: u16, tempo: int) -> Seq<
    Point,
>
    decreases tracks.len(),
{
    if tracks.len() == 0 {
        Seq::empty()
    } else {
        track_floww(tracks[0], ppqn, 0, tempo) + score_floww(
            tracks.drop_first(),
            ppqn,
            tempo_after(tracks[0], tempo),
        )
    }
}

/// The timeline a score converts to, starting at the default tempo.
pub open spec fn midi_floww(ppqn: u16, tracks: Seq<Seq<(u32, MidiEvent)>>) -> Seq<Point> {
    score_floww(tracks, ppqn, DEFAULT_TEMPO as int)
}

/// Convert a source event stream into a single timeline: tempo-aware
/// tick-to-micro-unit integration, one pass over every track.
pub fn midi_to_floww(midi: MidiData) -> (r: Floww)
    requires
        midi.ppqn > 0,
    ensures
        r@ == midi_floww(midi.ppqn, tracks_view(midi.tracks@)),
{
    let ppqn = midi.ppqn;
    let ghost tracksv = tracks_view(midi.tracks@);
    let mut floww: Vec<Point> = Vec::new();
    let mut tempo: u32 = DEFAULT_TEMPO;
    let mut t: usize = 0;
    proof {
        assert(tracksv.skip(0) =~= tracksv);
    }
    while t < midi.tracks.len()
        invariant
            t <= midi.tracks@.len(),
            ppqn == midi.ppqn,
            midi.ppqn > 0,
            tracksv == tracks_view(midi.tracks@),
            midi_floww(midi.ppqn, tracksv) == floww@ + score_floww(
                tracksv.skip(t as int),
                ppqn,
                tempo as int,
            ),
        decreases midi.tracks@.len() - t,
    {
        let track = &midi.tracks[t];
        let ghost evs = track@;
        let mut time: u128 = 0;
        let mut j: usize = 0;
        proof {
            assert(tracksv.skip(t as int)[0] == evs);
            assert(tracksv.skip(t as int).drop_first() =~= tracksv.skip(t + 1 as int));
            assert(evs.skip(0) =~= evs);
        }
        while j < track.len()
            invariant
                j <= evs.len(),
                track@ == evs,
                ppqn == midi.ppqn,
                midi.ppqn > 0,
                tracksv == tracks_view(midi.tracks@),
                t < tracksv.len(),
                time <= (j as int) * 0x1_0000_0000_0000_0000,
                midi_floww(midi.ppqn, tracksv) == floww@ + (track_floww(
                    evs.skip(j as int),
                    ppqn,
                    time as int,
                    tempo as int,
                ) + score_floww(
                    tracksv.skip(t + 1 as int),
                    ppqn,
                    tempo_after(evs.skip(j as int), tempo as int),
                )),
            decreases evs.len() - j,
        {
            let (delta, ev) = track[j];
            proof {
                assert((delta as u128) * (tempo as u128) < 0x1_0000_0000_0000_0000u128)
                    by (nonlinear_arith)
                    requires
                        delta <= u32::MAX,
                        tempo <= u32::MAX,
                ;
            }
            let add: u128 = ((delta as u128) * (tempo as u128)) / (ppqn as u128);
            proof {
                assert(add < 0x1_0000_0000_0000_0000);
                assert(time + add < ((j + 1) as int) * 0x1_0000_0000_0000_0000) by (
                nonlinear_arith)
                    requires
                        time <= (j as int) * 0x1_0000_0000_0000_0000,
                        add < 0x1_0000_0000_0000_0000,
                ;
                assert(((j + 1) as int) * 0x1_0000_0000_0000_0000 <= u128::MAX + 1) by (
                nonlinear_arith)
                    requires
                        j + 1 <= 0x1_0000_0000_0000_0000,
                ;
                assert(add == ((evs[j as int].0 * (tempo as int)) / (midi.ppqn as int)));
                assert(evs.skip(j as int)[0] == evs[j as int]);
                assert(evs.skip(j as int).drop_first() =~= evs.skip(j + 1 as int));
            }
            time = time + add;
            let pt_time: i64 = if time > (i64::MAX as u128) {
                i64::MAX
            } else {
                time as i64
            };
            proof {
                assert(pt_time == clamp_time(time as int));
            }
            let ghost pre = floww@;
            match ev {
                MidiEvent::NoteOn { note, vel } => {
                    let v: u64 = ((vel as u64) * 1_000_000) / 127;
                    floww.push(
                        Point { id: note as u64, time: pt_time, note: note as i64, vel: v as i64 },
                    );
                    proof {
                        assert(floww@ =~= pre + event_points(time as int, ev));
                    }
                },
                MidiEvent::NoteOff { note } => {
                    floww.push(Point { id: note as u64, time: pt_time, note: note as i64, vel: 0 });
                    proof {
                        assert(floww@ =~= pre + event_points(time as int, ev));
                    }
                },
                MidiEvent::SetTempo { us_per_quarter } => {
                    tempo = us_per_quarter;
                    proof {
                        assert(floww@ =~= pre + event_points(time as int, ev));
                    }
                },
                MidiEvent::Other => {
                    proof {
                        assert(floww@ =~= pre + event_points(time as int, ev));
                    }
                },
            }
            proof {
                assert(pre + (event_points(time as int, ev) + (track_floww(
                    evs.skip(j + 1 as int),
                    ppqn,
                    time as int,
                    tempo as int,
                ) + score_floww(
                    tracksv.skip(t + 1 as int),
                    ppqn,
                    tempo_after(evs.skip(j + 1 as int), tempo as int),
                ))) =~= (pre + event_points(time as int, ev)) + (track_floww(
                    evs.skip(j + 1 as int),
                    ppqn,
                    time as int,
                    tempo as int,
                ) + score_floww(
                    tracksv.skip(t + 1 as int),
                    ppqn,
                    tempo_after(evs.skip(j + 1 as int), tempo as int),
                )));
            }
            j = j + 1;
        }
        proof {
            assert(evs.skip(evs.len() as int).len() == 0);
        }
        t = t + 1;
    }
    proof {
        assert(tracksv.skip(tracksv.len() as int).len() == 0);
        assert(floww@ + Seq::<Point>::empty() =~= floww@);
    }
    floww
}

} // verus!
