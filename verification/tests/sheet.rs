use floww::{
    midi_to_floww, unpacket, DecodeIntoFlowwPackets, Floww, FlowwPacket, FlowwSheet, MidiData,
    MidiEvent, Point, TrackMap,
};

fn pt(id: u64, time: i64, note: i64, vel: i64) -> Point {
    Point { id, time, note, vel }
}

#[test]
fn sheet_add_and_lookup() {
    let mut sheet = FlowwSheet::new();
    sheet.add(vec![pt(0, 1, 0, 0)], "lead".to_string());
    sheet.add(vec![pt(1, 2, 0, 0), pt(2, 3, 0, 0)], "bass".to_string());
    assert_eq!(sheet.get_names(), vec!["lead".to_string(), "bass".to_string()]);
    assert_eq!(
        sheet.get_floww_ref_by_name(&"bass".to_string()),
        &[pt(1, 2, 0, 0), pt(2, 3, 0, 0)][..]
    );
    assert_eq!(sheet.get_floww_ref_by_name(&"lead".to_string()), &[pt(0, 1, 0, 0)][..]);
    // an absent name yields an empty view, never a failure
    assert_eq!(sheet.get_floww_ref_by_name(&"gone".to_string()), &[][..] as &[Point]);
}

#[test]
fn sheet_reset_replaces_in_place() {
    let mut sheet = FlowwSheet::new();
    sheet.add(vec![pt(0, 1, 0, 0)], "lead".to_string());
    sheet.add(vec![pt(1, 2, 0, 0)], "bass".to_string());
    assert!(sheet.reset(&"lead".to_string(), vec![pt(9, 9, 9, 9)]));
    assert_eq!(sheet.get_floww_ref_by_name(&"lead".to_string()), &[pt(9, 9, 9, 9)][..]);
    assert_eq!(sheet.get_floww_ref_by_name(&"bass".to_string()), &[pt(1, 2, 0, 0)][..]);
    // resetting an unknown name is a no-op that reports false
    assert!(!sheet.reset(&"gone".to_string(), vec![pt(5, 5, 5, 5)]));
    assert_eq!(sheet.get_names(), vec!["lead".to_string(), "bass".to_string()]);
}

#[test]
fn sheet_flattens_to_packets_in_insertion_order() {
    let mut sheet = FlowwSheet::new();
    sheet.add(vec![pt(0, 1, 0, 0), pt(1, 2, 0, 0)], "a".to_string());
    sheet.add(vec![], "b".to_string());
    sheet.add(vec![pt(2, 3, 0, 0)], "c".to_string());
    let packets = sheet.to_floww_packets();
    assert_eq!(
        packets,
        vec![
            FlowwPacket::Track("a".to_string()),
            FlowwPacket::Point(pt(0, 1, 0, 0)),
            FlowwPacket::Point(pt(1, 2, 0, 0)),
            FlowwPacket::Track("b".to_string()),
            FlowwPacket::Track("c".to_string()),
            FlowwPacket::Point(pt(2, 3, 0, 0)),
        ]
    );
}

#[test]
fn sheet_serializes_to_a_decodable_envelope() {
    let mut sheet = FlowwSheet::new();
    sheet.add(vec![pt(0, 10, 20, 30)], "only".to_string());
    let bytes = sheet.serialize();
    let packets = bytes.decoded().unwrap();
    assert_eq!(
        packets,
        vec![
            FlowwPacket::Track("only".to_string()),
            FlowwPacket::Point(pt(0, 10, 20, 30)),
        ]
    );
}

#[test]
fn sheet_round_trips_through_the_decoder() {
    let mut sheet = FlowwSheet::new();
    sheet.add(vec![pt(0, 1, 0, 0)], "left".to_string());
    sheet.add(vec![pt(1, 2, 0, 0)], "right".to_string());
    let bytes = sheet.serialize();

    let mut map = TrackMap::new();
    map.insert("left".to_string(), 0);
    map.insert("right".to_string(), 1);
    let mut tracks: Vec<Floww> = vec![vec![], vec![]];
    let msgs = unpacket(&mut tracks, &map, bytes.decoded().unwrap());
    assert_eq!(msgs, Vec::<String>::new());
    assert_eq!(tracks[0], vec![pt(0, 1, 0, 0)]);
    assert_eq!(tracks[1], vec![pt(1, 2, 0, 0)]);
}

#[test]
fn midi_conversion_integrates_ticks_and_tempo() {
    // resolution: 4 ticks per quarter; default tempo: one quarter per
    // second, so one tick is 250_000 micro-units until the tempo changes
    let data = MidiData {
        ppqn: 4,
        tracks: vec![vec![
            (4, MidiEvent::NoteOn { note: 60, vel: 127 }),
            (4, MidiEvent::SetTempo { us_per_quarter: 500_000 }),
            (4, MidiEvent::NoteOn { note: 64, vel: 0 }),
            (0, MidiEvent::NoteOff { note: 60 }),
            (2, MidiEvent::Other),
        ]],
    };
    let fl = midi_to_floww(data);
    assert_eq!(
        fl,
        vec![
            pt(60, 1_000_000, 60, 1_000_000),
            // tempo halves after two seconds: 4 more ticks take 500_000
            pt(64, 2_500_000, 64, 0),
            pt(60, 2_500_000, 60, 0),
        ]
    );
}

#[test]
fn midi_tempo_carries_over_tracks_but_time_restarts() {
    let data = MidiData {
        ppqn: 2,
        tracks: vec![
            vec![(0, MidiEvent::SetTempo { us_per_quarter: 2_000_000 })],
            vec![(1, MidiEvent::NoteOn { note: 1, vel: 127 })],
        ],
    };
    let fl = midi_to_floww(data);
    // the second track starts at time zero but under the new tempo:
    // one tick is half a quarter, two seconds each, so 1_000_000
    assert_eq!(fl, vec![pt(1, 1_000_000, 1, 1_000_000)]);
}

#[test]
fn midi_velocity_scales_to_micro_units() {
    let data = MidiData {
        ppqn: 1,
        tracks: vec![vec![(0, MidiEvent::NoteOn { note: 5, vel: 64 })]],
    };
    let fl = midi_to_floww(data);
    // 64/127 of full velocity, flooring in micro-units
    assert_eq!(fl, vec![pt(5, 0, 5, 503_937)]);
}
