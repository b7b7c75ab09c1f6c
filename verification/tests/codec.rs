use floww::{
    unpacket, DecodeError, DecodeIntoFlowwPackets, Encodable, Floww, FlowwPacket, Point,
    StreamDecoder, TrackMap,
};

fn pt(id: u64, time: i64, note: i64, vel: i64) -> Point {
    Point { id, time, note, vel }
}

fn drum_map() -> TrackMap {
    let mut map = TrackMap::new();
    map.insert("snare".to_string(), 0);
    map.insert("kick".to_string(), 1);
    map.insert("crash".to_string(), 2);
    map
}

#[test]
fn encode_decode() {
    let mut tracks: Vec<Floww> = vec![vec![], vec![], vec![]];
    let map = drum_map();

    let a = vec![
        FlowwPacket::Msg("beat".to_string()),
        FlowwPacket::Track("snare".to_string()),
        FlowwPacket::Point(pt(0, 1_250_000, 0, 1_000_000)),
        FlowwPacket::Point(pt(0, 1_750_000, 0, 1_000_000)),
        FlowwPacket::Track("kick".to_string()),
        FlowwPacket::Point(pt(0, 1_000_000, 0, 1_000_000)),
        FlowwPacket::Point(pt(0, 1_250_000, 0, 1_000_000)),
        FlowwPacket::Point(pt(0, 1_500_000, 0, 1_000_000)),
        FlowwPacket::Point(pt(0, 1_750_000, 0, 1_000_000)),
    ];

    let messages = unpacket(&mut tracks, &map, a.encoded().decoded().unwrap());
    assert_eq!(messages, vec!["beat".to_string()]);
    assert_eq!(
        tracks[0],
        vec![pt(0, 1_250_000, 0, 1_000_000), pt(0, 1_750_000, 0, 1_000_000)]
    );
    assert_eq!(
        tracks[1],
        vec![
            pt(0, 1_000_000, 0, 1_000_000),
            pt(0, 1_250_000, 0, 1_000_000),
            pt(0, 1_500_000, 0, 1_000_000),
            pt(0, 1_750_000, 0, 1_000_000)
        ]
    );
    let b = vec![
        FlowwPacket::Track("snare".to_string()),
        FlowwPacket::Point(pt(0, 2_000_000, 0, 1_000_000)),
        FlowwPacket::Track("crash".to_string()),
        FlowwPacket::Point(pt(0, 2_000_000, 0, 1_000_000)),
    ];
    let messages = unpacket(&mut tracks, &map, b.encoded().decoded().unwrap());
    assert_eq!(messages, Vec::<String>::new());
    assert_eq!(
        tracks[0],
        vec![
            pt(0, 1_250_000, 0, 1_000_000),
            pt(0, 1_750_000, 0, 1_000_000),
            pt(0, 2_000_000, 0, 1_000_000)
        ]
    );
    assert_eq!(tracks[2], vec![pt(0, 2_000_000, 0, 1_000_000)]);
}

#[test]
fn round_trip_preserves_everything() {
    let p = vec![
        FlowwPacket::Msg(String::new()),
        FlowwPacket::Msg("héllo, wörld — नमस्ते".to_string()),
        FlowwPacket::Track("tränen".to_string()),
        FlowwPacket::Point(pt(u64::MAX, i64::MIN, i64::MAX, -1)),
        FlowwPacket::Point(pt(0, 0, 0, 0)),
    ];
    let decoded = p.encode().decoded().unwrap();
    assert_eq!(p, decoded);
}

#[test]
fn round_trip_of_empty_batch() {
    let p: Vec<FlowwPacket> = Vec::new();
    assert_eq!(p.encode().decoded().unwrap(), Vec::<FlowwPacket>::new());
}

#[test]
fn malformed_bytes_are_rejected() {
    // too short for a count word
    assert_eq!(vec![1u8, 2, 3].decoded(), Err(DecodeError::Malformed));
    // a count of one but no packet
    let mut b = vec![1u8, 0, 0, 0, 0, 0, 0, 0];
    assert_eq!(b.clone().decoded(), Err(DecodeError::Malformed));
    // a bad tag byte
    b.push(9);
    assert_eq!(b.decoded(), Err(DecodeError::Malformed));
    // trailing garbage after a well-formed batch
    let mut good = vec![FlowwPacket::Msg("x".to_string())].encode();
    good.push(0);
    assert_eq!(good.decoded(), Err(DecodeError::Malformed));
    // invalid UTF-8 in a text payload
    let mut bad_text = vec![1u8, 0, 0, 0, 0, 0, 0, 0];
    bad_text.push(0); // Msg tag
    bad_text.extend_from_slice(&[1, 0, 0, 0, 0, 0, 0, 0]); // length 1
    bad_text.push(0xFF); // not UTF-8
    assert_eq!(bad_text.decoded(), Err(DecodeError::Malformed));
}

#[test]
fn decoder_soft_failure_leaves_destinations_untouched() {
    let mut tracks: Vec<Floww> = vec![vec![pt(1, 2, 3, 4)], vec![]];
    let before = tracks.clone();
    let map = drum_map();
    let mut dec = StreamDecoder::new();
    let msgs = dec.decode_bytes(&mut tracks, &map, vec![0u8, 1, 2]);
    assert_eq!(msgs, Vec::<String>::new());
    assert_eq!(tracks, before);
    assert_eq!(dec.current, None);
}

#[test]
fn decoder_state_persists_across_chunks() {
    let mut tracks: Vec<Floww> = vec![vec![], vec![]];
    let map = drum_map();
    let mut dec = StreamDecoder::new();

    let chunk1 = vec![FlowwPacket::Track("kick".to_string())].encode();
    let chunk2 = vec![FlowwPacket::Point(pt(7, 1, 2, 3))].encode();
    dec.decode_bytes(&mut tracks, &map, chunk1);
    assert_eq!(dec.current, Some(1));
    dec.decode_bytes(&mut tracks, &map, chunk2);
    assert_eq!(tracks[1], vec![pt(7, 1, 2, 3)]);
    assert_eq!(tracks[0], Vec::<Point>::new());
}

#[test]
fn points_before_any_track_are_dropped() {
    let mut tracks: Vec<Floww> = vec![vec![]];
    let map = drum_map();
    let msgs = unpacket(&mut tracks, &map, vec![FlowwPacket::Point(pt(0, 1, 2, 3))]);
    assert_eq!(msgs, Vec::<String>::new());
    assert_eq!(tracks[0], Vec::<Point>::new());
}

#[test]
fn unresolved_track_gates_until_resolved() {
    // destinations indexed snare:0, kick:1, crash:2
    let mut tracks: Vec<Floww> = vec![vec![], vec![], vec![]];
    let map = drum_map();
    let packets = vec![
        FlowwPacket::Msg("beat".to_string()),
        FlowwPacket::Track("snare".to_string()),
        FlowwPacket::Point(pt(0, 0, 250_000, 1_000_000)),
        FlowwPacket::Track("gong".to_string()), // unknown: gate closes
        FlowwPacket::Point(pt(0, 0, 750_000, 1_000_000)), // dropped
        FlowwPacket::Track("kick".to_string()), // resolves: delivery resumes
        FlowwPacket::Point(pt(0, 0, 0, 1_000_000)),
    ];
    let msgs = unpacket(&mut tracks, &map, packets);
    assert_eq!(msgs, vec!["beat".to_string()]);
    assert_eq!(tracks[0], vec![pt(0, 0, 250_000, 1_000_000)]);
    assert_eq!(tracks[1], vec![pt(0, 0, 0, 1_000_000)]);
    assert_eq!(tracks[2], Vec::<Point>::new());
}

#[test]
fn out_of_range_destination_is_ignored() {
    let mut tracks: Vec<Floww> = vec![vec![]];
    let mut map = TrackMap::new();
    map.insert("far".to_string(), 5);
    let msgs = unpacket(
        &mut tracks,
        &map,
        vec![
            FlowwPacket::Track("far".to_string()),
            FlowwPacket::Point(pt(0, 1, 2, 3)),
        ],
    );
    assert_eq!(msgs, Vec::<String>::new());
    assert_eq!(tracks[0], Vec::<Point>::new());
}

#[test]
fn decoding_routes_to_named_destinations() {
    let mut tracks: Vec<Floww> = vec![vec![], vec![], vec![]];
    let map = drum_map();
    let packets = vec![
        FlowwPacket::Msg("beat".to_string()),
        FlowwPacket::Track("snare".to_string()),
        FlowwPacket::Point(pt(0, 0, 250_000, 1_000_000)),
        FlowwPacket::Point(pt(0, 0, 750_000, 1_000_000)),
        FlowwPacket::Track("kick".to_string()),
        FlowwPacket::Point(pt(0, 0, 0, 1_000_000)),
    ];
    let msgs = unpacket(&mut tracks, &map, packets);
    assert_eq!(msgs, vec!["beat".to_string()]);
    assert_eq!(
        tracks[0],
        vec![pt(0, 0, 250_000, 1_000_000), pt(0, 0, 750_000, 1_000_000)]
    );
    assert_eq!(tracks[1], vec![pt(0, 0, 0, 1_000_000)]);
    assert_eq!(tracks[2], Vec::<Point>::new());
}
