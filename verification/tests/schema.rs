use pingprobe::message::{decode, encode, ClientMsg, Coord, DecodeError, Frame, ServerMsg};
use pingprobe::users::{ServerState, User};

fn at(x: f64, y: f64) -> Coord {
    Coord { x: x.to_bits(), y: y.to_bits() }
}

fn frame(tag: &str, x: Option<f64>, y: Option<f64>) -> Frame {
    Frame { tag: tag.to_string(), x: x.map(f64::to_bits), y: y.map(f64::to_bits) }
}

#[test]
fn ping_frame_is_tag_only() {
    assert_eq!(encode(&ServerMsg::Ping), frame("Ping", None, None));
}

#[test]
fn coord_frame_carries_both_axes() {
    assert_eq!(
        encode(&ServerMsg::Coord(at(1.0, 2.0))),
        frame("Coord", Some(1.0), Some(2.0))
    );
}

#[test]
fn coord_frame_keeps_the_bits_of_each_axis() {
    let odd = Coord { x: (-0.0f64).to_bits(), y: f64::NAN.to_bits() };
    let out = encode(&ServerMsg::Coord(odd));
    assert_eq!(out.x, Some(0x8000_0000_0000_0000));
    assert_eq!(out.y, Some(f64::NAN.to_bits()));
}

#[test]
fn different_messages_have_different_frames() {
    let all = [
        ServerMsg::Ping,
        ServerMsg::Coord(at(0.0, 0.0)),
        ServerMsg::Coord(at(0.0, 1.0)),
        ServerMsg::Coord(at(1.0, 0.0)),
    ];
    for a in all.iter() {
        for b in all.iter() {
            assert_eq!(encode(a) == encode(b), a == b);
        }
    }
}

#[test]
fn pong_decodes() {
    assert_eq!(decode(&frame("Pong", None, None)), Ok(ClientMsg::Pong));
}

#[test]
fn pong_tolerates_extra_members() {
    assert_eq!(decode(&frame("Pong", Some(3.5), None)), Ok(ClientMsg::Pong));
    assert_eq!(decode(&frame("Pong", Some(3.5), Some(-1.0))), Ok(ClientMsg::Pong));
}

#[test]
fn coord_decodes() {
    assert_eq!(
        decode(&frame("Coord", Some(1.0), Some(2.0))),
        Ok(ClientMsg::Coord(at(1.0, 2.0)))
    );
}

#[test]
fn coord_does_not_swap_axes() {
    assert_eq!(
        decode(&frame("Coord", Some(-7.25), Some(1e300))),
        Ok(ClientMsg::Coord(Coord { x: (-7.25f64).to_bits(), y: 1e300f64.to_bits() }))
    );
}

#[test]
fn coord_without_an_axis_is_missing_field() {
    assert_eq!(decode(&frame("Coord", Some(1.0), None)), Err(DecodeError::MissingField));
    assert_eq!(decode(&frame("Coord", None, Some(2.0))), Err(DecodeError::MissingField));
    assert_eq!(decode(&frame("Coord", None, None)), Err(DecodeError::MissingField));
}

#[test]
fn unknown_tag_is_unknown_variant() {
    assert_eq!(decode(&frame("Bogus", None, None)), Err(DecodeError::UnknownVariant));
    assert_eq!(decode(&frame("Bogus", Some(1.0), Some(2.0))), Err(DecodeError::UnknownVariant));
    assert_eq!(decode(&frame("", None, None)), Err(DecodeError::UnknownVariant));
}

#[test]
fn server_tags_are_not_client_tags() {
    assert_eq!(decode(&encode(&ServerMsg::Ping)), Err(DecodeError::UnknownVariant));
}

#[test]
fn tags_are_case_sensitive() {
    assert_eq!(decode(&frame("pong", None, None)), Err(DecodeError::UnknownVariant));
    assert_eq!(decode(&frame("PONG", None, None)), Err(DecodeError::UnknownVariant));
    assert_eq!(decode(&frame("Pong ", None, None)), Err(DecodeError::UnknownVariant));
    assert_eq!(decode(&frame("coord", Some(1.0), Some(2.0))), Err(DecodeError::UnknownVariant));
}

#[test]
fn position_frame_round_trips_through_decode() {
    let c = at(12.5, -3.0);
    assert_eq!(decode(&encode(&ServerMsg::Coord(c))), Ok(ClientMsg::Coord(c)));
}

#[test]
fn new_table_is_empty() {
    let table = ServerState::new();
    assert_eq!(table.len(), 0);
    assert_eq!(table.snapshot(), Vec::<User>::new());
    assert_eq!(table.coordinate_of(1), None);
}

#[test]
fn place_adds_then_overwrites() {
    let mut table = ServerState::new();
    table.place(10, at(1.0, 1.0));
    table.place(20, at(2.0, 2.0));
    table.place(30, at(3.0, 3.0));
    assert_eq!(table.len(), 3);
    table.place(20, at(9.0, 8.0));
    assert_eq!(table.len(), 3);
    assert_eq!(
        table.snapshot(),
        vec![
            User { id: 10, coord: at(1.0, 1.0) },
            User { id: 20, coord: at(9.0, 8.0) },
            User { id: 30, coord: at(3.0, 3.0) },
        ]
    );
    assert_eq!(table.coordinate_of(10), Some(at(1.0, 1.0)));
    assert_eq!(table.coordinate_of(20), Some(at(9.0, 8.0)));
    assert_eq!(table.coordinate_of(30), Some(at(3.0, 3.0)));
    assert_eq!(table.coordinate_of(40), None);
}

#[test]
fn release_removes_one_user_and_keeps_order() {
    let mut table = ServerState::new();
    table.place(10, at(1.0, 1.0));
    table.place(20, at(2.0, 2.0));
    table.place(30, at(3.0, 3.0));
    assert!(table.release(20));
    assert_eq!(
        table.snapshot(),
        vec![User { id: 10, coord: at(1.0, 1.0) }, User { id: 30, coord: at(3.0, 3.0) }]
    );
    assert_eq!(table.coordinate_of(20), None);
    assert!(!table.release(20));
    assert_eq!(table.len(), 2);
    assert!(table.release(10));
    assert!(table.release(30));
    assert_eq!(table.len(), 0);
}

#[test]
fn released_user_comes_back_at_the_end() {
    let mut table = ServerState::new();
    table.place(1, at(1.0, 0.0));
    table.place(2, at(2.0, 0.0));
    table.release(1);
    table.place(1, at(5.0, 0.0));
    assert_eq!(
        table.snapshot(),
        vec![User { id: 2, coord: at(2.0, 0.0) }, User { id: 1, coord: at(5.0, 0.0) }]
    );
}

#[test]
fn identifiers_use_all_128_bits() {
    let mut table = ServerState::new();
    let low = 1u128;
    let high = 1u128 << 64 | 1;
    table.place(low, at(1.0, 0.0));
    table.place(high, at(2.0, 0.0));
    assert_eq!(table.len(), 2);
    assert_eq!(table.coordinate_of(low), Some(at(1.0, 0.0)));
    assert_eq!(table.coordinate_of(high), Some(at(2.0, 0.0)));
    assert_eq!(table.coordinate_of(u128::MAX), None);
}

#[test]
fn snapshot_never_repeats_an_identifier() {
    let mut table = ServerState::new();
    for round in 0..4u64 {
        for id in [3u128, 1, 2, 3, 1] {
            table.place(id, Coord { x: round, y: round });
        }
        table.release(2);
    }
    let ids: Vec<u128> = table.snapshot().iter().map(|u| u.id).collect();
    assert_eq!(ids, vec![3, 1]);
}
