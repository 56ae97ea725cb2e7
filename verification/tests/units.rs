//! Unit tests: entry comparison, name parsing, the snapshot cache, the wire
//! layer and the retry policy.

use mcfuse::command::{Body, BodyType};
use mcfuse::entry::{
    CommandProxyFn, DirEntry, DynamicDirFn, DynamicStateType, Entry, EntryAssociatedData,
    FileBehaviour, FileEntry, FileFilterFn, LinkEntry, LinkTargetFn,
};
use mcfuse::command::CommandType;
use mcfuse::num::{format_i32, parse_i32};
use mcfuse::pos::{format_block_position, parse_block_position, BlockPos};
use mcfuse::state::{CachedGameState, GameState, GameStateInterest};
use mcfuse::wire::{
    frame_message, interpret_response, IpcError, ResponsePayload, RetryAction, RetryState,
};

fn file_entry(behaviour: FileBehaviour) -> Entry {
    Entry::File(FileEntry::build(behaviour).finish())
}

#[test]
fn fn_comparison() {
    // filters compare by their rule, not by code address
    let a1_: Option<FileFilterFn> = Some(FileFilterFn::IsInGame);
    let a2_: Option<FileFilterFn> = Some(FileFilterFn::IsInGame);
    let b_: Option<FileFilterFn> = None;

    assert!(a1_ == a1_);
    assert!(a1_ == a2_);
    assert!(a1_ != b_);

    assert!(!(a1_ == Option::<FileFilterFn>::None));
    assert!(Option::<FileFilterFn>::None == Option::<FileFilterFn>::None);
}

#[test]
fn file_entry_comparison() {
    let a = file_entry(FileBehaviour::ReadWrite(CommandType::EntityHealth, BodyType::Float));
    let b = file_entry(FileBehaviour::ReadWrite(CommandType::EntityHealth, BodyType::Float));
    assert!(a.content_eq(&b));
}

#[test]
fn dir_entry_comparison() {
    let mk_dir = || {
        Entry::Dir(
            DirEntry::build()
                .associated_data(EntryAssociatedData::PlayerId)
                .dynamic(DynamicStateType::PlayerId, DynamicDirFn::PlayerSubtree)
                .finish(),
        )
    };

    let a = mk_dir();
    let b = mk_dir();

    assert!(a.content_eq(&b));
}

#[test]
fn link_entry_comparison() {
    let captured = 50i32;

    let mk_link1 = || {
        Entry::Link(LinkEntry::build(LinkTargetFn::Fixed(captured.to_string().into_bytes())).finish())
    };
    let mk_link2 = || Entry::Link(LinkEntry::build(LinkTargetFn::PlayerEntity).finish());

    let mk_link_with_filter = |filter: Option<FileFilterFn>| {
        let mut l = LinkEntry::build(LinkTargetFn::Fixed(b"teehee".to_vec()));
        if let Some(filter) = filter {
            l = l.filter(filter);
        }
        Entry::Link(l.finish())
    };

    let a = mk_link1();
    let b = mk_link1();
    let c = mk_link2();
    let d = mk_link2();

    assert!(a.content_eq(&b));
    assert!(b.content_eq(&a));
    assert!(c.content_eq(&d));

    assert!(!a.content_eq(&c));
    assert!(!b.content_eq(&c));

    assert!(!mk_link_with_filter(None).content_eq(&mk_link_with_filter(Some(FileFilterFn::IsInGame))));

    assert!(mk_link_with_filter(None).content_eq(&mk_link_with_filter(None)));
}

#[test]
fn block_pos_parsing() {
    assert!(matches!(
        parse_block_position(b"1,400,-64"),
        Some(BlockPos { x: 1, y: 400, z: -64 })
    ));
    assert!(matches!(
        parse_block_position(b"1.0 400.0 -64.0"),
        Some(BlockPos { x: 1, y: 400, z: -64 })
    ));
    assert!(matches!(
        parse_block_position(b"-4.011348385264139 105.89626455878891 56.17007141838458"),
        Some(BlockPos { x: -4, y: 105, z: 56 })
    ));
    assert!(matches!(parse_block_position(b"0,0,0"), Some(BlockPos { x: 0, y: 0, z: 0 })));
    assert!(parse_block_position(b"oof").is_none());
    assert!(parse_block_position(b"1,2,3,4").is_none());
    assert!(parse_block_position(b"500,200").is_none());
    assert!(parse_block_position(b"123,nice,200").is_none());
}

#[test]
fn block_pos_format_round_trip() {
    // the canonical "x,y,z" spelling parses back, across the i32 range
    for p in [
        BlockPos { x: 10, y: 64, z: -5 },
        BlockPos { x: i32::MIN, y: i32::MAX, z: 0 },
        BlockPos { x: -1, y: -1, z: -1 },
    ] {
        let s = format_block_position(&p);
        let q = parse_block_position(&s).unwrap();
        assert_eq!((q.x, q.y, q.z), (p.x, p.y, p.z));
    }
}

#[test]
fn integer_format_parse_round_trip() {
    for v in [0i32, 1, -1, 42, i32::MIN, i32::MAX] {
        assert_eq!(parse_i32(&format_i32(v)), Some(v));
    }
    assert_eq!(parse_i32(b"2147483648"), None);
    assert_eq!(parse_i32(b"abc"), None);
    assert_eq!(parse_i32(b""), None);
}

#[test]
fn write_body_parsing() {
    // integers: trimmed, strict
    assert!(matches!(BodyType::Integer.create_from_data(b"42\n"), Some(Body::Integer(42))));
    assert!(BodyType::Integer.create_from_data(b"4.2\n").is_none());
    // floats travel as text
    match BodyType::Float.create_from_data(b"20.5\n") {
        Some(Body::Float(t)) => assert_eq!(t, b"20.5".to_vec()),
        _ => panic!("float body expected"),
    }
    assert!(BodyType::Float.create_from_data(b"abc\n").is_none());
    // positions: three float tokens
    match BodyType::Position.create_from_data(b"1.5 2 -3e2\n") {
        Some(Body::Position { x, y, z }) => {
            assert_eq!(x, b"1.5".to_vec());
            assert_eq!(y, b"2".to_vec());
            assert_eq!(z, b"-3e2".to_vec());
        }
        _ => panic!("position body expected"),
    }
    assert!(BodyType::Position.create_from_data(b"1 2\n").is_none());
    // strings keep the trimmed text; invalid UTF-8 is rejected
    match BodyType::String.create_from_data(b"creative\n") {
        Some(Body::String(t)) => assert_eq!(t, b"creative".to_vec()),
        _ => panic!("string body expected"),
    }
    assert!(BodyType::String.create_from_data(&[0xff, 0xfe]).is_none());
}

fn snapshot() -> GameState {
    GameState {
        player_entity_id: Some(0),
        player_world: None,
        entities: Vec::new(),
        block: None,
    }
}

#[test]
fn cache_serves_within_ttl() {
    // two gets with the same interest inside the TTL: one fetch only
    let mut cache = CachedGameState::new(0);
    let interest = GameStateInterest::default();
    assert!(cache.needs_fetch(1000, &interest));
    cache.store(1000, interest, snapshot());
    assert!(!cache.needs_fetch(1100, &interest));
    assert_eq!(cache.cached().player_entity_id, Some(0));
    // the TTL passing forces a refetch
    assert!(cache.needs_fetch(1000 + 501, &interest));
}

#[test]
fn cache_additive_interest_fetches() {
    let mut cache = CachedGameState::new(0);
    let plain = GameStateInterest::default();
    cache.store(1000, plain, snapshot());
    // turning on a field the last request did not cover refetches at once
    let mut more = GameStateInterest::default();
    more.entities_by_id = true;
    assert!(cache.needs_fetch(1001, &more));
    // a block target that differs refetches too
    let mut blocky = GameStateInterest::default();
    blocky.target_block = Some(BlockPos { x: 1, y: 2, z: 3 });
    assert!(cache.needs_fetch(1001, &blocky));
    // the same interest again does not
    assert!(!cache.needs_fetch(1001, &plain));
}

#[test]
fn frame_layout() {
    let framed = frame_message(b"abc");
    assert_eq!(framed, vec![3, 0, 0, 0, b'a', b'b', b'c']);
}

#[test]
fn retry_policy_two_reconnects_then_give_up() {
    let mut rs = RetryState::new();
    assert_eq!(rs.on_write_error(true), RetryAction::Reconnect);
    assert_eq!(rs.on_write_error(true), RetryAction::Reconnect);
    assert_eq!(rs.on_write_error(true), RetryAction::GiveUp);
    // a success refills the budget
    rs.on_success();
    assert_eq!(rs.on_write_error(true), RetryAction::Reconnect);
    // a non-rebootable error gives up at once and spends nothing
    assert_eq!(rs.on_write_error(false), RetryAction::GiveUp);
    assert_eq!(rs.on_write_error(true), RetryAction::Reconnect);
}

#[test]
fn response_interpretation() {
    let empty = ResponsePayload { error: None, float: None, int: None, string: None, vec: None };
    match interpret_response(None, empty) {
        Ok(None) => {}
        _ => panic!("empty reply expected"),
    }
    let int_reply = ResponsePayload {
        error: None,
        float: None,
        int: Some(500),
        string: None,
        vec: None,
    };
    match interpret_response(Some(BodyType::Integer), int_reply) {
        Ok(Some(Body::Integer(500))) => {}
        _ => panic!("typed integer expected"),
    }
    let mismatched = ResponsePayload {
        error: None,
        float: None,
        int: Some(500),
        string: None,
        vec: None,
    };
    match interpret_response(Some(BodyType::String), mismatched) {
        Err(IpcError::UnexpectedResponse(Some(BodyType::String))) => {}
        _ => panic!("type mismatch expected"),
    }
    let err_reply = ResponsePayload {
        error: Some(mcfuse::wire::Error::NoGame),
        float: None,
        int: None,
        string: None,
        vec: None,
    };
    match interpret_response(Some(BodyType::Integer), err_reply) {
        Err(IpcError::NoCurrentGame) => {}
        _ => panic!("no-current-game expected"),
    }
}

#[test]
fn proxy_write_transformation() {
    // a verbatim proxy passes the text through; empty input is invalid
    assert_eq!(CommandProxyFn::Verbatim.produce(b"weather clear"), Some(b"weather clear".to_vec()));
    assert_eq!(CommandProxyFn::Verbatim.produce(b""), None);
}
