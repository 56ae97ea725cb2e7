//! End-to-end scenarios against a mock game: the engine runs unchanged, the
//! socket is replaced by an in-process responder speaking the wire codec.

use std::collections::HashMap;

use mcfuse::command::{render_body, Body, CommandType};
use mcfuse::entry::{CommandProxyFn, Entry, FileBehaviour, FileEntry};
use mcfuse::fuse::{
    ipc_error_code, FileKind, LookupStep, MinecraftFs, ReadOutcome, EOPNOTSUPP,
};
use mcfuse::pos::{BlockPos, Dimension};
use mcfuse::registry::FilesystemStructure;
use mcfuse::state::{BlockDetails, CachedGameState, EntityDetails, GameState, GameStateInterest};
use mcfuse::wire::{
    build_command_request, decode_request, decode_response, encode_request, encode_response,
    frame_message, interpret_response, CommandPayload, GameRequest, GameResponse, ResponsePayload,
};

/// The mock game: in a game as player entity 0, entities [0, 17, 42] with 42
/// a living kind and 17 not, world Overworld. Reads echo what writes stored.
struct MockGame {
    health: HashMap<i32, Vec<u8>>,
    time: i32,
    requests: usize,
}

impl MockGame {
    fn new() -> Self {
        MockGame { health: HashMap::new(), time: 500, requests: 0 }
    }

    fn snapshot(&self, interest: &GameStateInterest) -> GameState {
        let entities = if interest.entities_by_id {
            vec![
                EntityDetails { id: 0, living: true },
                EntityDetails { id: 17, living: false },
                EntityDetails { id: 42, living: true },
            ]
        } else {
            Vec::new()
        };
        let block = interest.target_block.map(|pos| BlockDetails { pos, has_color: true });
        GameState {
            player_entity_id: Some(0),
            player_world: Some(Dimension::Overworld),
            entities,
            block,
        }
    }

    fn target_of(&self, c: &CommandPayload) -> i32 {
        match c.target_entity {
            Some(id) => id,
            None => 0,
        }
    }

    /// One request/response exchange over payload bytes.
    fn respond(&mut self, payload: &[u8]) -> Vec<u8> {
        self.requests += 1;
        let req = decode_request(payload).expect("malformed request");
        let resp = match req {
            GameRequest::StateRequest(interest) => {
                GameResponse::StateResponse(self.snapshot(&interest))
            }
            GameRequest::Command(c) => {
                let mut p = ResponsePayload {
                    error: None,
                    float: None,
                    int: None,
                    string: None,
                    vec: None,
                };
                match (c.cmd, &c.write) {
                    (CommandType::PlayerName, None) => {
                        p.string = Some(b"TestPlayer".to_vec());
                    }
                    (CommandType::EntityType, None) => {
                        p.string = Some(b"Cow".to_vec());
                    }
                    (CommandType::EntityPosition, None) => {
                        p.vec = Some((b"100".to_vec(), b"64".to_vec(), b"205.2".to_vec()));
                    }
                    (CommandType::EntityHealth, None) => {
                        let id = self.target_of(&c);
                        let text = self.health.get(&id).cloned().unwrap_or(b"10".to_vec());
                        p.float = Some(text);
                    }
                    (CommandType::WorldTime, None) => {
                        p.int = Some(self.time);
                    }
                    (CommandType::EntityHealth, Some(Body::Float(t))) => {
                        let id = self.target_of(&c);
                        self.health.insert(id, t.clone());
                    }
                    (CommandType::WorldTime, Some(Body::Integer(v))) => {
                        self.time = *v;
                    }
                    _ => {}
                }
                GameResponse::Response(p)
            }
        };
        encode_response(&resp).expect("encodable response")
    }
}

/// Fetch a snapshot through the cache and the wire, as the adaptor would.
fn fetch_state(
    game: &mut MockGame,
    cache: &mut CachedGameState,
    interest: GameStateInterest,
    now: u64,
) -> GameState {
    if cache.needs_fetch(now, &interest) {
        let req = GameRequest::StateRequest(interest);
        let payload = encode_request(&req).unwrap();
        // exercise the framing layer on the way out
        let framed = frame_message(&payload);
        assert_eq!(&framed[4..], &payload[..]);
        let resp_bytes = game.respond(&payload);
        match decode_response(&resp_bytes).expect("malformed response") {
            GameResponse::StateResponse(s) => {
                cache.store(now, interest, s);
            }
            _ => panic!("state response expected"),
        }
    }
    cache.cached().clone()
}

/// Resolve one name under a parent, generating dynamics on a miss.
fn lookup(fs: &mut MinecraftFs, game: &mut MockGame, parent: u64, name: &[u8], now: u64) -> Option<u64> {
    match fs.lookup_prepare(parent, name, now) {
        LookupStep::Found(ino, _) => Some(ino),
        LookupStep::NoEnt => None,
        LookupStep::NeedState(dynamics) => {
            let interest = dynamics.as_interest();
            let mut cache = CachedGameState::new(0);
            let snapshot = fetch_state(game, &mut cache, interest, now);
            match fs.lookup_finish(parent, name, &snapshot, dynamics, now) {
                Ok((ino, _)) => Some(ino),
                Err(_) => None,
            }
        }
    }
}

/// Walk a path from the root.
fn resolve(fs: &mut MinecraftFs, game: &mut MockGame, path: &[&[u8]], now: u64) -> Option<u64> {
    let mut cur = 1u64;
    for seg in path {
        cur = lookup(fs, game, cur, seg, now)?;
    }
    Some(cur)
}

/// List a directory's names, dynamics refreshed first.
fn readdir(fs: &mut MinecraftFs, game: &mut MockGame, ino: u64, offset: u64, now: u64) -> Vec<(u64, Vec<u8>)> {
    let dynamics = fs.readdir_prepare(ino, now).expect("a directory");
    let interest = dynamics.as_interest();
    let mut cache = CachedGameState::new(0);
    let snapshot = fetch_state(game, &mut cache, interest, now);
    fs.structure.ensure_generated(&snapshot, dynamics, now);
    fs.readdir_list(ino, offset, &snapshot)
        .expect("listing")
        .into_iter()
        .map(|e| (e.ino, e.name))
        .collect()
}

/// Read a file's content through the mock game.
fn do_read(fs: &MinecraftFs, game: &mut MockGame, ino: u64) -> Result<Vec<u8>, i32> {
    match fs.read(ino, 0, 4096)? {
        ReadOutcome::Data(d) => Ok(d),
        ReadOutcome::Command(c, t, cs) => {
            let req = build_command_request(c, None, cs);
            let payload = encode_request(&req).unwrap();
            let resp_bytes = game.respond(&payload);
            let p = match decode_response(&resp_bytes).expect("malformed response") {
                GameResponse::Response(p) => p,
                _ => panic!("typed response expected"),
            };
            match interpret_response(Some(t), p) {
                Ok(Some(b)) => Ok(render_body(&b)),
                Ok(None) => panic!("a body was expected"),
                Err(e) => Err(ipc_error_code(&e)),
            }
        }
    }
}

/// Write a file's content through the mock game.
fn do_write(fs: &MinecraftFs, game: &mut MockGame, ino: u64, data: &[u8]) -> Result<u32, i32> {
    let plan = fs.write(ino, data)?;
    let req = build_command_request(plan.cmd, Some(plan.body), plan.state);
    let payload = encode_request(&req).unwrap();
    let resp_bytes = game.respond(&payload);
    let p = match decode_response(&resp_bytes).expect("malformed response") {
        GameResponse::Response(p) => p,
        _ => panic!("typed response expected"),
    };
    match interpret_response(None, p) {
        Ok(None) => Ok(plan.written),
        Ok(Some(_)) => panic!("no body expected for a write"),
        Err(e) => Err(ipc_error_code(&e)),
    }
}

#[test]
fn readdir_player_listing() {
    let mut fs = MinecraftFs::new(0, 0);
    let mut game = MockGame::new();
    let player = resolve(&mut fs, &mut game, &[b"player"], 1000).unwrap();
    let names: Vec<Vec<u8>> = readdir(&mut fs, &mut game, player, 0, 1000)
        .into_iter()
        .map(|(_, n)| n)
        .collect();
    // static children in insertion order, then the generated entity files
    assert_eq!(
        &names[..8],
        &[
            b"name".to_vec(),
            b"gamemode".to_vec(),
            b"hunger".to_vec(),
            b"saturation".to_vec(),
            b"exhaustion".to_vec(),
            b"entity".to_vec(),
            b"world".to_vec(),
            b"control".to_vec(),
        ]
    );
    assert!(names.contains(&b"health".to_vec()));
    assert!(names.contains(&b"position".to_vec()));
}

#[test]
fn cat_player_name() {
    let mut fs = MinecraftFs::new(0, 0);
    let mut game = MockGame::new();
    let ino = resolve(&mut fs, &mut game, &[b"player", b"name"], 1000).unwrap();
    assert_eq!(do_read(&fs, &mut game, ino).unwrap(), b"TestPlayer\n".to_vec());
}

#[test]
fn readlink_player_entity() {
    let mut fs = MinecraftFs::new(0, 0);
    let mut game = MockGame::new();
    let ino = resolve(&mut fs, &mut game, &[b"player", b"entity"], 1000).unwrap();
    let mut cache = CachedGameState::new(0);
    let snapshot = fetch_state(&mut game, &mut cache, GameStateInterest::default(), 1000);
    let target = fs.readlink(ino, &snapshot).unwrap();
    assert_eq!(target, b"world/entities/by-id/0".to_vec());
}

#[test]
fn entity_health_write_then_read() {
    let mut fs = MinecraftFs::new(0, 0);
    let mut game = MockGame::new();
    let health = resolve(
        &mut fs,
        &mut game,
        &[b"worlds", b"overworld", b"entities", b"by-id", b"17", b"health"],
        1000,
    )
    .unwrap();
    assert_eq!(do_read(&fs, &mut game, health).unwrap(), b"10\n".to_vec());
    // echo 20 > health; the next read returns what was written
    assert_eq!(do_write(&fs, &mut game, health, b"20\n").unwrap(), 3);
    assert_eq!(do_read(&fs, &mut game, health).unwrap(), b"20\n".to_vec());
}

#[test]
fn world_time_write_then_read() {
    let mut fs = MinecraftFs::new(0, 0);
    let mut game = MockGame::new();
    let time = resolve(&mut fs, &mut game, &[b"worlds", b"overworld", b"time"], 1000).unwrap();
    assert_eq!(do_read(&fs, &mut game, time).unwrap(), b"500\n".to_vec());
    assert_eq!(do_write(&fs, &mut game, time, b"6000\n").unwrap(), 5);
    assert_eq!(do_read(&fs, &mut game, time).unwrap(), b"6000\n".to_vec());
}

#[test]
fn living_marker_is_listed_but_not_readable() {
    let mut fs = MinecraftFs::new(0, 0);
    let mut game = MockGame::new();
    let living = resolve(
        &mut fs,
        &mut game,
        &[b"worlds", b"overworld", b"entities", b"by-id", b"42", b"living"],
        1000,
    )
    .unwrap();
    assert_eq!(do_read(&fs, &mut game, living).unwrap_err(), EOPNOTSUPP);
    // `ls` still shows it
    let dir = resolve(
        &mut fs,
        &mut game,
        &[b"worlds", b"overworld", b"entities", b"by-id", b"42"],
        1000,
    )
    .unwrap();
    let names: Vec<Vec<u8>> = readdir(&mut fs, &mut game, dir, 0, 1000)
        .into_iter()
        .map(|(_, n)| n)
        .collect();
    assert!(names.contains(&b"living".to_vec()));
    // the living entity 17 has no such marker
    let dir17 = resolve(
        &mut fs,
        &mut game,
        &[b"worlds", b"overworld", b"entities", b"by-id", b"17"],
        1000,
    )
    .unwrap();
    let names17: Vec<Vec<u8>> = readdir(&mut fs, &mut game, dir17, 0, 1000)
        .into_iter()
        .map(|(_, n)| n)
        .collect();
    assert!(!names17.contains(&b"living".to_vec()));
}

#[test]
fn block_adjacent_links() {
    let mut fs = MinecraftFs::new(0, 0);
    let mut game = MockGame::new();
    let adjacent = resolve(
        &mut fs,
        &mut game,
        &[b"worlds", b"overworld", b"blocks", b"10,64,-5", b"adjacent"],
        1000,
    )
    .unwrap();
    let names: Vec<Vec<u8>> = readdir(&mut fs, &mut game, adjacent, 0, 1000)
        .into_iter()
        .map(|(_, n)| n)
        .collect();
    assert_eq!(
        names,
        vec![
            b"west".to_vec(),
            b"east".to_vec(),
            b"below".to_vec(),
            b"above".to_vec(),
            b"north".to_vec(),
            b"south".to_vec(),
        ]
    );
    let west = lookup(&mut fs, &mut game, adjacent, b"west", 1000).unwrap();
    let snapshot = game.snapshot(&GameStateInterest::default());
    assert_eq!(fs.readlink(west, &snapshot).unwrap(), b"../../9,64,-5".to_vec());
    // the block's own canonical position file
    let blockdir = resolve(
        &mut fs,
        &mut game,
        &[b"worlds", b"overworld", b"blocks", b"10,64,-5"],
        1000,
    )
    .unwrap();
    let pos = lookup(&mut fs, &mut game, blockdir, b"pos", 1000).unwrap();
    assert_eq!(do_read(&fs, &mut game, pos).unwrap(), b"10,64,-5".to_vec());
}

#[test]
fn readdir_offset_past_end_is_empty_ok() {
    let mut fs = MinecraftFs::new(0, 0);
    let mut game = MockGame::new();
    let player = resolve(&mut fs, &mut game, &[b"player"], 1000).unwrap();
    let rows = readdir(&mut fs, &mut game, player, 1000, 1000);
    assert_eq!(rows.len(), 0);
}

#[test]
fn static_read_windows() {
    let mut fs = MinecraftFs::new(0, 0);
    let mut game = MockGame::new();
    let readme = resolve(
        &mut fs,
        &mut game,
        &[b"worlds", b"overworld", b"blocks", b"README"],
        1000,
    )
    .unwrap();
    let full = match fs.read(readme, 0, 4096).unwrap() {
        ReadOutcome::Data(d) => d,
        _ => panic!("static content expected"),
    };
    assert!(full.starts_with(b"Path format is"));
    // a window inside the payload
    let window = match fs.read(readme, 5, 6).unwrap() {
        ReadOutcome::Data(d) => d,
        _ => panic!("static content expected"),
    };
    assert_eq!(&window[..], &full[5..11]);
    // past the end: empty bytes, not an error
    let past = match fs.read(readme, full.len() as u64 + 10, 16).unwrap() {
        ReadOutcome::Data(d) => d,
        _ => panic!("static content expected"),
    };
    assert_eq!(past.len(), 0);
}

#[test]
fn command_proxy_readme_read() {
    // a proxy file returns its readme on read, whole and windowed
    let mut builder = FilesystemStructure::builder();
    let root = builder.root();
    let readme = b"Write a server command here.\n".to_vec();
    builder.add_entry(
        root,
        "proxy",
        Entry::File(
            FileEntry::build(FileBehaviour::CommandProxy {
                readme: readme.clone(),
                produce_cmd_fn: CommandProxyFn::Verbatim,
            })
            .finish(),
        ),
    );
    let fs = MinecraftFs {
        uid: 0,
        gid: 0,
        state: CachedGameState::new(0),
        structure: builder.finish(),
    };
    let ino = match fs.lookup_prepare(1, b"proxy", 0) {
        LookupStep::Found(i, _) => i,
        _ => panic!("registered child expected"),
    };
    match fs.read(ino, 0, readme.len() as u32).unwrap() {
        ReadOutcome::Data(d) => assert_eq!(d, readme),
        _ => panic!("readme expected"),
    }
    // an empty proxied write is invalid
    match fs.write(ino, b"") {
        Err(e) => assert_eq!(e, mcfuse::fuse::EINVAL),
        Ok(_) => panic!("an empty proxied write must be invalid"),
    }
    // a non-empty one becomes a server command
    let plan = fs.write(ino, b"weather clear").unwrap();
    assert_eq!(plan.cmd, CommandType::ServerCommand);
    assert_eq!(plan.written, 13);
}

#[test]
fn lookup_non_utf8_name_is_enoent_without_ipc() {
    let mut fs = MinecraftFs::new(0, 0);
    let mut game = MockGame::new();
    let player = resolve(&mut fs, &mut game, &[b"player"], 1000).unwrap();
    let before = game.requests;
    match fs.lookup_prepare(player, &[0xff, 0xfe, b'x'], 1000) {
        LookupStep::NoEnt => {}
        _ => panic!("a non-UTF-8 name cannot resolve"),
    }
    assert_eq!(game.requests, before, "no request may be issued");
}

#[test]
fn regeneration_is_idempotent() {
    let mut fs = MinecraftFs::new(0, 0);
    let mut game = MockGame::new();
    let by_id = resolve(
        &mut fs,
        &mut game,
        &[b"worlds", b"overworld", b"entities", b"by-id"],
        1000,
    )
    .unwrap();
    let first = readdir(&mut fs, &mut game, by_id, 0, 1000);
    // a second generation from the same snapshot keeps names and inodes
    let second = readdir(&mut fs, &mut game, by_id, 0, 1600);
    assert_eq!(first.len(), second.len());
    for (a, b) in first.iter().zip(second.iter()) {
        assert_eq!(a.0, b.0, "inode survives regeneration");
        assert_eq!(a.1, b.1, "name survives regeneration");
    }
    // the entity subtrees keep their inodes too
    let h1 = resolve(
        &mut fs,
        &mut game,
        &[b"worlds", b"overworld", b"entities", b"by-id", b"17", b"health"],
        1000,
    )
    .unwrap();
    let h2 = resolve(
        &mut fs,
        &mut game,
        &[b"worlds", b"overworld", b"entities", b"by-id", b"17", b"health"],
        2300,
    )
    .unwrap();
    assert_eq!(h1, h2);
}

#[test]
fn worlds_listing_in_insertion_order() {
    let mut fs = MinecraftFs::new(0, 0);
    let mut game = MockGame::new();
    let worlds = resolve(&mut fs, &mut game, &[b"worlds"], 1000).unwrap();
    let names: Vec<Vec<u8>> = readdir(&mut fs, &mut game, worlds, 0, 1000)
        .into_iter()
        .map(|(_, n)| n)
        .collect();
    assert_eq!(names, vec![b"overworld".to_vec(), b"nether".to_vec(), b"end".to_vec()]);
}

#[test]
fn codec_round_trips() {
    let req = GameRequest::Command(CommandPayload {
        cmd: CommandType::EntityHealth,
        target_entity: Some(17),
        target_player_entity: false,
        target_world: Some(Dimension::Overworld),
        target_block: Some(BlockPos { x: 1, y: -2, z: 3 }),
        write: Some(Body::Float(b"20".to_vec())),
    });
    let bytes = encode_request(&req).unwrap();
    match decode_request(&bytes).unwrap() {
        GameRequest::Command(c) => {
            assert_eq!(c.cmd, CommandType::EntityHealth);
            assert_eq!(c.target_entity, Some(17));
            assert!(!c.target_player_entity);
            assert_eq!(c.target_world, Some(Dimension::Overworld));
            assert_eq!(c.target_block, Some(BlockPos { x: 1, y: -2, z: 3 }));
            match c.write {
                Some(Body::Float(t)) => assert_eq!(t, b"20".to_vec()),
                _ => panic!("float write expected"),
            }
        }
        _ => panic!("command expected"),
    }
    // malformed input is rejected, never a panic
    assert!(decode_request(&bytes[..bytes.len() - 1]).is_none());
    assert!(decode_request(&[9, 9, 9]).is_none());
    let resp = GameResponse::Response(ResponsePayload {
        error: None,
        float: None,
        int: Some(7),
        string: None,
        vec: None,
    });
    let rbytes = encode_response(&resp).unwrap();
    match decode_response(&rbytes).unwrap() {
        GameResponse::Response(p) => assert_eq!(p.int, Some(7)),
        _ => panic!("response expected"),
    }
    assert!(decode_response(&[3]).is_none());
}

#[test]
fn bad_write_bytes_are_einval() {
    let mut fs = MinecraftFs::new(0, 0);
    let mut game = MockGame::new();
    let time = resolve(&mut fs, &mut game, &[b"worlds", b"overworld", b"time"], 1000).unwrap();
    // not an integer
    match fs.write(time, b"abc\n") {
        Err(e) => assert_eq!(e, mcfuse::fuse::EINVAL),
        Ok(_) => panic!("a non-integer body must be invalid"),
    }
    // reading a write-only file is unsupported
    let say = resolve(&mut fs, &mut game, &[b"player", b"control", b"say"], 1000).unwrap();
    assert_eq!(do_read(&fs, &mut game, say).unwrap_err(), EOPNOTSUPP);
}

#[test]
fn setattr_truncation_only() {
    let mut fs = MinecraftFs::new(0, 0);
    let mut game = MockGame::new();
    let name = resolve(&mut fs, &mut game, &[b"player", b"name"], 1000).unwrap();
    // truncating a file to zero replies with unchanged attributes
    assert!(fs.setattr(name, Some(0)).is_ok());
    // anything else is unsupported
    match fs.setattr(name, Some(7)) {
        Err(e) => assert_eq!(e, mcfuse::fuse::ENOSYS),
        Ok(_) => panic!("only zero-truncation is supported"),
    }
    match fs.setattr(name, None) {
        Err(e) => assert_eq!(e, mcfuse::fuse::ENOSYS),
        Ok(_) => panic!("only zero-truncation is supported"),
    }
}

#[test]
fn cached_snapshot_issues_no_second_request() {
    let mut game = MockGame::new();
    let mut cache = CachedGameState::new(0);
    let interest = GameStateInterest::default();
    let s1 = fetch_state(&mut game, &mut cache, interest, 1000);
    assert_eq!(game.requests, 1);
    // a second get within the TTL with the same interest is served from the
    // cache: no request goes out, and the snapshot is the same
    let s2 = fetch_state(&mut game, &mut cache, interest, 1300);
    assert_eq!(game.requests, 1);
    assert_eq!(s1.player_entity_id, s2.player_entity_id);
    assert_eq!(s1.player_world, s2.player_world);
    // past the TTL the next get refetches
    let _ = fetch_state(&mut game, &mut cache, interest, 1000 + 501);
    assert_eq!(game.requests, 2);
}

#[test]
fn getattr_shape() {
    let mut fs = MinecraftFs::new(0, 0);
    let mut game = MockGame::new();
    let name = resolve(&mut fs, &mut game, &[b"player", b"name"], 1000).unwrap();
    let attr = fs.getattr(name).unwrap();
    assert_eq!(attr.kind, FileKind::RegularFile);
    assert_eq!(attr.size, 256);
    assert_eq!(attr.perm, 0o755);
    let player = resolve(&mut fs, &mut game, &[b"player"], 1000).unwrap();
    let dattr = fs.getattr(player).unwrap();
    assert_eq!(dattr.kind, FileKind::Directory);
    assert_eq!(dattr.size, 0);
    assert!(fs.getattr(999_999).is_err());
}
