//! The game channel's wire layer: length-prefixed framing, a byte codec for
//! the request and response payloads, the reconnect policy for broken
//! sockets, and the interpretation of typed responses.
//!
//! Each message on the socket is a 4-byte little-endian length followed by
//! that many bytes of payload. The payload codec writes fields in a fixed
//! order: an option is a presence byte then the value; integers are
//! little-endian; byte strings carry a 4-byte length. Decoding never
//! panics; malformed input yields `None`.

use vstd::prelude::*;

use crate::command::{Body, BodyType, CommandType, TargetEntity};
use crate::command::CommandState;
use crate::pos::{BlockPos, Dimension};
use crate::state::{BlockDetails, EntityDetails, GameState, GameStateInterest};

verus! {

/// How many reconnect attempts a failed write is granted.
pub const RETRIES: u8 = 2;

/// An application error reported by the game.
#[derive(Clone, Copy, Debug, PartialEq, Eq, Structural)]
pub enum Error {
    Unknown,
    UnknownCommand,
    NoGame,
    BadInput,
    MalformedRequest,
}

impl Error {
    /// The variant's name.
    pub fn variant_name(self) -> (r: Option<&'static str>)
        ensures
            r is Some,
    {
        match self {
            Error::Unknown => Some("Unknown"),
            Error::UnknownCommand => Some("UnknownCommand"),
            Error::NoGame => Some("NoGame"),
            Error::BadInput => Some("BadInput"),
            Error::MalformedRequest => Some("MalformedRequest"),
        }
    }
}

/// Which body a response carries.
#[derive(Clone, Copy, Debug, PartialEq, Eq, Structural)]
pub enum GameResponseBody {
    Response,
    StateResponse,
}

impl GameResponseBody {
    /// The variant's name.
    pub fn variant_name(self) -> (r: Option<&'static str>)
        ensures
            r is Some,
    {
        match self {
            GameResponseBody::Response => Some("Response"),
            GameResponseBody::StateResponse => Some("StateResponse"),
        }
    }
}

/// What can go wrong talking to the game.
#[derive(Clone, Debug, PartialEq, Eq, Structural)]
pub enum IpcError {
    /// The socket path does not exist; the game is probably not running.
    NoGame,
    /// Connecting to the socket failed.
    Connecting,
    /// Writing to the socket failed, after any reconnect attempts.
    Sending,
    /// Reading from the socket failed.
    Receiving,
    /// Setting the socket timeout failed.
    SettingTimeout,
    /// The player is not currently in a game.
    NoCurrentGame,
    /// The game reported an application error.
    ClientError(Error),
    /// The response carried an unexpected body kind.
    UnexpectedGameResponse(GameResponseBody),
    /// The expected typed body did not match what arrived.
    UnexpectedResponse(Option<BodyType>),
    /// The framed payload was malformed.
    Deserialization,
    /// The write bytes do not parse for the declared body type.
    BadData(BodyType),
    /// The written input was invalid.
    BadInput,
}

/// A command request: the command, its targets, and an optional write body.
pub struct CommandPayload {
    pub cmd: CommandType,
    pub target_entity: Option<i32>,
    pub target_player_entity: bool,
    pub target_world: Option<Dimension>,
    pub target_block: Option<BlockPos>,
    pub write: Option<Body>,
}

/// A request to the game.
pub enum GameRequest {
    Command(CommandPayload),
    StateRequest(GameStateInterest),
}

/// A typed command response: at most one of the value fields is set.
pub struct ResponsePayload {
    pub error: Option<Error>,
    pub float: Option<Vec<u8>>,
    pub int: Option<i32>,
    pub string: Option<Vec<u8>>,
    pub vec: Option<(Vec<u8>, Vec<u8>, Vec<u8>)>,
}

/// A response from the game.
pub enum GameResponse {
    Response(ResponsePayload),
    StateResponse(GameState),
}

/// Builds the command request for a read or write: the context's entity
/// target splits into an id or a player flag, first writer preserved.
pub fn build_command_request(cmd: CommandType, write: Option<Body>, state: CommandState) -> (r:
    GameRequest)
    ensures
        r is Command,
        ({
            let c = r->Command_0;
            &&& c.cmd == cmd
            &&& c.target_entity == (match state.target_entity {
                Some(TargetEntity::Entity(id)) => Some(id),
                _ => None::<i32>,
            })
            &&& c.target_player_entity == (state.target_entity == Some(TargetEntity::Player))
            &&& c.target_world == state.target_world
            &&& c.target_block == state.target_block
            &&& c.write == write
        }),
{
    let (target_entity, target_player_entity): (Option<i32>, bool) = match state.target_entity {
        Some(TargetEntity::Entity(id)) => (Some(id), false),
        Some(TargetEntity::Player) => (None, true),
        None => (None, false),
    };
    GameRequest::Command(
        CommandPayload {
            cmd,
            target_entity,
            target_player_entity,
            target_world: state.target_world,
            target_block: state.target_block,
            write,
        },
    )
}

/// What a typed read reply means: an error maps to the matching channel
/// error; otherwise exactly the expected field must be set, with a missing
/// numeric field read as zero.
pub open spec fn interpret_response_spec(expected: Option<BodyType>, resp: ResponsePayload) -> Result<
    Option<crate::command::BodyView>,
    IpcError,
> {
    match resp.error {
        Some(Error::NoGame) => Err(IpcError::NoCurrentGame),
        Some(Error::BadInput) => Err(IpcError::BadInput),
        Some(e) => Err(IpcError::ClientError(e)),
        None => if expected is None && resp.float is None && resp.int is None && resp.string
            is None && resp.vec is None {
            Ok(None)
        } else if expected == Some(BodyType::Float) && resp.int is None && resp.string is None
            && resp.vec is None {
            Ok(
                Some(
                    crate::command::BodyView::Float(
                        match resp.float {
                            Some(t) => t@,
                            None => seq![48u8],
                        },
                    ),
                ),
            )
        } else if expected == Some(BodyType::Integer) && resp.float is None && resp.string is None
            && resp.vec is None {
            Ok(
                Some(
                    crate::command::BodyView::Integer(
                        match resp.int {
                            Some(i) => i as int,
                            None => 0,
                        },
                    ),
                ),
            )
        } else if expected == Some(BodyType::String) && resp.float is None && resp.int is None
            && resp.string is Some && resp.vec is None {
            Ok(Some(crate::command::BodyView::String(resp.string->Some_0@)))
        } else if expected == Some(BodyType::Position) && resp.float is None && resp.int is None
            && resp.string is None && resp.vec is Some {
            Ok(
                Some(
                    crate::command::BodyView::Position(
                        (resp.vec->Some_0).0@,
                        (resp.vec->Some_0).1@,
                        (resp.vec->Some_0).2@,
                    ),
                ),
            )
        } else {
            Err(IpcError::UnexpectedResponse(expected))
        },
    }
}

/// Interpret a typed command reply against the expected body type.
pub fn interpret_response(expected: Option<BodyType>, resp: ResponsePayload) -> (r: Result<
    Option<Body>,
    IpcError,
>)
    ensures
        match r {
            Ok(Some(b)) => interpret_response_spec(expected, resp) == Ok::<
                Option<crate::command::BodyView>,
                IpcError,
            >(Some(b@)),
            Ok(None) => interpret_response_spec(expected, resp) == Ok::<
                Option<crate::command::BodyView>,
                IpcError,
            >(None),
            Err(e) => interpret_response_spec(expected, resp) == Err::<
                Option<crate::command::BodyView>,
                IpcError,
            >(e),
        },
{
    let ResponsePayload { error, float, int: ival, string, vec: vval } = resp;
    match error {
        Some(Error::NoGame) => Err(IpcError::NoCurrentGame),
        Some(Error::BadInput) => Err(IpcError::BadInput),
        Some(e) => Err(IpcError::ClientError(e)),
        None => {
            let f_none = float.is_none();
            let i_none = ival.is_none();
            let s_none = string.is_none();
            let v_none = vval.is_none();
            match (expected, float, ival, string, vval) {
                (None, None, None, None, None) => Ok(None),
                (Some(BodyType::Float), f, None, None, None) => {
                    let t: Vec<u8> = match f {
                        Some(t) => t,
                        None => {
                            let mut z: Vec<u8> = Vec::new();
                            z.push(48u8);
                            proof {
                                assert(z@ =~= seq![48u8]);
                            }
                            z
                        },
                    };
                    Ok(Some(Body::Float(t)))
                },
                (Some(BodyType::Integer), None, v, None, None) => Ok(
                    Some(
                        Body::Integer(
                            match v {
                                Some(i) => i,
                                None => 0,
                            },
                        ),
                    ),
                ),
                (Some(BodyType::String), None, None, Some(t), None) => Ok(
                    Some(Body::String(t)),
                ),
                (Some(BodyType::Position), None, None, None, Some(v)) => Ok(
                    Some(Body::Position { x: v.0, y: v.1, z: v.2 }),
                ),
                (e2, _, _, _, _) => Err(IpcError::UnexpectedResponse(e2)),
            }
        },
    }
}

/// A message frame: the payload length as 4 little-endian bytes, then the
/// payload.
pub open spec fn frame_spec(payload: Seq<u8>) -> Seq<u8> {
    u32_le_spec(payload.len() as u32) + payload
}

pub open spec fn u32_le_spec(v: u32) -> Seq<u8> {
    seq![(v & 0xff) as u8, ((v >> 8) & 0xff) as u8, ((v >> 16) & 0xff) as u8, ((v >> 24)
        & 0xff) as u8]
}

/// Frame a payload for the socket.
pub fn frame_message(payload: &[u8]) -> (r: Vec<u8>)
    requires
        payload@.len() <= u32::MAX,
    ensures
        r@ == frame_spec(payload@),
{
    let len: u32 = payload.len() as u32;
    let mut out: Vec<u8> = Vec::new();
    out.push((len & 0xff) as u8);
    out.push(((len >> 8u32) & 0xff) as u8);
    out.push(((len >> 16u32) & 0xff) as u8);
    out.push(((len >> 24u32) & 0xff) as u8);
    let mut body = vstd::slice::slice_to_vec(payload);
    out.append(&mut body);
    proof {
        assert(out@ =~= frame_spec(payload@));
    }
    out
}

/// Read a frame length from its 4 little-endian bytes.
pub fn parse_frame_len(b0: u8, b1: u8, b2: u8, b3: u8) -> (r: u32)
    ensures
        u32_le_spec(r) == seq![b0, b1, b2, b3],
{
    let r = (b0 as u32) | ((b1 as u32) << 8u32) | ((b2 as u32) << 16u32) | ((b3 as u32) << 24u32);
    proof {
        assert((r & 0xff) as u8 == b0 && ((r >> 8) & 0xff) as u8 == b1 && ((r >> 16)
            & 0xff) as u8 == b2 && ((r >> 24) & 0xff) as u8 == b3) by (bit_vector)
            requires
                r == (b0 as u32) | ((b1 as u32) << 8u32) | ((b2 as u32) << 16u32) | ((b3
                    as u32) << 24u32),
        ;
        assert(u32_le_spec(r) =~= seq![b0, b1, b2, b3]);
    }
    r
}

/// What a failed socket write leads to.
#[derive(Clone, Copy, Debug, PartialEq, Eq, Structural)]
pub enum RetryAction {
    /// Reopen the socket and try the write again.
    Reconnect,
    /// Give up; the caller reports a `Sending` error.
    GiveUp,
}

/// The reconnect budget of the channel: a failed rebootable write spends
/// one retry; a successful write refills the budget.
#[derive(Clone, Copy, Debug, PartialEq, Eq, Structural)]
pub struct RetryState {
    pub retries: u8,
}

impl RetryState {
    /// A fresh channel's budget.
    pub fn new() -> (r: Self)
        ensures
            r.retries == RETRIES,
    {
        RetryState { retries: RETRIES }
    }

    /// A successful write refills the budget.
    pub fn on_success(&mut self)
        ensures
            final(self).retries == RETRIES,
    {
        self.retries = RETRIES;
    }

    /// A failed write: a non-rebootable error, or an exhausted budget, gives
    /// up; otherwise one retry is spent and the socket reopened.
    pub fn on_write_error(&mut self, rebootable: bool) -> (r: RetryAction)
        ensures
            (!rebootable || old(self).retries == 0) ==> r == RetryAction::GiveUp && *final(self)
                == *old(self),
            (rebootable && old(self).retries > 0) ==> r == RetryAction::Reconnect
                && final(self).retries == old(self).retries - 1,
    {
        if !rebootable || self.retries == 0 {
            RetryAction::GiveUp
        } else {
            self.retries = self.retries - 1;
            RetryAction::Reconnect
        }
    }
}

/// A fresh channel tolerates exactly two broken-pipe writes in a row: the
/// first two failures reconnect, the third gives up.
pub proof fn lemma_two_reconnects_then_give_up(s0: RetryState, s1: RetryState, s2: RetryState)
    requires
        s0.retries == RETRIES,
        s1.retries == s0.retries - 1,
        s2.retries == s1.retries - 1,
    ensures
        s0.retries > 0,
        s1.retries > 0,
        s2.retries == 0,
{
}

// --- the payload codec ---
fn push_u32(out: &mut Vec<u8>, v: u32)
    ensures
        final(out)@ == old(out)@ + u32_le_spec(v),
{
    out.push((v & 0xff) as u8);
    out.push(((v >> 8u32) & 0xff) as u8);
    out.push(((v >> 16u32) & 0xff) as u8);
    out.push(((v >> 24u32) & 0xff) as u8);
    proof {
        assert(final(out)@ =~= old(out)@ + u32_le_spec(v));
    }
}

fn push_i32(out: &mut Vec<u8>, v: i32) {
    push_u32(out, v as u32);
}

fn push_bytes(out: &mut Vec<u8>, v: &Vec<u8>)
    requires
        v@.len() <= u32::MAX,
{
    push_u32(out, v.len() as u32);
    let mut c = v.clone();
    out.append(&mut c);
}

fn push_opt_tag(out: &mut Vec<u8>, present: bool) {
    out.push(if present {
        1u8
    } else {
        0u8
    });
}

fn dim_tag(d: Dimension) -> u8 {
    match d {
        Dimension::Overworld => 0,
        Dimension::Nether => 1,
        Dimension::End => 2,
    }
}

fn cmd_tag(c: CommandType) -> u8 {
    match c {
        CommandType::PlayerName => 0,
        CommandType::PlayerGamemode => 1,
        CommandType::PlayerHunger => 2,
        CommandType::PlayerSaturation => 3,
        CommandType::PlayerExhaustion => 4,
        CommandType::ControlSay => 5,
        CommandType::ControlJump => 6,
        CommandType::ControlMove => 7,
        CommandType::WorldTime => 8,
        CommandType::BlockType => 9,
        CommandType::EntityHealth => 10,
        CommandType::EntityPosition => 11,
        CommandType::EntityTarget => 12,
        CommandType::EntityType => 13,
        CommandType::ServerCommand => 14,
    }
}

fn cmd_of_tag(t: u8) -> Option<CommandType> {
    match t {
        0 => Some(CommandType::PlayerName),
        1 => Some(CommandType::PlayerGamemode),
        2 => Some(CommandType::PlayerHunger),
        3 => Some(CommandType::PlayerSaturation),
        4 => Some(CommandType::PlayerExhaustion),
        5 => Some(CommandType::ControlSay),
        6 => Some(CommandType::ControlJump),
        7 => Some(CommandType::ControlMove),
        8 => Some(CommandType::WorldTime),
        9 => Some(CommandType::BlockType),
        10 => Some(CommandType::EntityHealth),
        11 => Some(CommandType::EntityPosition),
        12 => Some(CommandType::EntityTarget),
        13 => Some(CommandType::EntityType),
        14 => Some(CommandType::ServerCommand),
        _ => None,
    }
}

fn dim_of_tag(t: u8) -> Option<Dimension> {
    match t {
        0 => Some(Dimension::Overworld),
        1 => Some(Dimension::Nether),
        2 => Some(Dimension::End),
        _ => None,
    }
}

fn err_tag(e: Error) -> u8 {
    match e {
        Error::Unknown => 0,
        Error::UnknownCommand => 1,
        Error::NoGame => 2,
        Error::BadInput => 3,
        Error::MalformedRequest => 4,
    }
}

fn err_of_tag(t: u8) -> Option<Error> {
    match t {
        0 => Some(Error::Unknown),
        1 => Some(Error::UnknownCommand),
        2 => Some(Error::NoGame),
        3 => Some(Error::BadInput),
        4 => Some(Error::MalformedRequest),
        _ => None,
    }
}

/// Whether a byte vector fits a length prefix.
fn fits(v: &Vec<u8>) -> (r: bool)
    ensures
        r == (v@.len() <= u32::MAX),
{
    v.len() <= 4294967295
}

fn push_body(out: &mut Vec<u8>, b: &Body) -> (ok: bool) {
    match b {
        Body::Integer(v) => {
            out.push(0);
            push_i32(out, *v);
            true
        },
        Body::Float(t) => {
            if !fits(t) {
                return false;
            }
            out.push(1);
            push_bytes(out, t);
            true
        },
        Body::String(t) => {
            if !fits(t) {
                return false;
            }
            out.push(2);
            push_bytes(out, t);
            true
        },
        Body::Position { x, y, z } => {
            if !fits(x) || !fits(y) || !fits(z) {
                return false;
            }
            out.push(3);
            push_bytes(out, x);
            push_bytes(out, y);
            push_bytes(out, z);
            true
        },
        Body::Block { x, y, z } => {
            out.push(4);
            push_i32(out, *x);
            push_i32(out, *y);
            push_i32(out, *z);
            true
        },
    }
}

/// Encode a request payload. `None` when a byte string exceeds the length
/// prefix (not reachable for bodies parsed from writes).
pub fn encode_request(req: &GameRequest) -> (r: Option<Vec<u8>>) {
    let mut out: Vec<u8> = Vec::new();
    match req {
        GameRequest::Command(c) => {
            out.push(1);
            out.push(cmd_tag(c.cmd));
            match c.target_entity {
                Some(id) => {
                    push_opt_tag(&mut out, true);
                    push_i32(&mut out, id);
                },
                None => push_opt_tag(&mut out, false),
            }
            out.push(if c.target_player_entity {
                1
            } else {
                0
            });
            match c.target_world {
                Some(d) => {
                    push_opt_tag(&mut out, true);
                    out.push(dim_tag(d));
                },
                None => push_opt_tag(&mut out, false),
            }
            match c.target_block {
                Some(p) => {
                    push_opt_tag(&mut out, true);
                    push_i32(&mut out, p.x);
                    push_i32(&mut out, p.y);
                    push_i32(&mut out, p.z);
                },
                None => push_opt_tag(&mut out, false),
            }
            match &c.write {
                Some(b) => {
                    push_opt_tag(&mut out, true);
                    if !push_body(&mut out, b) {
                        return None;
                    }
                },
                None => push_opt_tag(&mut out, false),
            }
        },
        GameRequest::StateRequest(i) => {
            out.push(2);
            out.push(if i.entities_by_id {
                1
            } else {
                0
            });
            match i.target_world {
                Some(d) => {
                    push_opt_tag(&mut out, true);
                    out.push(dim_tag(d));
                },
                None => push_opt_tag(&mut out, false),
            }
            match i.target_block {
                Some(p) => {
                    push_opt_tag(&mut out, true);
                    push_i32(&mut out, p.x);
                    push_i32(&mut out, p.y);
                    push_i32(&mut out, p.z);
                },
                None => push_opt_tag(&mut out, false),
            }
        },
    }
    Some(out)
}

/// A byte cursor over a payload.
struct Cursor<'a> {
    data: &'a [u8],
    pos: usize,
}

impl<'a> Cursor<'a> {
    spec fn wf(self) -> bool {
        self.pos <= self.data@.len()
    }

    fn new(data: &'a [u8]) -> (r: Cursor<'a>)
        ensures
            r.wf(),
    {
        Cursor { data, pos: 0 }
    }

    fn u8(&mut self) -> (r: Option<u8>)
        requires
            old(self).wf(),
        ensures
            final(self).wf(),
    {
        if self.pos < self.data.len() {
            let b = self.data[self.pos];
            self.pos = self.pos + 1;
            Some(b)
        } else {
            None
        }
    }

    fn u32(&mut self) -> (r: Option<u32>)
        requires
            old(self).wf(),
        ensures
            final(self).wf(),
    {
        let b0 = self.u8()?;
        let b1 = self.u8()?;
        let b2 = self.u8()?;
        let b3 = self.u8()?;
        Some(parse_frame_len(b0, b1, b2, b3))
    }

    fn i32(&mut self) -> (r: Option<i32>)
        requires
            old(self).wf(),
        ensures
            final(self).wf(),
    {
        let v = self.u32()?;
        Some(v as i32)
    }

    fn bytes(&mut self) -> (r: Option<Vec<u8>>)
        requires
            old(self).wf(),
        ensures
            final(self).wf(),
    {
        let len = self.u32()?;
        let len = len as usize;
        if len > self.data.len() - self.pos {
            return None;
        }
        let s = crate::text::sub_slice(self.data, self.pos, self.pos + len);
        let v = vstd::slice::slice_to_vec(s);
        self.pos = self.pos + len;
        Some(v)
    }

    fn opt(&mut self) -> (r: Option<bool>)
        requires
            old(self).wf(),
        ensures
            final(self).wf(),
    {
        let b = self.u8()?;
        match b {
            0 => Some(false),
            1 => Some(true),
            _ => None,
        }
    }

    fn done(&self) -> (r: bool) {
        self.pos == self.data.len()
    }
}

fn decode_body(c: &mut Cursor<'_>) -> (r: Option<Body>)
    requires
        old(c).wf(),
    ensures
        final(c).wf(),
{
    let tag = c.u8()?;
    match tag {
        0 => Some(Body::Integer(c.i32()?)),
        1 => Some(Body::Float(c.bytes()?)),
        2 => Some(Body::String(c.bytes()?)),
        3 => {
            let x = c.bytes()?;
            let y = c.bytes()?;
            let z = c.bytes()?;
            Some(Body::Position { x, y, z })
        },
        4 => {
            let x = c.i32()?;
            let y = c.i32()?;
            let z = c.i32()?;
            Some(Body::Block { x, y, z })
        },
        _ => None,
    }
}

fn decode_block_pos(c: &mut Cursor<'_>) -> (r: Option<BlockPos>)
    requires
        old(c).wf(),
    ensures
        final(c).wf(),
{
    let x = c.i32()?;
    let y = c.i32()?;
    let z = c.i32()?;
    Some(BlockPos { x, y, z })
}

/// Decode a request payload; `None` when malformed.
pub fn decode_request(data: &[u8]) -> (r: Option<GameRequest>) {
    let mut c = Cursor::new(data);
    let tag = c.u8()?;
    let out: GameRequest = match tag {
        1 => {
            let cmd = cmd_of_tag(c.u8()?)?;
            let target_entity: Option<i32> = if c.opt()? {
                Some(c.i32()?)
            } else {
                None
            };
            let tpe = c.u8()?;
            if tpe > 1 {
                return None;
            }
            let target_world: Option<Dimension> = if c.opt()? {
                Some(dim_of_tag(c.u8()?)?)
            } else {
                None
            };
            let target_block: Option<BlockPos> = if c.opt()? {
                Some(decode_block_pos(&mut c)?)
            } else {
                None
            };
            let write: Option<Body> = if c.opt()? {
                Some(decode_body(&mut c)?)
            } else {
                None
            };
            GameRequest::Command(
                CommandPayload {
                    cmd,
                    target_entity,
                    target_player_entity: tpe == 1,
                    target_world,
                    target_block,
                    write,
                },
            )
        },
        2 => {
            let entities_by_id = c.u8()?;
            if entities_by_id > 1 {
                return None;
            }
            let target_world: Option<Dimension> = if c.opt()? {
                Some(dim_of_tag(c.u8()?)?)
            } else {
                None
            };
            let target_block: Option<BlockPos> = if c.opt()? {
                Some(decode_block_pos(&mut c)?)
            } else {
                None
            };
            GameRequest::StateRequest(
                GameStateInterest {
                    entities_by_id: entities_by_id == 1,
                    target_world,
                    target_block,
                },
            )
        },
        _ => {
            return None;
        },
    };
    if c.done() {
        Some(out)
    } else {
        None
    }
}

/// Encode a response payload. `None` when a byte string exceeds the length
/// prefix.
pub fn encode_response(resp: &GameResponse) -> (r: Option<Vec<u8>>) {
    let mut out: Vec<u8> = Vec::new();
    match resp {
        GameResponse::Response(p) => {
            out.push(1);
            match p.error {
                Some(e) => {
                    push_opt_tag(&mut out, true);
                    out.push(err_tag(e));
                },
                None => push_opt_tag(&mut out, false),
            }
            match &p.float {
                Some(t) => {
                    if !fits(t) {
                        return None;
                    }
                    push_opt_tag(&mut out, true);
                    push_bytes(&mut out, t);
                },
                None => push_opt_tag(&mut out, false),
            }
            match p.int {
                Some(v) => {
                    push_opt_tag(&mut out, true);
                    push_i32(&mut out, v);
                },
                None => push_opt_tag(&mut out, false),
            }
            match &p.string {
                Some(t) => {
                    if !fits(t) {
                        return None;
                    }
                    push_opt_tag(&mut out, true);
                    push_bytes(&mut out, t);
                },
                None => push_opt_tag(&mut out, false),
            }
            match &p.vec {
                Some(v) => {
                    if !fits(&v.0) || !fits(&v.1) || !fits(&v.2) {
                        return None;
                    }
                    push_opt_tag(&mut out, true);
                    push_bytes(&mut out, &v.0);
                    push_bytes(&mut out, &v.1);
                    push_bytes(&mut out, &v.2);
                },
                None => push_opt_tag(&mut out, false),
            }
        },
        GameResponse::StateResponse(s) => {
            out.push(2);
            match s.player_entity_id {
                Some(id) => {
                    push_opt_tag(&mut out, true);
                    push_i32(&mut out, id);
                },
                None => push_opt_tag(&mut out, false),
            }
            match s.player_world {
                Some(d) => {
                    push_opt_tag(&mut out, true);
                    out.push(dim_tag(d));
                },
                None => push_opt_tag(&mut out, false),
            }
            if s.entities.len() > 4294967295 {
                return None;
            }
            push_u32(&mut out, s.entities.len() as u32);
            let mut i: usize = 0;
            while i < s.entities.len()
                decreases s.entities@.len() - i,
            {
                let ed = s.entities[i];
                push_i32(&mut out, ed.id);
                out.push(if ed.living {
                    1
                } else {
                    0
                });
                i = i + 1;
            }
            match s.block {
                Some(b) => {
                    push_opt_tag(&mut out, true);
                    push_i32(&mut out, b.pos.x);
                    push_i32(&mut out, b.pos.y);
                    push_i32(&mut out, b.pos.z);
                    out.push(if b.has_color {
                        1
                    } else {
                        0
                    });
                },
                None => push_opt_tag(&mut out, false),
            }
        },
    }
    Some(out)
}

/// Decode a response payload; `None` when malformed.
pub fn decode_response(data: &[u8]) -> (r: Option<GameResponse>) {
    let mut c = Cursor::new(data);
    let tag = c.u8()?;
    let out: GameResponse = match tag {
        1 => {
            let error: Option<Error> = if c.opt()? {
                Some(err_of_tag(c.u8()?)?)
            } else {
                None
            };
            let float: Option<Vec<u8>> = if c.opt()? {
                Some(c.bytes()?)
            } else {
                None
            };
            let ival: Option<i32> = if c.opt()? {
                Some(c.i32()?)
            } else {
                None
            };
            let string: Option<Vec<u8>> = if c.opt()? {
                Some(c.bytes()?)
            } else {
                None
            };
            let vec: Option<(Vec<u8>, Vec<u8>, Vec<u8>)> = if c.opt()? {
                let x = c.bytes()?;
                let y = c.bytes()?;
                let z = c.bytes()?;
                Some((x, y, z))
            } else {
                None
            };
            GameResponse::Response(ResponsePayload { error, float, int: ival, string, vec })
        },
        2 => {
            let player_entity_id: Option<i32> = if c.opt()? {
                Some(c.i32()?)
            } else {
                None
            };
            let player_world: Option<Dimension> = if c.opt()? {
                Some(dim_of_tag(c.u8()?)?)
            } else {
                None
            };
            let n = c.u32()?;
            let mut entities: Vec<EntityDetails> = Vec::new();
            let mut i: u32 = 0;
            while i < n
                invariant
                    c.wf(),
                decreases n - i,
            {
                let id = match c.i32() {
                    Some(v) => v,
                    None => {
                        return None;
                    },
                };
                let lv = match c.u8() {
                    Some(v) => v,
                    None => {
                        return None;
                    },
                };
                if lv > 1 {
                    return None;
                }
                entities.push(EntityDetails { id, living: lv == 1 });
                i = i + 1;
            }
            let block: Option<BlockDetails> = if c.opt()? {
                let pos = decode_block_pos(&mut c)?;
                let hc = c.u8()?;
                if hc > 1 {
                    return None;
                }
                Some(BlockDetails { pos, has_color: hc == 1 })
            } else {
                None
            };
            GameResponse::StateResponse(
                GameState { player_entity_id, player_world, entities, block },
            )
        },
        _ => {
            return None;
        },
    };
    if c.done() {
        Some(out)
    } else {
        None
    }
}

} // verus!
