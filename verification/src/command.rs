//! Typed game commands and their bodies.
//!
//! A file read or write turns into a command with an expected or supplied
//! body. Write bodies are parsed from the written bytes according to the
//! file's declared [`BodyType`]; read replies are rendered back into file
//! content, one trailing newline appended.

use vstd::prelude::*;

use vstd::utf8::valid_utf8;

use crate::num::{int_decimal, parse_i32, parse_i32_spec};
use crate::pos::{format_block_position_spec, BlockPos, Dimension, BYTE_COMMA};
use crate::text::{float_ok, is_float_literal, split_whitespace, tokens_spec, trim_end,
    trim_end_spec, validate_utf8};

verus! {

/// The commands the game understands.
#[derive(Clone, Copy, Debug, PartialEq, Eq, Structural)]
pub enum CommandType {
    PlayerName,
    PlayerGamemode,
    PlayerHunger,
    PlayerSaturation,
    PlayerExhaustion,
    ControlSay,
    ControlJump,
    ControlMove,
    WorldTime,
    BlockType,
    EntityHealth,
    EntityPosition,
    EntityTarget,
    EntityType,
    ServerCommand,
}

impl CommandType {
    /// The variant's name.
    pub fn variant_name(self) -> (r: Option<&'static str>)
        ensures
            r is Some,
    {
        match self {
            CommandType::PlayerName => Some("PlayerName"),
            CommandType::PlayerGamemode => Some("PlayerGamemode"),
            CommandType::PlayerHunger => Some("PlayerHunger"),
            CommandType::PlayerSaturation => Some("PlayerSaturation"),
            CommandType::PlayerExhaustion => Some("PlayerExhaustion"),
            CommandType::ControlSay => Some("ControlSay"),
            CommandType::ControlJump => Some("ControlJump"),
            CommandType::ControlMove => Some("ControlMove"),
            CommandType::WorldTime => Some("WorldTime"),
            CommandType::BlockType => Some("BlockType"),
            CommandType::EntityHealth => Some("EntityHealth"),
            CommandType::EntityPosition => Some("EntityPosition"),
            CommandType::EntityTarget => Some("EntityTarget"),
            CommandType::EntityType => Some("EntityType"),
            CommandType::ServerCommand => Some("ServerCommand"),
        }
    }
}

/// The type tag of a file's read or write channel.
#[derive(Clone, Copy, Debug, PartialEq, Eq, Structural)]
pub enum BodyType {
    Integer,
    String,
    Float,
    Position,
    Block,
}

/// A typed command body. Float-valued fields carry the decimal text of the
/// value: the engine never interprets it, only transports and renders it.
#[derive(Clone, Debug)]
pub enum Body {
    Integer(i32),
    Float(Vec<u8>),
    String(Vec<u8>),
    Position { x: Vec<u8>, y: Vec<u8>, z: Vec<u8> },
    Block { x: i32, y: i32, z: i32 },
}

/// The mathematical shape of a [`Body`].
pub enum BodyView {
    Integer(int),
    Float(Seq<u8>),
    String(Seq<u8>),
    Position(Seq<u8>, Seq<u8>, Seq<u8>),
    Block(int, int, int),
}

impl View for Body {
    type V = BodyView;

    open spec fn view(&self) -> BodyView {
        match self {
            Body::Integer(v) => BodyView::Integer(*v as int),
            Body::Float(t) => BodyView::Float(t@),
            Body::String(t) => BodyView::String(t@),
            Body::Position { x, y, z } => BodyView::Position(x@, y@, z@),
            Body::Block { x, y, z } => BodyView::Block(*x as int, *y as int, *z as int),
        }
    }
}

/// Which entity a command addresses.
#[derive(Clone, Copy, Debug, PartialEq, Eq, Structural)]
pub enum TargetEntity {
    Player,
    Entity(i32),
}

/// Per-request context, composed by the ancestor walk: the closest ancestor
/// supplying a field wins.
#[derive(Clone, Copy, Debug, PartialEq, Eq, Structural)]
pub struct CommandState {
    pub target_entity: Option<TargetEntity>,
    pub target_world: Option<Dimension>,
    pub target_block: Option<BlockPos>,
}

impl Default for CommandState {
    /// The empty context: no target fields set.
    fn default() -> (r: Self)
        ensures
            r.target_entity is None,
            r.target_world is None,
            r.target_block is None,
    {
        CommandState { target_entity: None, target_world: None, target_block: None }
    }
}

/// A command together with its context and body type.
pub struct Command {
    pub ty: CommandType,
    pub state: CommandState,
    /// Expected response type for a read, or request body type for a write.
    pub body: BodyType,
}

impl Command {
    pub fn stateful(cmd: CommandType, resp: BodyType, state: CommandState) -> (r: Self)
        ensures
            r.ty == cmd,
            r.body == resp,
            r.state == state,
    {
        Command { ty: cmd, state, body: resp }
    }

    pub fn stateless(cmd: CommandType, resp: BodyType) -> (r: Self)
        ensures
            r.ty == cmd,
            r.body == resp,
            r.state.target_entity is None,
            r.state.target_world is None,
            r.state.target_block is None,
    {
        Command { ty: cmd, state: CommandState::default(), body: resp }
    }
}

/// What `create_from_data` yields for given write bytes: the bytes must be
/// UTF-8; trailing ASCII whitespace is trimmed; then the trimmed text is
/// read per body type.
pub open spec fn create_from_data_spec(bt: BodyType, data: Seq<u8>) -> Option<BodyView> {
    if !valid_utf8(data) {
        None
    } else {
        let t = trim_end_spec(data);
        match bt {
            BodyType::Integer => match parse_i32_spec(t) {
                Some(v) => Some(BodyView::Integer(v)),
                None => None,
            },
            BodyType::Float => if float_ok(t) {
                Some(BodyView::Float(t))
            } else {
                None
            },
            BodyType::String => Some(BodyView::String(t)),
            BodyType::Position => {
                let toks = tokens_spec(t);
                if toks.len() >= 3 && float_ok(toks[0]) && float_ok(toks[1]) && float_ok(toks[2]) {
                    Some(BodyView::Position(toks[0], toks[1], toks[2]))
                } else {
                    None
                }
            },
            BodyType::Block => match crate::pos::parse_block_position_strict_spec(t) {
                Some((x, y, z)) => Some(BodyView::Block(x, y, z)),
                None => None,
            },
        }
    }
}

impl BodyType {
    /// Parse write bytes into a typed body, per the declared body type.
    pub fn create_from_data(&self, data: &[u8]) -> (r: Option<Body>)
        ensures
            match r {
                Some(b) => create_from_data_spec(*self, data@) == Some(b@),
                None => create_from_data_spec(*self, data@) is None,
            },
    {
        if !validate_utf8(data) {
            return None;
        }
        let t = trim_end(data);
        match self {
            BodyType::Integer => match parse_i32(t) {
                Some(v) => Some(Body::Integer(v)),
                None => None,
            },
            BodyType::Float => if is_float_literal(t) {
                Some(Body::Float(vstd::slice::slice_to_vec(t)))
            } else {
                None
            },
            BodyType::String => Some(Body::String(vstd::slice::slice_to_vec(t))),
            BodyType::Position => {
                let toks = split_whitespace(t);
                if toks.len() >= 3 {
                    proof {
                        let m = toks@.map_values(|v: Vec<u8>| v@);
                        assert(m[0] == toks@[0]@ && m[1] == toks@[1]@ && m[2] == toks@[2]@);
                    }
                    let okx = is_float_literal(toks[0].as_slice());
                    let oky = is_float_literal(toks[1].as_slice());
                    let okz = is_float_literal(toks[2].as_slice());
                    if okx && oky && okz {
                        let x = toks[0].clone();
                        let y = toks[1].clone();
                        let z = toks[2].clone();
                        Some(Body::Position { x, y, z })
                    } else {
                        None
                    }
                } else {
                    None
                }
            },
            BodyType::Block => match crate::pos::parse_block_position_strict(t) {
                Some(p) => Some(Body::Block { x: p.x, y: p.y, z: p.z }),
                None => None,
            },
        }
    }
}

pub const BYTE_NL: u8 = 10;

/// How a read reply is rendered into file content: the value's text with one
/// trailing newline; a position is three lines.
pub open spec fn render_body_spec(b: BodyView) -> Seq<u8> {
    match b {
        BodyView::Integer(v) => int_decimal(v) + seq![BYTE_NL],
        BodyView::Float(t) => t + seq![BYTE_NL],
        BodyView::String(t) => t + seq![BYTE_NL],
        BodyView::Position(x, y, z) => x + seq![BYTE_NL] + y + seq![BYTE_NL] + z + seq![BYTE_NL],
        BodyView::Block(x, y, z) => int_decimal(x) + seq![BYTE_COMMA] + int_decimal(y) + seq![
            BYTE_COMMA,
        ] + int_decimal(z) + seq![BYTE_NL],
    }
}

/// Render a read reply into the bytes handed back to the kernel.
pub fn render_body(b: &Body) -> (r: Vec<u8>)
    ensures
        r@ == render_body_spec(b@),
{
    match b {
        Body::Integer(v) => {
            let mut out = crate::num::format_i32(*v);
            out.push(BYTE_NL);
            proof {
                assert(out@ =~= render_body_spec(b@));
            }
            out
        },
        Body::Float(t) => {
            let mut out = t.clone();
            out.push(BYTE_NL);
            proof {
                assert(out@ =~= render_body_spec(b@));
            }
            out
        },
        Body::String(t) => {
            let mut out = t.clone();
            out.push(BYTE_NL);
            proof {
                assert(out@ =~= render_body_spec(b@));
            }
            out
        },
        Body::Position { x, y, z } => {
            let mut out = x.clone();
            out.push(BYTE_NL);
            let mut yb = y.clone();
            out.append(&mut yb);
            out.push(BYTE_NL);
            let mut zb = z.clone();
            out.append(&mut zb);
            out.push(BYTE_NL);
            proof {
                assert(out@ =~= render_body_spec(b@));
            }
            out
        },
        Body::Block { x, y, z } => {
            let mut out = crate::num::format_i32(*x);
            out.push(BYTE_COMMA);
            let mut yb = crate::num::format_i32(*y);
            out.append(&mut yb);
            out.push(BYTE_COMMA);
            let mut zb = crate::num::format_i32(*z);
            out.append(&mut zb);
            out.push(BYTE_NL);
            proof {
                assert(out@ =~= render_body_spec(b@));
            }
            out
        },
    }
}

} // verus!
