//! The messages between the program and its viewers, and how they are framed: four bytes with the
//! length, the most significant one first, and then as many bytes of JSON.
use crate::text::push_bytes;
use vstd::prelude::*;
use vstd::slice::slice_subrange;
use vstd::slice::slice_to_vec;

verus! {

/// Message to a viewer.
#[derive(Debug)]
pub enum ServerMsg {
    /// The screen, as bytes that reproduce it when they are fed to a terminal.
    ScreenUpdate {
        screen_data: Vec<u8>,
        /// The line of the cursor, counted from zero.
        cursor_row: u16,
        /// The column of the cursor, counted from zero.
        cursor_col: u16,
    },
    /// The sessions, for the sidebar.
    SessionList { sessions: Vec<SessionInfo>, active_id: Option<String> },
    /// The program is about to end.
    Goodbye,
    /// The size of the virtual window.
    WindowSize { cols: u16, rows: u16 },
}

/// What a viewer is told about a session.
#[derive(Debug)]
pub struct SessionInfo {
    pub id: String,
    pub command: String,
    pub status: String,
}

/// What a viewer is told about a session, as a mathematical value.
pub struct InfoView {
    pub id: Seq<char>,
    pub command: Seq<char>,
    pub status: Seq<char>,
}

impl View for SessionInfo {
    type V = InfoView;

    open spec fn view(&self) -> InfoView {
        InfoView { id: self.id@, command: self.command@, status: self.status@ }
    }
}

/// The views of a list of sessions.
pub open spec fn info_views(v: Seq<SessionInfo>) -> Seq<InfoView> {
    v.map_values(|s: SessionInfo| s@)
}

impl Clone for SessionInfo {
    fn clone(&self) -> (c: Self)
        ensures
            c@ == self@,
    {
        SessionInfo {
            id: self.id.clone(),
            command: self.command.clone(),
            status: self.status.clone(),
        }
    }
}

/// Message from a viewer.
#[derive(Debug, PartialEq, Eq)]
pub enum ClientMsg {
    /// Raw keystrokes.
    KeyInput { bytes: Vec<u8> },
    /// The viewer wants to see another session.
    SwitchSession { session_id: String },
    /// The viewer's terminal has another size.
    Resize { cols: u16, rows: u16 },
    /// The viewer goes away.
    Detach,
}

/// A length in four bytes, the most significant one first. What is above 32 bits is lost.
pub open spec fn length_bytes(n: nat) -> Seq<u8> {
    seq![
        (n / 0x100_0000 % 0x100) as u8,
        (n / 0x1_0000 % 0x100) as u8,
        (n / 0x100 % 0x100) as u8,
        (n % 0x100) as u8,
    ]
}

/// The length that four bytes stand for.
pub open spec fn length_of(s: Seq<u8>) -> nat {
    (s[0] * 0x100_0000 + s[1] * 0x1_0000 + s[2] * 0x100 + s[3]) as nat
}

/// A payload in its frame.
pub open spec fn framed(payload: Seq<u8>) -> Seq<u8> {
    length_bytes(payload.len()) + payload
}

/// The length of the frame that some bytes begin with; none while it is incomplete.
pub open spec fn frame_length(buf: Seq<u8>) -> Option<nat> {
    if buf.len() < 4 || buf.len() < 4 + length_of(buf) {
        None
    } else {
        Some(4 + length_of(buf))
    }
}

/// The four bytes of a length.
pub fn length_prefix(n: usize) -> (bytes: Vec<u8>)
    ensures
        bytes@ == length_bytes(n as nat),
{
    let mut bytes: Vec<u8> = Vec::new();
    bytes.push((n / 0x100_0000 % 0x100) as u8);
    bytes.push((n / 0x1_0000 % 0x100) as u8);
    bytes.push((n / 0x100 % 0x100) as u8);
    bytes.push((n % 0x100) as u8);
    assert(bytes@ =~= length_bytes(n as nat));
    bytes
}

/// The length that the first four bytes stand for.
pub fn read_length(buf: &[u8]) -> (n: u32)
    requires
        buf.len() >= 4,
    ensures
        n == length_of(buf@),
{
    buf[0] as u32 * 0x100_0000 + buf[1] as u32 * 0x1_0000 + buf[2] as u32 * 0x100 + buf[3] as u32
}

/// Puts the JSON of a message into its frame.
pub fn encode_message(json: &[u8]) -> (bytes: Vec<u8>)
    ensures
        bytes@ == framed(json@),
{
    let mut bytes = length_prefix(json.len());
    push_bytes(&mut bytes, json);
    bytes
}

/// Takes the JSON of the first message out of its frame, and says how many bytes that is in all;
/// none while the message is incomplete.
pub fn decode_message(buf: &[u8]) -> (found: Option<(Vec<u8>, usize)>)
    ensures
        match found {
            Some((json, n)) => frame_length(buf@) == Some(n as nat) && json@ == buf@.subrange(
                4,
                n as int,
            ),
            None => frame_length(buf@) is None,
        },
{
    if buf.len() < 4 {
        return None;
    }
    let len = read_length(buf);
    if buf.len() - 4 < len as usize {
        return None;
    }
    let n: usize = 4 + len as usize;
    Some((slice_to_vec(slice_subrange(buf, 4, n)), n))
}

/// A message of less than four gigabytes is read back as it was written, whatever follows it.
pub proof fn law_frames_are_read_back(payload: Seq<u8>, rest: Seq<u8>)
    requires
        payload.len() < 0x1_0000_0000,
    ensures
        frame_length(framed(payload) + rest) == Some(framed(payload).len()),
        (framed(payload) + rest).subrange(4, framed(payload).len() as int) == payload,
{
    let n = payload.len() as int;
    let all = framed(payload) + rest;
    assert(all[0] == length_bytes(n as nat)[0]);
    assert(all[1] == length_bytes(n as nat)[1]);
    assert(all[2] == length_bytes(n as nat)[2]);
    assert(all[3] == length_bytes(n as nat)[3]);
    assert(length_of(all) == n) by {
        assert(n / 0x100_0000 % 0x100 == n / 0x100_0000);
        assert(n / 0x1_0000 == n / 0x1_0000 / 0x100 * 0x100 + n / 0x1_0000 % 0x100);
        assert(n / 0x1_0000 / 0x100 == n / 0x100_0000);
        assert(n / 0x100 / 0x100 == n / 0x1_0000);
    }
    assert(all.subrange(4, framed(payload).len() as int) =~= payload);
}

/// Of a message that is cut off nothing is read.
pub proof fn law_cut_frames_are_not_read(payload: Seq<u8>, n: int)
    requires
        payload.len() < 0x1_0000_0000,
        0 <= n < framed(payload).len(),
    ensures
        frame_length(framed(payload).take(n)) is None,
{
    law_frames_are_read_back(payload, Seq::empty());
    assert(framed(payload) + Seq::empty() =~= framed(payload));
}

/// A frame begins with the length of its payload, the most significant byte first, and the payload
/// follows as it is.
pub proof fn law_frames_begin_with_the_length(payload: Seq<u8>)
    requires
        payload.len() <= 0xffff_ffff,
    ensures
        framed(payload).len() == payload.len() + 4,
        framed(payload).skip(4) == payload,
        framed(payload)[0] * 0x100_0000 + framed(payload)[1] * 0x1_0000 + framed(payload)[2] * 0x100
            + framed(payload)[3] == payload.len(),
{
    let f = framed(payload);
    assert(f.skip(4) =~= payload);
    let n = payload.len();
    assert(f[0] == n / 0x100_0000 % 0x100);
    assert(f[1] == n / 0x1_0000 % 0x100);
    assert(f[2] == n / 0x100 % 0x100);
    assert(f[3] == n % 0x100);
}

} // verus!
