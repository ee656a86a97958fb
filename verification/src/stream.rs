//! The editor server's video stream: which frames are forced to be
//! keyframes, how a frame is framed for the socket (and read back by the
//! client), and where each sample of a frame goes in an I420 buffer.
use vstd::prelude::*;

verus! {

/// A keyframe is forced every this many frames, so that a client that joins
/// late can start decoding within about a second.
pub const KEYFRAME_INTERVAL: u32 = 30;

/// Whether frame `index` is encoded as a forced keyframe.
pub fn forces_keyframe(index: u32) -> (r: bool)
    ensures
        r == (index % KEYFRAME_INTERVAL == 0),
{
    index % KEYFRAME_INTERVAL == 0
}

/// The frame counter after a frame: it wraps around at `u32::MAX`.
pub fn next_frame_index(index: u32) -> (r: u32)
    ensures
        r == (if index == u32::MAX { 0 } else { index + 1 }),
{
    index.wrapping_add(1)
}

/// A socket message: one byte saying whether the frame is a keyframe, then
/// the H.264 bitstream.
pub open spec fn message(is_key: bool, h264: Seq<u8>) -> Seq<u8> {
    seq![if is_key { 1u8 } else { 0u8 }] + h264
}

/// The message for a frame; an empty bitstream is not sent.
pub fn frame_message(is_key: bool, h264: &Vec<u8>) -> (r: Option<Vec<u8>>)
    ensures
        h264@.len() == 0 ==> r is None,
        h264@.len() > 0 ==> (r matches Some(m) && m@ == message(is_key, h264@)),
{
    if h264.len() == 0 {
        return None;
    }
    let mut msg: Vec<u8> = Vec::new();
    msg.push(if is_key { 1u8 } else { 0u8 });
    let mut i: usize = 0;
    while i < h264.len()
        invariant
            i <= h264@.len(),
            msg@ == message(is_key, h264@.take(i as int)),
        decreases h264@.len() - i,
    {
        msg.push(h264[i]);
        assert(message(is_key, h264@.take(i + 1)) =~= message(is_key, h264@.take(i as int)).push(
            h264@[i as int],
        ));
        i = i + 1;
    }
    assert(h264@.take(h264@.len() as int) =~= h264@);
    Some(msg)
}

/// How the client reads a message: a first byte of 1 marks a keyframe, and
/// the rest is the bitstream. An empty message carries nothing.
pub fn read_message(msg: &[u8]) -> (r: Option<(bool, Vec<u8>)>)
    ensures
        msg@.len() == 0 ==> r is None,
        msg@.len() > 0 ==> (r matches Some((k, b)) && k == (msg@[0] == 1) && b@ == msg@.skip(1)),
{
    if msg.len() == 0 {
        return None;
    }
    let is_key = msg[0] == 1;
    let mut body: Vec<u8> = Vec::new();
    let mut i: usize = 1;
    while i < msg.len()
        invariant
            1 <= i <= msg@.len(),
            body@ == msg@.subrange(1, i as int),
        decreases msg@.len() - i,
    {
        body.push(msg[i]);
        assert(msg@.subrange(1, i + 1) =~= msg@.subrange(1, i as int).push(msg@[i as int]));
        i = i + 1;
    }
    assert(msg@.subrange(1, msg@.len() as int) =~= msg@.skip(1));
    Some((is_key, body))
}

/// What the client reads back is what the server framed: the keyframe flag
/// and the bitstream, unchanged.
pub proof fn law_message_round_trip(is_key: bool, h264: Seq<u8>)
    requires
        h264.len() > 0,
    ensures
        message(is_key, h264).len() > 0,
        (message(is_key, h264)[0] == 1) == is_key,
        message(is_key, h264).skip(1) == h264,
{
    assert(message(is_key, h264).skip(1) =~= h264);
}

/// The sizes of the planes of a `w` x `h` I420 frame: the luma plane, and
/// each of the two chroma planes (a quarter of it, rounded down).
pub open spec fn plane_sizes(w: nat, h: nat) -> (nat, nat) {
    (w * h, (w * h) / 4)
}

/// Where the luma sample of pixel `(row, col)` goes.
pub open spec fn luma_at(w: nat, row: nat, col: nat) -> nat {
    row * w + col
}

/// Where the two chroma samples of pixel `(row, col)` go, for the pixels
/// that carry them (even row, even column): the offsets of the U and the V
/// sample in the whole buffer.
pub open spec fn chroma_at(w: nat, h: nat, row: nat, col: nat) -> Option<(nat, nat)> {
    if row % 2 == 0 && col % 2 == 0 {
        let uv = (row / 2) * (w / 2) + col / 2;
        Some((plane_sizes(w, h).0 + uv, plane_sizes(w, h).0 + plane_sizes(w, h).1 + uv))
    } else {
        None
    }
}

/// The layout of a `width` x `height` I420 frame: the total buffer length and
/// the luma plane's length.
pub fn i420_sizes(width: usize, height: usize) -> (r: (usize, usize))
    requires
        width * height + 2 * ((width * height) / 4) <= usize::MAX,
    ensures
        r.1 == plane_sizes(width as nat, height as nat).0,
        r.0 == plane_sizes(width as nat, height as nat).0 + 2 * plane_sizes(
            width as nat,
            height as nat,
        ).1,
{
    let y_size = width * height;
    let uv_size = y_size / 4;
    (y_size + 2 * uv_size, y_size)
}

/// The offsets of the U and V samples taken at pixel `(row, col)`, if any.
/// The frame's sides are even, as the encoder's are; each offset is then
/// inside its plane.
pub fn chroma_slots(width: usize, height: usize, row: usize, col: usize) -> (r: Option<(usize, usize)>)
    requires
        row < height,
        col < width,
        width % 2 == 0,
        height % 2 == 0,
        width * height + 2 * ((width * height) / 4) <= usize::MAX,
    ensures
        r matches Some((u, v)) ==> width * height <= u < width * height + (width * height) / 4
            && v == u + (width * height) / 4,
        r == (match chroma_at(width as nat, height as nat, row as nat, col as nat) {
            Some((u, v)) => Some((u as usize, v as usize)),
            None => None::<(usize, usize)>,
        }),
{
    if row % 2 != 0 || col % 2 != 0 {
        return None;
    }
    let y_size = width * height;
    let uv_size = y_size / 4;
    proof {
        lemma_chroma_in_plane(width as nat, height as nat, row as nat, col as nat);
        assert((row / 2) * (width / 2) >= 0) by (nonlinear_arith);
    }
    let uv = (row / 2) * (width / 2) + col / 2;
    Some((y_size + uv, y_size + uv_size + uv))
}

/// Each chroma sample lands inside its plane (for an even width and height,
/// the planes hold exactly one sample per 2 x 2 block).
pub proof fn lemma_chroma_in_plane(w: nat, h: nat, row: nat, col: nat)
    requires
        row < h,
        col < w,
        row % 2 == 0,
        col % 2 == 0,
        w % 2 == 0,
        h % 2 == 0,
    ensures
        (row / 2) * (w / 2) + col / 2 < (w * h) / 4,
{
    let a = w / 2;
    let b = h / 2;
    let r2 = row / 2;
    let c2 = col / 2;
    assert(w == 2 * a && h == 2 * b);
    assert(r2 < b && c2 < a);
    assert(w * h == 4 * (a * b)) by (nonlinear_arith)
        requires
            w == 2 * a,
            h == 2 * b,
    ;
    assert((w * h) / 4 == a * b);
    assert(r2 * a <= (b - 1) * a) by (nonlinear_arith)
        requires
            r2 < b,
    ;
    assert((b - 1) * a + a == a * b) by (nonlinear_arith);
}

} // verus!
