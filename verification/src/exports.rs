//! What a game hands the host across the plugin boundary, computed as plain
//! values: how many meshes it uses, and the bytes of each mesh path, cut to
//! the room the host offers.
use vstd::prelude::*;

verus! {

broadcast use vstd::string::group_string_axioms;

/// The UTF-8 bytes of a path.
pub open spec fn utf8_of(s: Seq<char>) -> Seq<u8> {
    vstd::utf8::encode_utf8(s)
}

/// The reply to "path of mesh `i`, in at most `cap` bytes": the first
/// `min(len, cap)` bytes of its UTF-8 encoding, or nothing when there is no
/// mesh `i`.
pub open spec fn path_reply(paths: Seq<Seq<char>>, i: u32, cap: u32) -> Seq<u8> {
    if i < paths.len() {
        let b = utf8_of(paths[i as int]);
        if b.len() <= cap {
            b
        } else {
            b.take(cap as int)
        }
    } else {
        Seq::empty()
    }
}

/// How many meshes the host should load, as the `u32` the boundary carries
/// (a count past `u32::MAX` wraps, as the cast does).
pub fn meshes_count(paths: &Vec<String>) -> (r: u32)
    ensures
        r == paths@.len() as u32,
        paths@.len() <= u32::MAX ==> r == paths@.len(),
{
    #[verifier::truncate]
    (paths.len() as u32)
}

/// The bytes the host receives for mesh `i` when it offers `cap` bytes; their
/// number is what the call returns.
pub fn meshes_path(paths: &Vec<String>, i: u32, cap: u32) -> (r: Vec<u8>)
    ensures
        r@ == path_reply(paths@.map_values(|s: String| s@), i, cap),
{
    let ghost ps = paths@.map_values(|s: String| s@);
    if (i as usize) >= paths.len() {
        return Vec::new();
    }
    let bytes = paths[i as usize].as_str().as_bytes();
    assert(bytes@ == utf8_of(ps[i as int]));
    let n: usize = if bytes.len() <= cap as usize {
        bytes.len()
    } else {
        cap as usize
    };
    let mut out: Vec<u8> = Vec::new();
    let mut k: usize = 0;
    while k < n
        invariant
            k <= n <= bytes@.len(),
            out@ == bytes@.take(k as int),
        decreases n - k,
    {
        out.push(bytes[k]);
        assert(bytes@.take(k + 1) =~= bytes@.take(k as int).push(bytes@[k as int]));
        k = k + 1;
    }
    assert(bytes@.take(bytes@.len() as int) =~= bytes@);
    out
}

} // verus!
