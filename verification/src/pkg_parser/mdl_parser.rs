//! The `.mdl` puppet-warp model: an MDLV mesh section, an MDLS skeleton
//! section and an MDLA animation section.
use vstd::prelude::*;
use vstd::slice::{slice_subrange, slice_to_vec};
use crate::pkg_parser::wire::{le_u16, le_u32, fits, u16_at, u32_at, has_room};
use crate::pkg_parser::text::{utf8_lossy, lossy_string};
use vstd::utf8::{
    encode_utf8, valid_utf8, decode_utf8, is_ascii_chars, is_ascii_chars_encode_utf8,
    encode_utf8_valid_utf8, encode_utf8_decode_utf8,
};

verus! {

// ── Byte-level reads ──────────────────────────────────────────────────────

/// The little-endian `u32` at `pos`, if four bytes are there.
pub open spec fn spec_read_u32(s: Seq<u8>, pos: int) -> Option<u32> {
    if fits(s, pos, 4) { Some(le_u32(s, pos)) } else { None }
}

/// The little-endian `u16` at `pos`, if two bytes are there.
pub open spec fn spec_read_u16(s: Seq<u8>, pos: int) -> Option<u16> {
    if fits(s, pos, 2) { Some(le_u16(s, pos)) } else { None }
}

/// Reads a little-endian `u32` at `*pos` and advances past it; leaves `*pos`
/// alone when fewer than four bytes remain.
pub fn read_u32_le(bytes: &[u8], pos: &mut usize) -> (r: Option<u32>)
    ensures
        r == spec_read_u32(bytes@, *old(pos) as int),
        *final(pos) == (if r is Some { *old(pos) + 4 } else { *old(pos) as int }),
{
    if has_room(bytes, *pos, 4) {
        let v = u32_at(bytes, *pos);
        *pos = *pos + 4;
        Some(v)
    } else {
        None
    }
}

/// Reads a little-endian `u16` at `*pos` and advances past it; leaves `*pos`
/// alone when fewer than two bytes remain.
pub fn read_u16_le(bytes: &[u8], pos: &mut usize) -> (r: Option<u16>)
    ensures
        r == spec_read_u16(bytes@, *old(pos) as int),
        *final(pos) == (if r is Some { *old(pos) + 2 } else { *old(pos) as int }),
{
    if has_room(bytes, *pos, 2) {
        let v = u16_at(bytes, *pos);
        *pos = *pos + 2;
        Some(v)
    } else {
        None
    }
}

/// The index of the first zero byte at or after `i`.
pub open spec fn first_zero(s: Seq<u8>, i: int) -> Option<int>
    decreases s.len() - i,
{
    if i < 0 || i >= s.len() {
        None
    } else if s[i] == 0 {
        Some(i)
    } else {
        first_zero(s, i + 1)
    }
}

/// A NUL-terminated string starting at `pos`: its bytes (without the NUL) and
/// the position just past the NUL.
pub open spec fn spec_cstring(s: Seq<u8>, pos: int) -> Option<(Seq<u8>, int)> {
    if pos < 0 || pos > s.len() {
        None
    } else {
        match first_zero(s, pos) {
            Some(z) => Some((s.subrange(pos, z), z + 1)),
            None => None,
        }
    }
}

proof fn lemma_first_zero_bounds(s: Seq<u8>, i: int)
    ensures
        first_zero(s, i) matches Some(z) ==> i <= z < s.len() && s[z] == 0
            && forall|k: int| i <= k < z ==> s[k] != 0,
    decreases s.len() - i,
{
    if 0 <= i < s.len() && s[i] != 0 {
        lemma_first_zero_bounds(s, i + 1);
    }
}

/// Reads a NUL-terminated string at `*offset` (decoded lossily as UTF-8) and
/// advances past the terminator; leaves `*offset` alone when there is none.
pub fn read_cstring(bytes: &[u8], offset: &mut usize) -> (r: Option<String>)
    ensures
        match spec_cstring(bytes@, *old(offset) as int) {
            Some((content, next)) => r matches Some(st) && st@ == utf8_lossy(content)
                && *final(offset) == next,
            None => r is None && *final(offset) == *old(offset),
        },
        r is Some ==> *final(offset) <= bytes@.len(),
        r matches Some(st) ==> forall|k: int| 0 <= k < st@.len() ==> st@[k] != '\0',
{
    let start = *offset;
    if start > bytes.len() {
        return None;
    }
    let mut i = start;
    while i < bytes.len() && bytes[i] != 0
        invariant
            start <= i <= bytes@.len(),
            first_zero(bytes@, start as int) == first_zero(bytes@, i as int),
        decreases bytes@.len() - i,
    {
        i += 1;
    }
    proof {
        lemma_first_zero_bounds(bytes@, start as int);
    }
    if i == bytes.len() {
        return None;
    }
    let s = lossy_string(slice_subrange(bytes, start, i));
    *offset = i + 1;
    Some(s)
}

// ── MDLV header ───────────────────────────────────────────────────────────

/// MDLV section header.
#[derive(Debug, Clone)]
pub struct MdlvHeader {
    pub magic: String,
    pub type_val: u32,
    pub sub_version: u16,
    pub flags: u16,
    pub unknown_16: u32,
    pub material_path: String,
    pub header_size: usize,
}

/// The mathematical content of an [`MdlvHeader`].
pub struct MdlvHeaderModel {
    pub magic: Seq<char>,
    pub type_val: u32,
    pub sub_version: u16,
    pub flags: u16,
    pub unknown_16: u32,
    pub material_path: Seq<char>,
    pub header_size: usize,
}

impl DeepView for MdlvHeader {
    type V = MdlvHeaderModel;

    open spec fn deep_view(&self) -> MdlvHeaderModel {
        MdlvHeaderModel {
            magic: self.magic@,
            type_val: self.type_val,
            sub_version: self.sub_version,
            flags: self.flags,
            unknown_16: self.unknown_16,
            material_path: self.material_path@,
            header_size: self.header_size,
        }
    }
}

/// The file starts with `MDLV0021` or `MDLV0023`.
pub open spec fn is_mdlv_magic(s: Seq<u8>) -> bool {
    &&& s.len() >= 8
    &&& s[0] == 0x4D && s[1] == 0x44 && s[2] == 0x4C && s[3] == 0x56
    &&& s[4] == 0x30 && s[5] == 0x30 && s[6] == 0x32
    &&& (s[7] == 0x31 || s[7] == 0x33)
}

/// The MDLV header of a model file: the magic at 0, `type_val` at 0x08,
/// `sub_version` at 0x0C, `flags` at 0x0E, `unknown_16` at 0x10, a pad byte
/// at 0x14 and the NUL-terminated material path from 0x15.
pub open spec fn spec_parse_header(s: Seq<u8>) -> Option<MdlvHeaderModel> {
    if !is_mdlv_magic(s) || s.len() < 21 {
        None
    } else {
        match spec_cstring(s, 21) {
            None => None,
            Some((path, _)) => Some(
                MdlvHeaderModel {
                    magic: utf8_lossy(s.subrange(0, 8)),
                    type_val: le_u32(s, 8),
                    sub_version: le_u16(s, 12),
                    flags: le_u16(s, 14),
                    unknown_16: le_u32(s, 16),
                    material_path: utf8_lossy(path),
                    header_size: 0,
                },
            ),
        }
    }
}

proof fn lemma_ascii_text(m: Seq<u8>, text: Seq<char>)
    requires
        is_ascii_chars(text),
        m.len() == text.len(),
        forall|i: int| 0 <= i < m.len() ==> m[i] == text[i] as u8,
    ensures
        valid_utf8(m),
        decode_utf8(m) == text,
{
    is_ascii_chars_encode_utf8(text);
    assert(m =~= encode_utf8(text));
    encode_utf8_valid_utf8(text);
    encode_utf8_decode_utf8(text);
}

proof fn lemma_mdlv_magic_text(m: Seq<u8>)
    requires
        is_mdlv_magic(m),
        m.len() == 8,
    ensures
        valid_utf8(m),
        decode_utf8(m) == "MDLV0021"@ || decode_utf8(m) == "MDLV0023"@,
{
    reveal_strlit("MDLV0021");
    reveal_strlit("MDLV0023");
    if m[7] == 0x31 {
        lemma_ascii_text(m, "MDLV0021"@);
    } else {
        lemma_ascii_text(m, "MDLV0023"@);
    }
}

fn check_mdlv_magic(bytes: &[u8]) -> (r: bool)
    ensures
        r == is_mdlv_magic(bytes@),
{
    bytes.len() >= 8 && bytes[0] == 0x4D && bytes[1] == 0x44 && bytes[2] == 0x4C && bytes[3]
        == 0x56 && bytes[4] == 0x30 && bytes[5] == 0x30 && bytes[6] == 0x32 && (bytes[7] == 0x31
        || bytes[7] == 0x33)
}

impl MdlvHeader {
    /// Parses the MDLV header at the start of `bytes`.
    pub fn parse(bytes: &[u8]) -> (r: Option<MdlvHeader>)
        ensures
            r.deep_view() == spec_parse_header(bytes@),
            r matches Some(h) ==> h.magic@ == "MDLV0021"@ || h.magic@ == "MDLV0023"@,
            r matches Some(h) ==> forall|k: int|
                0 <= k < h.material_path@.len() ==> h.material_path@[k] != '\0',
    {
        if !check_mdlv_magic(bytes) {
            return None;
        }
        let magic_str = lossy_string(slice_subrange(bytes, 0, 8));
        proof {
            lemma_mdlv_magic_text(bytes@.subrange(0, 8));
        }
        let mut pos: usize = 8;
        let type_val = read_u32_le(bytes, &mut pos)?;
        let sub_version = read_u16_le(bytes, &mut pos)?;
        let flags = read_u16_le(bytes, &mut pos)?;
        let unknown_16 = read_u32_le(bytes, &mut pos)?;
        // Padding byte at 0x14.
        pos = pos + 1;
        let material_path = read_cstring(bytes, &mut pos)?;
        Some(
            MdlvHeader {
                magic: magic_str,
                type_val,
                sub_version,
                flags,
                unknown_16,
                material_path,
                header_size: 0,
            },
        )
    }
}

// ── Locating the mesh block ───────────────────────────────────────────────
//
// The mesh block sits right after the material path and 28 bytes of zero
// padding: at `21 + 1 + material_path_len + 28`. It starts with the signature
// `0F 00 80 01`, then the vertex byte count (a multiple of the 80-byte stride),
// the vertex records, the index byte count (a multiple of 6) and the indices,
// all before the MDLS section. When the predicted offset does not hold such a
// block, a byte-level scan looks for one.

pub const HEADER_TO_CSTRING_START: usize = 21;
pub const MESH_PADDING_AFTER_CSTRING: usize = 28;
pub const MESH_HEADER_SIZE: usize = 8;
pub const VERTEX_STRIDE: usize = 80;

/// The predicted offset of the mesh block.
pub open spec fn spec_predict_mesh_offset(material_path_len: int) -> int {
    21 + 1 + material_path_len + 28
}

/// The counts that a mesh block at `off` would carry, ignoring the signature:
/// a nonzero vertex byte count that is a multiple of 80 and a nonzero index
/// byte count that is a multiple of 6, with the whole block (counts included)
/// ending at or before `end`.
pub open spec fn mesh_fields(s: Seq<u8>, off: int, end: int) -> Option<(u32, u32)> {
    if off < 0 || off + 12 > end || end > s.len() {
        None
    } else {
        let vb = le_u32(s, off + 4);
        if vb == 0 || vb % 80 != 0 || off + 12 + vb > end {
            None
        } else {
            let ve = off + 8 + vb;
            let ib = le_u32(s, ve);
            if ib == 0 || ib % 6 != 0 || ve + 4 + ib > end {
                None
            } else {
                Some((vb, ib))
            }
        }
    }
}

/// The mesh block signature `0F 00 80 01` at `off`.
pub open spec fn has_mesh_signature(s: Seq<u8>, off: int) -> bool {
    s[off] == 0x0F && s[off + 1] == 0x00 && s[off + 2] == 0x80 && s[off + 3] == 0x01
}

/// The counts of a signed mesh block at `off` that ends by `end`.
pub open spec fn spec_try_read_mesh_block(s: Seq<u8>, off: int, end: int) -> Option<(u32, u32)> {
    if off < 0 || off + 8 > end || end > s.len() {
        None
    } else if !has_mesh_signature(s, off) {
        None
    } else {
        mesh_fields(s, off, end)
    }
}

/// The first offset at or after `off` that holds a mesh block (signature not
/// required), with its counts.
pub open spec fn spec_scan_from(s: Seq<u8>, end: int, off: int) -> Option<(int, u32, u32)>
    decreases end - off,
{
    if off < 0 || off + 12 > end {
        None
    } else {
        match mesh_fields(s, off, end) {
            Some((vb, ib)) => Some((off, vb, ib)),
            None => spec_scan_from(s, end, off + 1),
        }
    }
}

/// Where the structural scan starts: just past the magic and its pad byte.
pub open spec fn scan_start() -> int {
    9
}

pub open spec fn search_end(s: Seq<u8>, mdls_offset: int) -> int {
    if mdls_offset < s.len() { mdls_offset } else { s.len() as int }
}

/// The mesh block: at the predicted offset if one is there, else the first
/// one the scan finds.
pub open spec fn spec_locate_mesh_block(s: Seq<u8>, mdls_offset: int, material_path_len: int)
    -> Option<(int, u32, u32)> {
    let end = search_end(s, mdls_offset);
    let predicted = spec_predict_mesh_offset(material_path_len);
    match spec_try_read_mesh_block(s, predicted, end) {
        Some((vb, ib)) => Some((predicted, vb, ib)),
        None => spec_scan_from(s, end, scan_start()),
    }
}

/// A located block lies within `end` with well-formed counts.
pub open spec fn mesh_block_ok(s: Seq<u8>, end: int, off: int, vb: u32, ib: u32) -> bool {
    &&& 0 <= off
    &&& end <= s.len()
    &&& vb > 0 && vb % 80 == 0
    &&& ib > 0 && ib % 6 == 0
    &&& off + 12 + vb + ib <= end
    &&& vb == le_u32(s, off + 4)
    &&& ib == le_u32(s, off + 8 + vb)
}

pub proof fn lemma_scan_from_ok(s: Seq<u8>, end: int, off: int)
    requires
        end <= s.len(),
    ensures
        spec_scan_from(s, end, off) matches Some((o, vb, ib)) ==> off <= o && mesh_block_ok(
            s,
            end,
            o,
            vb,
            ib,
        ),
    decreases end - off,
{
    if off >= 0 && off + 12 <= end {
        if mesh_fields(s, off, end) is None {
            lemma_scan_from_ok(s, end, off + 1);
        }
    }
}

/// The predicted offset of the mesh block for a material path of
/// `material_path_len` bytes.
pub fn predict_mesh_offset(material_path_len: usize) -> (r: usize)
    requires
        material_path_len + 50 <= usize::MAX,
    ensures
        r == spec_predict_mesh_offset(material_path_len as int),
{
    HEADER_TO_CSTRING_START + 1 + material_path_len + MESH_PADDING_AFTER_CSTRING
}

/// Checks the mesh block counts at `off` (signature not checked); requires the
/// 12 bytes of signature and vertex count to lie within `end`.
fn read_mesh_fields(bytes: &[u8], off: usize, end: usize) -> (r: Option<(u32, u32)>)
    requires
        end <= bytes@.len(),
    ensures
        r == mesh_fields(bytes@, off as int, end as int),
{
    if off > end || end - off < 12 {
        return None;
    }
    let vertex_bytes = u32_at(bytes, off + 4);
    let vbytes = vertex_bytes as usize;
    if vertex_bytes == 0 || vbytes % VERTEX_STRIDE != 0 {
        return None;
    }
    if vbytes > end - off - 12 {
        return None;
    }
    let vertices_end = off + MESH_HEADER_SIZE + vbytes;
    let index_bytes = u32_at(bytes, vertices_end);
    let ibytes = index_bytes as usize;
    if index_bytes == 0 || ibytes % 6 != 0 {
        return None;
    }
    if ibytes > end - vertices_end - 4 {
        return None;
    }
    Some((vertex_bytes, index_bytes))
}

/// The counts `(vertex_bytes, index_bytes)` of the mesh block at
/// `block_offset`, if it carries the signature and ends by `search_end`.
pub fn try_read_mesh_block(bytes: &[u8], block_offset: usize, search_end: usize) -> (r: Option<
    (u32, u32),
>)
    requires
        search_end <= bytes@.len(),
    ensures
        r == spec_try_read_mesh_block(bytes@, block_offset as int, search_end as int),
{
    if block_offset > search_end || search_end - block_offset < MESH_HEADER_SIZE {
        return None;
    }
    if !(bytes[block_offset] == 0x0F && bytes[block_offset + 1] == 0x00 && bytes[block_offset + 2]
        == 0x80 && bytes[block_offset + 3] == 0x01) {
        return None;
    }
    read_mesh_fields(bytes, block_offset, search_end)
}

/// Byte-level structural scan: the first offset from 9 on where a vertex
/// count (multiple of 80), the vertices, an index count (multiple of 6) and
/// the indices all fit before the MDLS section.
pub fn find_mesh_block_scan(bytes: &[u8], mdls_offset: usize) -> (r: Option<(usize, u32, u32)>)
    ensures
        r matches Some((o, vb, ib)) ==> spec_scan_from(
            bytes@,
            search_end(bytes@, mdls_offset as int),
            scan_start(),
        ) == Some((o as int, vb, ib)),
        r is None ==> spec_scan_from(bytes@, search_end(bytes@, mdls_offset as int), scan_start())
            is None,
{
    let limit = if mdls_offset < bytes.len() {
        mdls_offset
    } else {
        bytes.len()
    };
    let ghost end = limit as int;
    let mut offset: usize = 9;
    while offset <= limit && limit - offset >= 12
        invariant
            limit <= bytes@.len(),
            end == limit,
            end == search_end(bytes@, mdls_offset as int),
            9 <= offset,
            spec_scan_from(bytes@, end, scan_start()) == spec_scan_from(bytes@, end, offset as int),
        decreases limit - offset,
    {
        match read_mesh_fields(bytes, offset, limit) {
            Some((vertex_bytes, index_bytes)) => {
                assert(spec_scan_from(bytes@, end, offset as int) == Some(
                    (offset as int, vertex_bytes, index_bytes),
                ));
                return Some((offset, vertex_bytes, index_bytes));
            },
            None => {
                offset += 1;
            },
        }
    }
    None
}

/// The mesh block `(offset, vertex_bytes, index_bytes)`: at the predicted
/// offset when it holds a signed block, else found by the structural scan.
pub fn locate_mesh_block(bytes: &[u8], mdls_offset: usize, material_path_len: usize) -> (r: Option<
    (usize, u32, u32),
>)
    ensures
        r matches Some((o, vb, ib)) ==> spec_locate_mesh_block(
            bytes@,
            mdls_offset as int,
            material_path_len as int,
        ) == Some((o as int, vb, ib)),
        r is None ==> spec_locate_mesh_block(bytes@, mdls_offset as int, material_path_len as int)
            is None,
{
    let limit = if mdls_offset < bytes.len() {
        mdls_offset
    } else {
        bytes.len()
    };
    if material_path_len <= usize::MAX - 50 {
        let predicted = predict_mesh_offset(material_path_len);
        if let Some(found) = try_read_mesh_block(bytes, predicted, limit) {
            return Some((predicted, found.0, found.1));
        }
    }
    find_mesh_block_scan(bytes, mdls_offset)
}

// ── MDLV data: control points and triangles ───────────────────────────────

/// A single 80-byte control point record.
///
/// Layout (all little-endian): `+0` pos_x, `+4` pos_y, `+8` pos_z (f32),
/// `+40` bone_a (u16), `+44` bone_b (u16), `+56` weight_a, `+60` weight_b,
/// `+72` tex_u, `+76` tex_v (f32). The `f32` fields are kept as their raw
/// IEEE-754 bit patterns (`f32::from_bits` recovers the value).
#[derive(Debug, Clone, Copy, PartialEq, Eq)]
pub struct ControlPoint {
    pub index: u32,
    pub pos_x_bits: u32,
    pub pos_y_bits: u32,
    pub pos_z_bits: u32,
    /// Index of bone A (0xFFFF if unused).
    pub bone_a: u16,
    /// Index of bone B (0xFFFF if unused).
    pub bone_b: u16,
    pub weight_a_bits: u32,
    pub weight_b_bits: u32,
    pub tex_u_bits: u32,
    pub tex_v_bits: u32,
}

/// A triangle defined by 3 vertex indices.
#[derive(Debug, Clone, Copy, PartialEq, Eq)]
pub struct Triangle {
    pub a: u16,
    pub b: u16,
    pub c: u16,
}

/// MDLV data section (control points and triangle indices).
#[derive(Debug, Clone)]
pub struct MdlvData {
    pub records: Vec<ControlPoint>,
    /// Triangle indices into control points (3 × u16 per triangle).
    pub triangles: Vec<Triangle>,
}

/// The mathematical content of an [`MdlvData`].
pub struct MdlvDataModel {
    pub records: Seq<ControlPoint>,
    pub triangles: Seq<Triangle>,
}

impl DeepView for MdlvData {
    type V = MdlvDataModel;

    open spec fn deep_view(&self) -> MdlvDataModel {
        MdlvDataModel { records: self.records@, triangles: self.triangles@ }
    }
}

/// `MDLS` at `i`.
pub open spec fn is_mdls_at(s: Seq<u8>, i: int) -> bool {
    s[i] == 0x4D && s[i + 1] == 0x44 && s[i + 2] == 0x4C && s[i + 3] == 0x53
}

/// The first offset at or after `i` where `MDLS` occurs.
pub open spec fn mdls_from(s: Seq<u8>, i: int) -> Option<int>
    decreases s.len() - i,
{
    if i < 0 || i + 4 > s.len() {
        None
    } else if is_mdls_at(s, i) {
        Some(i)
    } else {
        mdls_from(s, i + 1)
    }
}

/// The offset of the first `MDLS` marker in the file.
pub open spec fn spec_find_mdls(s: Seq<u8>) -> Option<int> {
    mdls_from(s, 0)
}

pub proof fn lemma_mdls_from_bounds(s: Seq<u8>, i: int)
    ensures
        mdls_from(s, i) matches Some(m) ==> i <= m && m + 4 <= s.len() && is_mdls_at(s, m)
            && forall|k: int| i <= k < m ==> !is_mdls_at(s, k),
    decreases s.len() - i,
{
    if 0 <= i && i + 4 <= s.len() && !is_mdls_at(s, i) {
        lemma_mdls_from_bounds(s, i + 1);
    }
}

/// The offset of the first `MDLS` marker.
pub fn find_mdls(bytes: &[u8]) -> (r: Option<usize>)
    ensures
        r matches Some(m) ==> spec_find_mdls(bytes@) == Some(m as int),
        r is None ==> spec_find_mdls(bytes@) is None,
{
    let mut i: usize = 0;
    while i <= bytes.len() && bytes.len() - i >= 4
        invariant
            mdls_from(bytes@, 0) == mdls_from(bytes@, i as int),
        decreases bytes@.len() - i,
    {
        if bytes[i] == 0x4D && bytes[i + 1] == 0x44 && bytes[i + 2] == 0x4C && bytes[i + 3] == 0x53 {
            return Some(i);
        }
        i += 1;
    }
    None
}

/// The control point record `i` at byte offset `off`.
pub open spec fn control_point_at(s: Seq<u8>, off: int, i: int) -> ControlPoint {
    ControlPoint {
        index: i as u32,
        pos_x_bits: le_u32(s, off),
        pos_y_bits: le_u32(s, off + 4),
        pos_z_bits: le_u32(s, off + 8),
        bone_a: le_u16(s, off + 40),
        bone_b: le_u16(s, off + 44),
        weight_a_bits: le_u32(s, off + 56),
        weight_b_bits: le_u32(s, off + 60),
        tex_u_bits: le_u32(s, off + 72),
        tex_v_bits: le_u32(s, off + 76),
    }
}

/// The triangle stored at byte offset `off`.
pub open spec fn triangle_at(s: Seq<u8>, off: int) -> Triangle {
    Triangle { a: le_u16(s, off), b: le_u16(s, off + 2), c: le_u16(s, off + 4) }
}

/// All three corners name one of the `n` control points.
pub open spec fn triangle_in_range(t: Triangle, n: int) -> bool {
    t.a < n && t.b < n && t.c < n
}

/// The in-range triangles among the first `k` triangles stored from `start`,
/// in file order.
pub open spec fn triangles_upto(s: Seq<u8>, start: int, n: int, k: nat) -> Seq<Triangle>
    decreases k,
{
    if k == 0 {
        seq![]
    } else {
        let prev = triangles_upto(s, start, n, (k - 1) as nat);
        let t = triangle_at(s, start + 6 * (k - 1));
        if triangle_in_range(t, n) {
            prev.push(t)
        } else {
            prev
        }
    }
}

/// The MDLV data of a model whose material path is `material_path_len` bytes
/// long: every control point of the located mesh block and the triangles
/// whose corners all name one of them.
pub open spec fn spec_parse_data(s: Seq<u8>, material_path_len: int) -> Option<MdlvDataModel> {
    match spec_find_mdls(s) {
        None => None,
        Some(m) => match spec_locate_mesh_block(s, m, material_path_len) {
            None => None,
            Some((off, vb, ib)) => {
                let n = vb / 80;
                let vo = off + 8;
                Some(
                    MdlvDataModel {
                        records: Seq::new(n as nat, |i: int| control_point_at(s, vo + 80 * i, i)),
                        triangles: triangles_upto(s, vo + vb + 4, n as int, (ib / 6) as nat),
                    },
                )
            },
        },
    }
}

proof fn lemma_locate_ok(s: Seq<u8>, mdls_offset: int, material_path_len: int)
    ensures
        spec_locate_mesh_block(s, mdls_offset, material_path_len) matches Some((o, vb, ib))
            ==> mesh_block_ok(s, search_end(s, mdls_offset), o, vb, ib),
{
    lemma_scan_from_ok(s, search_end(s, mdls_offset), scan_start());
}

fn read_control_point(bytes: &[u8], off: usize, i: usize) -> (r: ControlPoint)
    requires
        off + 80 <= bytes.len(),
        i <= u32::MAX,
    ensures
        r == control_point_at(bytes@, off as int, i as int),
{
    ControlPoint {
        index: i as u32,
        pos_x_bits: u32_at(bytes, off),
        pos_y_bits: u32_at(bytes, off + 4),
        pos_z_bits: u32_at(bytes, off + 8),
        bone_a: u16_at(bytes, off + 40),
        bone_b: u16_at(bytes, off + 44),
        weight_a_bits: u32_at(bytes, off + 56),
        weight_b_bits: u32_at(bytes, off + 60),
        tex_u_bits: u32_at(bytes, off + 72),
        tex_v_bits: u32_at(bytes, off + 76),
    }
}

impl MdlvData {
    /// Parses the control points and triangles of the mesh block.
    pub fn parse(bytes: &[u8], header: &MdlvHeader) -> (r: Option<MdlvData>)
        ensures
            r.deep_view() == spec_parse_data(
                bytes@,
                encode_utf8(header.material_path@).len() as int,
            ),
    {
        let mdls_offset = find_mdls(bytes)?;
        let (block_offset, vertex_bytes, index_bytes) = locate_mesh_block(
            bytes,
            mdls_offset,
            header.material_path.as_str().as_bytes().len(),
        )?;
        proof {
            lemma_locate_ok(
                bytes@,
                mdls_offset as int,
                encode_utf8(header.material_path@).len() as int,
            );
        }
        let vertices_offset = block_offset + MESH_HEADER_SIZE;
        let indices_offset = vertices_offset + vertex_bytes as usize + 4;
        let num_records = vertex_bytes as usize / VERTEX_STRIDE;
        let ghost s = bytes@;
        let len = bytes.len();

        let mut records: Vec<ControlPoint> = Vec::new();
        let mut i: usize = 0;
        while i < num_records
            invariant
                s == bytes@,
                i <= num_records,
                num_records * 80 == vertex_bytes,
                len == bytes@.len(),
                vertices_offset + vertex_bytes <= len,
                vertex_bytes <= u32::MAX,
                records@ =~= Seq::new(
                    i as nat,
                    |j: int| control_point_at(s, vertices_offset + 80 * j, j),
                ),
            decreases num_records - i,
        {
            let off = vertices_offset + i * VERTEX_STRIDE;
            let cp = read_control_point(bytes, off, i);
            records.push(cp);
            i += 1;
        }

        let mut triangles: Vec<Triangle> = Vec::new();
        let num_triangles = index_bytes as usize / 6;
        let mut k: usize = 0;
        while k < num_triangles
            invariant
                s == bytes@,
                k <= num_triangles,
                num_triangles * 6 == index_bytes,
                len == bytes@.len(),
                indices_offset + index_bytes <= len,
                triangles@ == triangles_upto(
                    s,
                    indices_offset as int,
                    num_records as int,
                    k as nat,
                ),
            decreases num_triangles - k,
        {
            let off = indices_offset + 6 * k;
            let t = Triangle { a: u16_at(bytes, off), b: u16_at(bytes, off + 2), c: u16_at(bytes, off + 4) };
            if (t.a as usize) < num_records && (t.b as usize) < num_records && (t.c as usize)
                < num_records {
                triangles.push(t);
            }
            k += 1;
        }
        Some(MdlvData { records, triangles })
    }
}

// ── MDLS: the skeleton ────────────────────────────────────────────────────

/// MDLS (bone/skeleton) section.
#[derive(Debug, Clone)]
pub struct Bones {
    pub header: String,
    pub bones: Vec<BoneEntry>,
}

/// A single bone entry with transformation matrix and metadata. The 4×4
/// `f32` matrix is kept as raw IEEE-754 bit patterns.
#[derive(Debug, Clone)]
pub struct BoneEntry {
    pub index: u32,
    pub tmp: u8,
    pub bone_type: u32,
    /// Parent bone index (0xFFFFFFFF means root / no parent).
    pub parent_index: u32,
    pub matrix_bits: [u32; 16],
    pub info: String,
}

/// The mathematical content of a [`BoneEntry`].
pub struct BoneEntryModel {
    pub index: u32,
    pub tmp: u8,
    pub bone_type: u32,
    pub parent_index: u32,
    pub matrix_bits: Seq<u32>,
    pub info: Seq<char>,
}

/// The mathematical content of [`Bones`].
pub struct BonesModel {
    pub header: Seq<char>,
    pub bones: Seq<BoneEntryModel>,
}

impl DeepView for BoneEntry {
    type V = BoneEntryModel;

    open spec fn deep_view(&self) -> BoneEntryModel {
        BoneEntryModel {
            index: self.index,
            tmp: self.tmp,
            bone_type: self.bone_type,
            parent_index: self.parent_index,
            matrix_bits: self.matrix_bits@,
            info: self.info@,
        }
    }
}

impl DeepView for Bones {
    type V = BonesModel;

    open spec fn deep_view(&self) -> BonesModel {
        BonesModel { header: self.header@, bones: self.bones.deep_view() }
    }
}

/// One bone entry at `p`: `tmp` (u8), `bone_type`, the parent index, the
/// entry byte length `L` (u32 each), then `L / 4` floats of which the first
/// (at most) 16 fill the matrix (the rest of the matrix is zero and the extra
/// floats are skipped), then the NUL-terminated metadata string. Yields the
/// entry and the position after it.
pub open spec fn bone_entry_at(s: Seq<u8>, p: int, index: u32) -> Option<(BoneEntryModel, int)> {
    if !fits(s, p, 13) {
        None
    } else {
        let num_floats = (le_u32(s, p + 9) / 4) as int;
        let m = if num_floats < 16 { num_floats } else { 16 };
        let mp = p + 13;
        if !fits(s, mp, 4 * m) {
            None
        } else {
            match spec_cstring(s, mp + 4 * num_floats) {
                None => None,
                Some((info, next)) => Some(
                    (
                        BoneEntryModel {
                            index,
                            tmp: s[p],
                            bone_type: le_u32(s, p + 1),
                            parent_index: le_u32(s, p + 5),
                            matrix_bits: Seq::new(
                                16,
                                |j: int| if j < m { le_u32(s, mp + 4 * j) } else { 0u32 },
                            ),
                            info: utf8_lossy(info),
                        },
                        next,
                    ),
                ),
            }
        }
    }
}

/// The first `k` bone entries from `p0`, and the position after them.
pub open spec fn bones_upto(s: Seq<u8>, p0: int, k: nat) -> Option<(Seq<BoneEntryModel>, int)>
    decreases k,
{
    if k == 0 {
        Some((seq![], p0))
    } else {
        match bones_upto(s, p0, (k - 1) as nat) {
            None => None,
            Some((bs, p)) => match bone_entry_at(s, p, (k - 1) as u32) {
                None => None,
                Some((e, next)) => Some((bs.push(e), next)),
            },
        }
    }
}

/// The MDLS section at `pos`: a NUL-terminated header, a next-offset and a
/// bone count (u32 each), then that many bone entries. Yields the section and
/// the position after it.
pub open spec fn spec_parse_bones(s: Seq<u8>, pos: int) -> Option<(BonesModel, int)> {
    match spec_cstring(s, pos) {
        None => None,
        Some((header, p1)) => if !fits(s, p1, 8) {
            None
        } else {
            match bones_upto(s, p1 + 8, le_u32(s, p1 + 4) as nat) {
                None => None,
                Some((bs, p)) => Some((BonesModel { header: utf8_lossy(header), bones: bs }, p)),
            }
        },
    }
}

proof fn lemma_bones_upto_stays_none(s: Seq<u8>, p0: int, k: nat, n: nat)
    requires
        k <= n,
        bones_upto(s, p0, k) is None,
    ensures
        bones_upto(s, p0, n) is None,
    decreases n - k,
{
    if k < n {
        lemma_bones_upto_stays_none(s, p0, k + 1, n);
    }
}

fn read_bone_entry(bytes: &[u8], pos: &mut usize, index: u32) -> (r: Option<BoneEntry>)
    ensures
        match bone_entry_at(bytes@, *old(pos) as int, index) {
            Some((m, next)) => r matches Some(e) && e.deep_view() == m && *final(pos) == next,
            None => r is None,
        },
{
    let ghost s = bytes@;
    let ghost p = *pos as int;
    if *pos >= bytes.len() {
        return None;
    }
    let tmp = bytes[*pos];
    *pos = *pos + 1;
    let bone_type = read_u32_le(bytes, pos)?;
    let unk1 = read_u32_le(bytes, pos)?;
    let entry_byte_len = read_u32_le(bytes, pos)?;
    let num_floats = (entry_byte_len / 4) as usize;
    let m = if num_floats < 16 {
        num_floats
    } else {
        16
    };
    let ghost mp = p + 13;
    let mut matrix_bits = [0u32; 16];
    let mut j: usize = 0;
    while j < m
        invariant
            s == bytes@,
            p == *old(pos) as int,
            mp == p + 13,
            fits(s, p, 13),
            num_floats == (le_u32(s, p + 9) / 4) as int,
            m == (if num_floats < 16 { num_floats } else { 16 }),
            m <= 16,
            j <= m,
            *pos == mp + 4 * j,
            forall|q: int| 0 <= q < j ==> matrix_bits@[q] == le_u32(s, mp + 4 * q),
            forall|q: int| j <= q < 16 ==> matrix_bits@[q] == 0u32,
            matrix_bits@.len() == 16,
        decreases m - j,
    {
        let f = read_u32_le(bytes, pos)?;
        matrix_bits[j] = f;
        j += 1;
    }
    if num_floats > 16 {
        let extra = (num_floats - 16) * 4;
        *pos = pos.checked_add(extra)?;
    }
    let info = read_cstring(bytes, pos)?;
    proof {
        assert(matrix_bits@ =~= Seq::new(
            16,
            |q: int| if q < m { le_u32(s, mp + 4 * q) } else { 0u32 },
        ));
    }
    Some(
        BoneEntry {
            index,
            tmp,
            bone_type,
            parent_index: unk1,
            matrix_bits,
            info,
        },
    )
}

impl Bones {
    /// Parses the MDLS section at `*pos` and advances past it. When it fails,
    /// `*pos` is left where reading stopped.
    pub fn parse(bytes: &[u8], pos: &mut usize) -> (r: Option<Bones>)
        ensures
            match spec_parse_bones(bytes@, *old(pos) as int) {
                Some((m, next)) => r matches Some(b) && b.deep_view() == m && *final(pos) == next,
                None => r is None,
            },
    {
        let ghost s = bytes@;
        let ghost start = *pos as int;
        let header = read_cstring(bytes, pos)?;
        let _next_offset = read_u32_le(bytes, pos)?;
        let num_bones = read_u32_le(bytes, pos)?;
        let ghost p0 = *pos as int;
        let ghost whole = match bones_upto(s, p0, num_bones as nat) {
            None => None,
            Some((bs, p)) => Some((BonesModel { header: header@, bones: bs }, p)),
        };
        let mut bones: Vec<BoneEntry> = Vec::new();
        let mut i: u32 = 0;
        while i < num_bones
            invariant
                s == bytes@,
                i <= num_bones,
                start == *old(pos) as int,
                spec_parse_bones(s, start) == whole,
                whole == match bones_upto(s, p0, num_bones as nat) {
                    None => None,
                    Some((bs, p)) => Some((BonesModel { header: header@, bones: bs }, p)),
                },
                bones_upto(s, p0, i as nat) == Some((bones.deep_view(), *pos as int)),
            decreases num_bones - i,
        {
            match read_bone_entry(bytes, pos, i) {
                Some(entry) => {
                    bones.push(entry);
                },
                None => {
                    proof {
                        lemma_bones_upto_stays_none(s, p0, (i + 1) as nat, num_bones as nat);
                    }
                    return None;
                },
            }
            i += 1;
        }
        Some(Bones { header, bones })
    }
}

// ── MDLA: the animation ───────────────────────────────────────────────────

/// MDLA (animation) section.
#[derive(Debug, Clone)]
pub struct Animation {
    pub header: String,
    pub end_offset: u32,
    pub num_animations: u32,
    pub num_frames: u32,
    pub animation_name: String,
    pub loop_mode: String,
    pub animation_data: Vec<u8>,
}

/// The mathematical content of an [`Animation`].
pub struct AnimationModel {
    pub header: Seq<char>,
    pub end_offset: u32,
    pub num_animations: u32,
    pub num_frames: u32,
    pub animation_name: Seq<char>,
    pub loop_mode: Seq<char>,
    pub animation_data: Seq<u8>,
}

impl DeepView for Animation {
    type V = AnimationModel;

    open spec fn deep_view(&self) -> AnimationModel {
        AnimationModel {
            header: self.header@,
            end_offset: self.end_offset,
            num_animations: self.num_animations,
            num_frames: self.num_frames,
            animation_name: self.animation_name@,
            loop_mode: self.loop_mode@,
            animation_data: self.animation_data@,
        }
    }
}

/// An optional NUL-terminated string at `pos`: its decoded text and the
/// position after it, or the empty text and `pos` itself when there is none.
pub open spec fn cstring_or_empty(s: Seq<u8>, pos: int) -> (Seq<char>, int) {
    match spec_cstring(s, pos) {
        Some((text, next)) => (utf8_lossy(text), next),
        None => (seq![], pos),
    }
}

/// The MDLA section at `pos`: a NUL-terminated header, then `end_offset`,
/// `num_animations`, `num_frames` and an unused word (u32 each), then an
/// optional name and an optional loop mode (NUL-terminated each), and every
/// remaining byte as the animation data.
pub open spec fn spec_parse_animation(s: Seq<u8>, pos: int) -> Option<AnimationModel> {
    match spec_cstring(s, pos) {
        None => None,
        Some((header, p1)) => if !fits(s, p1, 16) {
            None
        } else {
            let (name, p3) = cstring_or_empty(s, p1 + 16);
            let (loop_mode, p4) = cstring_or_empty(s, p3);
            Some(
                AnimationModel {
                    header: utf8_lossy(header),
                    end_offset: le_u32(s, p1),
                    num_animations: le_u32(s, p1 + 4),
                    num_frames: le_u32(s, p1 + 8),
                    animation_name: name,
                    loop_mode,
                    animation_data: s.subrange(p4, s.len() as int),
                },
            )
        },
    }
}

/// Where reading stops when the MDLA section at `pos` cannot be parsed: just
/// before the header when it has no terminator, else after the header and
/// the whole words that fit.
pub open spec fn animation_failure_pos(s: Seq<u8>, pos: int) -> int {
    match spec_cstring(s, pos) {
        None => pos,
        Some((_, p1)) => {
            let words = (s.len() - p1) / 4;
            p1 + 4 * (if words < 4 { words } else { 4 })
        },
    }
}

impl Animation {
    /// Parses the MDLA section at `*pos`, consuming the rest of the input.
    pub fn parse(bytes: &[u8], pos: &mut usize) -> (r: Option<Animation>)
        ensures
            r.deep_view() == spec_parse_animation(bytes@, *old(pos) as int),
            r is Some ==> *final(pos) == bytes@.len(),
            r is None ==> *final(pos) == animation_failure_pos(bytes@, *old(pos) as int),
    {
        let header = read_cstring(bytes, pos)?;
        let end_offset = read_u32_le(bytes, pos)?;
        let num_animations = read_u32_le(bytes, pos)?;
        let num_frames = read_u32_le(bytes, pos)?;
        let _unk = read_u32_le(bytes, pos)?;
        let animation_name = match read_cstring(bytes, pos) {
            Some(name) => name,
            None => String::new(),
        };
        let loop_mode = match read_cstring(bytes, pos) {
            Some(mode) => mode,
            None => String::new(),
        };
        let animation_data = slice_to_vec(slice_subrange(bytes, *pos, bytes.len()));
        *pos = bytes.len();
        Some(
            Animation {
                header,
                end_offset,
                num_animations,
                num_frames,
                animation_name,
                loop_mode,
                animation_data,
            },
        )
    }
}

// ── The whole model ───────────────────────────────────────────────────────

/// Parsed MDL (puppet model) file.
#[derive(Debug, Clone)]
pub struct MdlFile {
    pub header: MdlvHeader,
    pub data: MdlvData,
    pub bones: Bones,
    pub animation: Animation,
}

/// The mathematical content of an [`MdlFile`].
pub struct MdlFileModel {
    pub header: MdlvHeaderModel,
    pub data: MdlvDataModel,
    pub bones: BonesModel,
    pub animation: AnimationModel,
}

impl DeepView for MdlFile {
    type V = MdlFileModel;

    open spec fn deep_view(&self) -> MdlFileModel {
        MdlFileModel {
            header: self.header.deep_view(),
            data: self.data.deep_view(),
            bones: self.bones.deep_view(),
            animation: self.animation.deep_view(),
        }
    }
}

/// A whole model file: the MDLV header, the mesh data, and from the first
/// `MDLS` marker on the skeleton followed by the animation.
pub open spec fn spec_parse_mdl(s: Seq<u8>) -> Option<MdlFileModel> {
    match spec_parse_header(s) {
        None => None,
        Some(header) => match spec_parse_data(s, encode_utf8(header.material_path).len() as int) {
            None => None,
            Some(data) => match spec_find_mdls(s) {
                None => None,
                Some(m) => match spec_parse_bones(s, m) {
                    None => None,
                    Some((bones, p)) => match spec_parse_animation(s, p) {
                        None => None,
                        Some(animation) => Some(MdlFileModel { header, data, bones, animation }),
                    },
                },
            },
        },
    }
}

impl MdlFile {
    /// Parses an MDL file from raw bytes.
    pub fn new(bytes: &[u8]) -> (r: Option<MdlFile>)
        ensures
            r.deep_view() == spec_parse_mdl(bytes@),
            r matches Some(m) ==> m.header.magic@ == "MDLV0021"@ || m.header.magic@ == "MDLV0023"@,
    {
        let header = MdlvHeader::parse(bytes)?;
        let data = MdlvData::parse(bytes, &header)?;
        let mut pos = find_mdls(bytes)?;
        let bones = Bones::parse(bytes, &mut pos)?;
        let animation = Animation::parse(bytes, &mut pos)?;
        Some(MdlFile { header, data, bones, animation })
    }
}

// ── Laws ──────────────────────────────────────────────────────────────────

/// A NUL-terminated string read at `pos` holds no NUL, is followed by one,
/// and reading resumes right after it.
pub proof fn law_cstring_stops_at_first_nul(s: Seq<u8>, pos: int)
    ensures
        spec_cstring(s, pos) matches Some((text, next)) ==> {
            &&& next == pos + text.len() + 1
            &&& next <= s.len()
            &&& s[next - 1] == 0
            &&& forall|k: int| 0 <= k < text.len() ==> text[k] != 0
        },
{
    lemma_first_zero_bounds(s, pos);
}

proof fn lemma_triangles_in_range(s: Seq<u8>, start: int, n: int, k: nat)
    ensures
        forall|t: int|
            0 <= t < triangles_upto(s, start, n, k).len() ==> triangle_in_range(
                #[trigger] triangles_upto(s, start, n, k)[t],
                n,
            ),
    decreases k,
{
    if k > 0 {
        let prev = triangles_upto(s, start, n, (k - 1) as nat);
        lemma_triangles_in_range(s, start, n, (k - 1) as nat);
        let cur = triangles_upto(s, start, n, k);
        assert forall|t: int| 0 <= t < cur.len() implies triangle_in_range(#[trigger] cur[t], n) by {
            if t < prev.len() {
            }
        }
    }
}

/// In a parsed model every triangle's corners name existing control
/// points, and control point `i` carries index `i`.
pub proof fn law_mesh_is_well_formed(s: Seq<u8>)
    ensures
        spec_parse_mdl(s) matches Some(m) ==> {
            &&& forall|t: int|
                0 <= t < m.data.triangles.len() ==> triangle_in_range(
                    #[trigger] m.data.triangles[t],
                    m.data.records.len() as int,
                )
            &&& forall|i: int| 0 <= i < m.data.records.len() ==> #[trigger] m.data.records[i].index == i
        },
{
    if let Some(header) = spec_parse_header(s) {
        let mlen = encode_utf8(header.material_path).len() as int;
        if let Some(mdls) = spec_find_mdls(s) {
            if let Some((off, vb, ib)) = spec_locate_mesh_block(s, mdls, mlen) {
                lemma_triangles_in_range(s, off + 8 + vb + 4, (vb / 80) as int, (ib / 6) as nat);
            }
        }
    }
}

/// Every control point of a parsed mesh is read from its own 80-byte record:
/// record `i` starts `80 * i` bytes past the 8-byte header of the located
/// mesh block, and holds pos_x/pos_y/pos_z at +0/+4/+8, bone_a at +40,
/// bone_b at +44, weight_a at +56, weight_b at +60, tex_u at +72 and tex_v
/// at +76, all little-endian; there is one record per 80 bytes the block
/// announces.
pub proof fn law_control_point_layout(s: Seq<u8>, material_path_len: int)
    ensures
        spec_parse_data(s, material_path_len) matches Some(d) ==> {
            &&& spec_find_mdls(s) matches Some(m)
            &&& spec_locate_mesh_block(s, m, material_path_len) matches Some((off, vb, ib))
            &&& d.records.len() == vb / 80
            &&& forall|i: int|
                0 <= i < d.records.len() ==> {
                    let base = off + 8 + 80 * i;
                    let r = #[trigger] d.records[i];
                    &&& r.index == i
                    &&& r.pos_x_bits == le_u32(s, base)
                    &&& r.pos_y_bits == le_u32(s, base + 4)
                    &&& r.pos_z_bits == le_u32(s, base + 8)
                    &&& r.bone_a == le_u16(s, base + 40)
                    &&& r.bone_b == le_u16(s, base + 44)
                    &&& r.weight_a_bits == le_u32(s, base + 56)
                    &&& r.weight_b_bits == le_u32(s, base + 60)
                    &&& r.tex_u_bits == le_u32(s, base + 72)
                    &&& r.tex_v_bits == le_u32(s, base + 76)
                }
        },
{
    if let Some(d) = spec_parse_data(s, material_path_len) {
        let m = spec_find_mdls(s)->0;
        let (off, vb, ib) = spec_locate_mesh_block(s, m, material_path_len)->0;
        assert forall|i: int| 0 <= i < d.records.len() implies {
            let base = off + 8 + 80 * i;
            let r = #[trigger] d.records[i];
            &&& r.index == i
            &&& r.pos_x_bits == le_u32(s, base)
            &&& r.pos_y_bits == le_u32(s, base + 4)
            &&& r.pos_z_bits == le_u32(s, base + 8)
            &&& r.bone_a == le_u16(s, base + 40)
            &&& r.bone_b == le_u16(s, base + 44)
            &&& r.weight_a_bits == le_u32(s, base + 56)
            &&& r.weight_b_bits == le_u32(s, base + 60)
            &&& r.tex_u_bits == le_u32(s, base + 72)
            &&& r.tex_v_bits == le_u32(s, base + 76)
        } by {
            lemma_locate_ok(s, m, material_path_len);
        }
    }
}

/// The MDLV header fields sit where the format puts them: `type_val` is the
/// little-endian word at 0x08, `sub_version` and `flags` the half-words at
/// 0x0C and 0x0E, `unknown_16` the word at 0x10, and the material path is
/// the text from 0x15 up to the first NUL after it.
pub proof fn law_mdlv_header_layout(s: Seq<u8>)
    ensures
        spec_parse_header(s) matches Some(h) ==> {
            &&& h.type_val == le_u32(s, 8)
            &&& h.sub_version == le_u16(s, 12)
            &&& h.flags == le_u16(s, 14)
            &&& h.unknown_16 == le_u32(s, 16)
            &&& exists|z: int|
                21 <= z < s.len() && s[z] == 0 && (forall|k: int| 21 <= k < z ==> s[k] != 0)
                    && h.material_path == utf8_lossy(#[trigger] s.subrange(21, z))
        },
{
    if let Some(h) = spec_parse_header(s) {
        lemma_first_zero_bounds(s, 21);
        let z = first_zero(s, 21)->0;
        assert(h.material_path == utf8_lossy(s.subrange(21, z)));
    }
}

} // verus!
