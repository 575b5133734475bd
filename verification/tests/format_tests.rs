//! Tests of the package, texture, model and video parsers on hand-built
//! inputs.
use pkg_parser::pkg_parser::mdl_parser::{
    find_mesh_block_scan, locate_mesh_block, predict_mesh_offset, read_cstring, read_u16_le,
    read_u32_le, try_read_mesh_block, Animation, MdlFile, MdlvHeader,
};
use pkg_parser::pkg_parser::parser::{extraction_writes, file_kind, FileKind, Pkg};
use pkg_parser::pkg_parser::paths::{extension_is, file_stem, with_extension, with_file_name};
use pkg_parser::pkg_parser::tex_parser::{match_signature, raw_to_png, read_magic, read_u32, skip, Tex};
use pkg_parser::pkg_parser::text::{frame_file_name, str_eq};
use std::path::{Path, PathBuf};
use pkg_parser::pkg_parser::video_parser::{detect_format, save_gif_frames, Video, VideoFormat};

fn le32(out: &mut Vec<u8>, v: u32) {
    out.extend_from_slice(&v.to_le_bytes());
}

fn le16(out: &mut Vec<u8>, v: u16) {
    out.extend_from_slice(&v.to_le_bytes());
}

// ── byte helpers ─────────────────────────────────────────────────────────

#[test]
fn reads_little_endian_words() {
    let bytes = [0x78, 0x56, 0x34, 0x12, 0xCD, 0xAB];
    let mut pos = 0usize;
    assert_eq!(read_u32_le(&bytes, &mut pos), Some(0x1234_5678));
    assert_eq!(pos, 4);
    assert_eq!(read_u16_le(&bytes, &mut pos), Some(0xABCD));
    assert_eq!(pos, 6);
    assert_eq!(read_u16_le(&bytes, &mut pos), None);
    assert_eq!(pos, 6);
    let mut pos = 3usize;
    assert_eq!(read_u32(&bytes, &mut pos), None);
    assert_eq!(pos, 3);
}

#[test]
fn cstring_stops_at_first_nul() {
    let bytes = b"abc\0def\0gh";
    let mut pos = 0usize;
    assert_eq!(read_cstring(bytes, &mut pos).as_deref(), Some("abc"));
    assert_eq!(pos, 4);
    assert_eq!(read_cstring(bytes, &mut pos).as_deref(), Some("def"));
    assert_eq!(pos, 8);
    // no terminator left: nothing read, position kept
    assert_eq!(read_cstring(bytes, &mut pos), None);
    assert_eq!(pos, 8);
    let mut past = 11usize;
    assert_eq!(read_cstring(bytes, &mut past), None);
}

#[test]
fn cstring_decodes_lossily() {
    let bytes = [0x61, 0xFF, 0x62, 0x00];
    let mut pos = 0usize;
    assert_eq!(read_cstring(&bytes, &mut pos).as_deref(), Some("a\u{FFFD}b"));
    assert_eq!(pos, 4);
}

#[test]
fn skip_and_magic() {
    let bytes = b"TEXV0005_rest";
    let mut pos = 0usize;
    assert_eq!(read_magic(bytes, &mut pos), Some(*b"TEXV0005"));
    assert_eq!(pos, 8);
    assert_eq!(skip(bytes, &mut pos, 5), Some(()));
    assert_eq!(pos, 13);
    assert_eq!(skip(bytes, &mut pos, 1), None);
    assert_eq!(pos, 13);
    let mut p2 = 6usize;
    assert_eq!(read_magic(bytes, &mut p2), None);
    assert_eq!(p2, 6);
}

#[test]
fn string_equality() {
    assert!(str_eq("dxt1", "dxt1"));
    assert!(!str_eq("dxt1", "dxt5"));
    assert!(!str_eq("dxt", "dxt1"));
    assert!(str_eq("", ""));
}

// ── MDL ──────────────────────────────────────────────────────────────────

struct MdlSpec<'a> {
    material: &'a str,
    signed: bool,
    records: usize,
    triangles: &'a [(u16, u16, u16)],
}

fn mdl_record(out: &mut Vec<u8>, i: usize) {
    let start = out.len();
    out.resize(start + 80, 0);
    let r = &mut out[start..];
    r[0..4].copy_from_slice(&(i as f32 + 0.5).to_bits().to_le_bytes());
    r[4..8].copy_from_slice(&(-(i as f32)).to_bits().to_le_bytes());
    r[40..42].copy_from_slice(&(i as u16 + 3).to_le_bytes());
    r[44..46].copy_from_slice(&0xFFFFu16.to_le_bytes());
    r[56..60].copy_from_slice(&1.0f32.to_bits().to_le_bytes());
    r[72..76].copy_from_slice(&0.25f32.to_bits().to_le_bytes());
    r[76..80].copy_from_slice(&0.75f32.to_bits().to_le_bytes());
}

fn build_mdl(spec: &MdlSpec) -> Vec<u8> {
    let mut out = Vec::new();
    out.extend_from_slice(b"MDLV0023");
    le32(&mut out, 0x8000_0900);
    le16(&mut out, 0x0101);
    le16(&mut out, 0);
    le32(&mut out, 256);
    out.push(0);
    assert_eq!(out.len(), 21);
    out.extend_from_slice(spec.material.as_bytes());
    out.push(0);
    out.resize(out.len() + 28, 0);
    if spec.signed {
        out.extend_from_slice(&[0x0F, 0x00, 0x80, 0x01]);
    } else {
        out.extend_from_slice(&[0xAA, 0xAA, 0xAA, 0xAA]);
    }
    le32(&mut out, (spec.records * 80) as u32);
    for i in 0..spec.records {
        mdl_record(&mut out, i);
    }
    le32(&mut out, (spec.triangles.len() * 6) as u32);
    for &(a, b, c) in spec.triangles {
        le16(&mut out, a);
        le16(&mut out, b);
        le16(&mut out, c);
    }
    // Skeleton
    out.extend_from_slice(b"MDLS0004\0");
    le32(&mut out, 0);
    le32(&mut out, 3);
    for (k, floats) in [16u32, 18, 2].iter().enumerate() {
        out.push(7 + k as u8);
        le32(&mut out, 1);
        le32(&mut out, if k == 0 { 0xFFFF_FFFF } else { 0 });
        le32(&mut out, floats * 4);
        for j in 0..*floats {
            le32(&mut out, (j as f32).to_bits());
        }
        out.extend_from_slice(b"{\"a\":null}\0");
    }
    // Animation
    out.extend_from_slice(b"MDLA0006\0");
    le32(&mut out, 1234);
    le32(&mut out, 1);
    le32(&mut out, 215);
    le32(&mut out, 0);
    out.extend_from_slice(b"idle\0loop\0");
    out.extend_from_slice(&[9, 8, 7]);
    out
}

#[test]
fn mdl_full_model() {
    let bytes = build_mdl(&MdlSpec {
        material: "materials/puppet.json",
        signed: true,
        records: 3,
        triangles: &[(0, 1, 2), (2, 1, 0), (0, 1, 9)],
    });
    let mdl = MdlFile::new(&bytes).expect("model parses");
    assert_eq!(mdl.header.magic, "MDLV0023");
    assert_eq!(mdl.header.type_val, 0x8000_0900);
    assert_eq!(mdl.header.sub_version, 0x0101);
    assert_eq!(mdl.header.flags, 0);
    assert_eq!(mdl.header.unknown_16, 256);
    assert_eq!(mdl.header.material_path, "materials/puppet.json");
    assert_eq!(mdl.header.header_size, 0);

    assert_eq!(mdl.data.records.len(), 3);
    for (i, r) in mdl.data.records.iter().enumerate() {
        assert_eq!(r.index, i as u32);
        assert_eq!(f32::from_bits(r.pos_x_bits), i as f32 + 0.5);
        assert_eq!(f32::from_bits(r.pos_y_bits), -(i as f32));
        assert_eq!(r.bone_a, i as u16 + 3);
        assert_eq!(r.bone_b, 0xFFFF);
        assert_eq!(f32::from_bits(r.weight_a_bits), 1.0);
        assert_eq!(f32::from_bits(r.tex_u_bits), 0.25);
        assert_eq!(f32::from_bits(r.tex_v_bits), 0.75);
    }
    // the triangle naming control point 9 is dropped
    assert_eq!(mdl.data.triangles.len(), 2);
    assert_eq!((mdl.data.triangles[1].a, mdl.data.triangles[1].b, mdl.data.triangles[1].c), (2, 1, 0));

    assert_eq!(mdl.bones.header, "MDLS0004");
    assert_eq!(mdl.bones.bones.len(), 3);
    let b0 = &mdl.bones.bones[0];
    assert_eq!((b0.index, b0.tmp, b0.bone_type, b0.parent_index), (0, 7, 1, 0xFFFF_FFFF));
    assert_eq!(f32::from_bits(b0.matrix_bits[15]), 15.0);
    assert_eq!(b0.info, "{\"a\":null}");
    // 18 floats: the two extra ones are skipped
    let b1 = &mdl.bones.bones[1];
    assert_eq!(f32::from_bits(b1.matrix_bits[15]), 15.0);
    assert_eq!(b1.info, "{\"a\":null}");
    // 2 floats: the rest of the matrix stays zero
    let b2 = &mdl.bones.bones[2];
    assert_eq!(f32::from_bits(b2.matrix_bits[1]), 1.0);
    assert_eq!(b2.matrix_bits[2], 0);
    assert_eq!(b2.index, 2);

    assert_eq!(mdl.animation.header, "MDLA0006");
    assert_eq!(mdl.animation.end_offset, 1234);
    assert_eq!(mdl.animation.num_animations, 1);
    assert_eq!(mdl.animation.num_frames, 215);
    assert_eq!(mdl.animation.animation_name, "idle");
    assert_eq!(mdl.animation.loop_mode, "loop");
    assert_eq!(mdl.animation.animation_data, vec![9, 8, 7]);
}

#[test]
fn mdl_mesh_found_by_scan_without_signature() {
    let spec = MdlSpec { material: "m.json", signed: false, records: 2, triangles: &[(0, 1, 1)] };
    let bytes = build_mdl(&spec);
    let predicted = predict_mesh_offset("m.json".len());
    assert_eq!(predicted, 56);
    let mdls = bytes.windows(4).position(|w| w == b"MDLS").unwrap();
    assert_eq!(try_read_mesh_block(&bytes, predicted, mdls), None);
    assert_eq!(find_mesh_block_scan(&bytes, mdls), Some((predicted, 160, 6)));
    assert_eq!(locate_mesh_block(&bytes, mdls, 6), Some((predicted, 160, 6)));
    let mdl = MdlFile::new(&bytes).expect("model parses");
    assert_eq!(mdl.data.records.len(), 2);
    assert_eq!(mdl.data.triangles.len(), 1);
}

#[test]
fn mdl_mesh_at_predicted_offset() {
    let spec = MdlSpec { material: "abc", signed: true, records: 1, triangles: &[(0, 0, 0)] };
    let bytes = build_mdl(&spec);
    let mdls = bytes.windows(4).position(|w| w == b"MDLS").unwrap();
    assert_eq!(try_read_mesh_block(&bytes, 53, mdls), Some((80, 6)));
    assert_eq!(locate_mesh_block(&bytes, mdls, 3), Some((53, 80, 6)));
    // a block that would end past MDLS is refused
    assert_eq!(try_read_mesh_block(&bytes, 53, 53 + 8 + 80 + 4 + 5), None);
}

#[test]
fn mdl_rejects_bad_input() {
    assert!(MdlvHeader::parse(b"MDLV0022\0aaaaaaaaaaaaaaaa\0").is_none());
    assert!(MdlvHeader::parse(b"MDLV00").is_none());
    let mut ok = b"MDLV0021".to_vec();
    ok.extend_from_slice(&[1, 0, 0, 0, 2, 0, 3, 0, 4, 0, 0, 0]);
    ok.push(0xEE);
    ok.extend_from_slice(b"mat\0");
    let h = MdlvHeader::parse(&ok).expect("header parses");
    assert_eq!((h.type_val, h.sub_version, h.flags, h.unknown_16), (1, 2, 3, 4));
    assert_eq!(h.material_path, "mat");
    // material path without a terminator
    assert!(MdlvHeader::parse(&ok[..ok.len() - 1]).is_none());
    // a model without an MDLS section
    let bytes = build_mdl(&MdlSpec { material: "x", signed: true, records: 1, triangles: &[] });
    let cut = bytes.windows(4).position(|w| w == b"MDLS").unwrap();
    assert!(MdlFile::new(&bytes[..cut]).is_none());
}

#[test]
fn animation_without_name_or_loop() {
    let mut bytes = b"MDLA0006\0".to_vec();
    for v in [10u32, 1, 2, 0] {
        le32(&mut bytes, v);
    }
    bytes.extend_from_slice(&[1, 2, 3]);
    let mut pos = 0usize;
    let a = Animation::parse(&bytes, &mut pos).expect("animation parses");
    assert_eq!(a.animation_name, "");
    assert_eq!(a.loop_mode, "");
    assert_eq!(a.animation_data, vec![1, 2, 3]);
    assert_eq!(pos, bytes.len());
    // too short for the four words: stops after the header and whole words
    let mut pos = 0usize;
    assert!(Animation::parse(&bytes[..9 + 6], &mut pos).is_none());
    assert_eq!(pos, 13);
}

// ── TEX ──────────────────────────────────────────────────────────────────

struct TexSpec<'a> {
    texb: &'a [u8; 8],
    format: u32,
    width: u32,
    height: u32,
    mipmaps: u32,
    lz4: bool,
    decompressed: u32,
    payload: &'a [u8],
}

fn build_tex(spec: &TexSpec) -> Vec<u8> {
    let mut out = Vec::new();
    out.extend_from_slice(b"TEXV0005");
    out.push(0);
    out.extend_from_slice(b"TEXI0001");
    out.push(0);
    le32(&mut out, spec.format);
    le32(&mut out, 0);
    le32(&mut out, spec.width);
    le32(&mut out, spec.height);
    out.resize(out.len() + 12, 0);
    out.extend_from_slice(spec.texb);
    out.push(0);
    le32(&mut out, 1);
    out.resize(out.len() + 8, 0);
    if spec.texb[7] == b'4' {
        le32(&mut out, spec.mipmaps);
    }
    out.resize(out.len() + 8, 0);
    le32(&mut out, if spec.lz4 { 1 } else { 0 });
    le32(&mut out, spec.decompressed);
    le32(&mut out, spec.payload.len() as u32);
    out.extend_from_slice(spec.payload);
    out
}

#[test]
fn tex_header_fields() {
    let payload = [1u8, 2, 3, 4];
    let bytes = build_tex(&TexSpec {
        texb: b"TEXB0004",
        format: 9,
        width: 2,
        height: 2,
        mipmaps: 3,
        lz4: false,
        decompressed: 0,
        payload: &payload,
    });
    assert_eq!(bytes.len(), 91 + 4);
    let tex = Tex::new(&bytes).expect("texture parses");
    assert_eq!(tex.texv, "TEXV0005");
    assert_eq!(tex.texi, "TEXI0001");
    assert_eq!(tex.texb, "TEXB0004");
    assert_eq!(tex.dimension, [2, 2]);
    assert_eq!(tex.image_count, 1);
    assert_eq!(tex.mipmap_count, 3);
    assert_eq!(tex.actual_mip_count, 1);
    assert!(tex.mip_levels.is_empty());
    assert!(!tex.lz4);
    assert_eq!(tex.size, 4);
    assert_eq!(tex.extension, "r8");
    assert_eq!(tex.payload, payload.to_vec());
    // one byte short of the payload
    assert!(Tex::new(&bytes[..bytes.len() - 1]).is_none());
}

#[test]
fn tex_without_mipmap_field() {
    let bytes = build_tex(&TexSpec {
        texb: b"TEXB0003",
        format: 8,
        width: 1,
        height: 1,
        mipmaps: 0,
        lz4: false,
        decompressed: 0,
        payload: &[5, 6],
    });
    assert_eq!(bytes.len(), 87 + 2);
    let tex = Tex::new(&bytes).expect("texture parses");
    assert_eq!(tex.mipmap_count, 0);
    assert_eq!(tex.extension, "rg88");
    assert_eq!(tex.payload, vec![5, 6]);
}

#[test]
fn tex_format_ids() {
    let ext = |format: u32, payload: &[u8]| {
        let bytes = build_tex(&TexSpec {
            texb: b"TEXB0003",
            format,
            width: 4,
            height: 4,
            mipmaps: 0,
            lz4: false,
            decompressed: 0,
            payload,
        });
        Tex::new(&bytes).unwrap().extension
    };
    assert_eq!(ext(4, &[]), "dxt1");
    assert_eq!(ext(7, &[]), "dxt1");
    assert_eq!(ext(6, &[]), "dxt5");
    assert_eq!(ext(8, &[]), "rg88");
    assert_eq!(ext(9, &[]), "r8");
    assert_eq!(ext(3, &[]), "tex");
    assert_eq!(ext(0, &[0x89, 0x50, 0x4E, 0x47, 0x0D, 0x0A, 0x1A, 0x0A]), "png");
    assert_eq!(ext(0, &[0xFF, 0xD8, 0xFF, 0xE0]), "jpg");
    assert_eq!(ext(0, b"\0\0\0\x18ftypmp42"), "mp4");
    assert_eq!(ext(0, b"GIF89a"), "gif");
    assert_eq!(ext(0, b"GIF88a"), "tex");
}

#[test]
fn signatures() {
    assert_eq!(match_signature(b"GIF87a..."), "gif");
    assert_eq!(match_signature(b"GIF8"), "tex");
    assert_eq!(match_signature(&[]), "tex");
    assert_eq!(match_signature(&[0xFF, 0xD8, 0xFF]), "jpg");
}

#[test]
fn tex_lz4_payload_is_decompressed() {
    let plain: Vec<u8> = (0..200u32).map(|i| (i % 7) as u8).collect();
    let packed = lz4_flex::block::compress(&plain);
    let bytes = build_tex(&TexSpec {
        texb: b"TEXB0004",
        format: 9,
        width: 10,
        height: 20,
        mipmaps: 1,
        lz4: true,
        decompressed: plain.len() as u32,
        payload: &packed,
    });
    let tex = Tex::new(&bytes).expect("texture parses");
    assert!(tex.lz4);
    assert_eq!(tex.size as usize, packed.len());
    assert_eq!(tex.decompressed_size, 200);
    assert_eq!(tex.payload, plain);
    // a corrupt block fails the whole parse
    let bad = build_tex(&TexSpec {
        texb: b"TEXB0004",
        format: 9,
        width: 10,
        height: 20,
        mipmaps: 1,
        lz4: true,
        decompressed: 200,
        payload: &[0xF0],
    });
    assert!(Tex::new(&bad).is_none());
    // the stored container keeps the compressed bytes
    let raw = Tex::parse_container(&bytes).unwrap();
    assert_eq!(raw.payload, packed);
}

fn decode_png(png: &[u8]) -> (u32, u32, Vec<u8>) {
    let img = image::load_from_memory_with_format(png, image::ImageFormat::Png).unwrap().into_rgba8();
    (img.width(), img.height(), img.into_raw())
}

fn tex_with(ext: &str, w: u32, h: u32, payload: Vec<u8>) -> Tex {
    Tex {
        texv: "TEXV0005".into(),
        texi: "TEXI0001".into(),
        texb: "TEXB0004".into(),
        size: payload.len() as u32,
        dimension: [w, h],
        image_count: 1,
        mipmap_count: 1,
        actual_mip_count: 1,
        lz4: false,
        decompressed_size: payload.len() as u32,
        extension: ext.into(),
        payload,
        mip_levels: Vec::new(),
    }
}

#[test]
fn r8_to_png() {
    let tex = tex_with("r8", 2, 1, vec![10, 200]);
    let (png, ext) = tex.parse_to_image().expect("png");
    assert_eq!(ext, "png");
    assert_eq!(decode_png(&png), (2, 1, vec![10, 10, 10, 255, 200, 200, 200, 255]));
    // too few pixels for the dimensions
    assert!(tex_with("r8", 2, 2, vec![1, 2, 3]).parse_to_image().is_none());
}

#[test]
fn rg88_to_png_uses_two_bytes_per_pixel() {
    let tex = tex_with("rg88", 2, 1, vec![1, 2, 3, 4]);
    let (png, _) = tex.parse_to_image().expect("png");
    assert_eq!(decode_png(&png), (2, 1, vec![1, 1, 1, 2, 3, 3, 3, 4]));
    // an odd trailing byte is ignored
    let odd = tex_with("rg88", 1, 1, vec![7, 8, 9]);
    let (png, _) = odd.parse_to_image().expect("png");
    assert_eq!(decode_png(&png), (1, 1, vec![7, 7, 7, 8]));
}

#[test]
fn dxt1_to_png() {
    // one BC1 block: both endpoints white, all indices 0
    let block = vec![0xFF, 0xFF, 0xFF, 0xFF, 0, 0, 0, 0];
    let tex = tex_with("dxt1", 4, 4, block);
    let (png, ext) = tex.parse_to_image().expect("png");
    assert_eq!(ext, "png");
    let (w, h, px) = decode_png(&png);
    assert_eq!((w, h), (4, 4));
    assert_eq!(px, vec![255u8; 64]);
    // zero width cannot be decoded
    assert!(tex_with("dxt5", 0, 4, vec![0; 16]).parse_to_image().is_none());
}

#[test]
fn embedded_payload_passes_through() {
    let tex = tex_with("gif", 1, 1, b"GIF89a".to_vec());
    assert_eq!(tex.parse_to_image(), Some((b"GIF89a".to_vec(), "gif".to_string())));
    assert!(tex_with("rgba", 1, 1, vec![0; 4]).parse_to_image().is_none());
}

#[test]
fn raw_to_png_reads_front_of_buffer() {
    let (png, ext) = raw_to_png(vec![1, 2, 3, 4, 99], 1, 1).expect("png");
    assert_eq!(ext, "png");
    assert_eq!(decode_png(&png), (1, 1, vec![1, 2, 3, 4]));
    assert!(raw_to_png(vec![1, 2, 3], 1, 1).is_none());
}

#[test]
fn parse_to_rgba_decodes_png() {
    let mut buf = Vec::new();
    let img = image::RgbaImage::from_raw(2, 1, vec![1, 2, 3, 4, 5, 6, 7, 8]).unwrap();
    img.write_to(&mut std::io::Cursor::new(&mut buf), image::ImageFormat::Png).unwrap();
    let mut tex = tex_with("png", 99, 99, buf);
    assert_eq!(tex.parse_to_rgba(), Some(()));
    assert_eq!(tex.dimension, [2, 1]);
    assert_eq!(tex.payload, vec![1, 2, 3, 4, 5, 6, 7, 8]);
    // a broken PNG leaves the texture untouched
    let mut broken = tex_with("png", 3, 3, vec![1, 2, 3]);
    assert_eq!(broken.parse_to_rgba(), None);
    assert_eq!(broken.dimension, [3, 3]);
    assert_eq!(broken.payload, vec![1, 2, 3]);
}

#[test]
fn parse_to_rgba_other_formats() {
    let mut dxt = tex_with("dxt1", 8, 8, vec![0; 5]);
    assert_eq!(dxt.parse_to_rgba(), Some(()));
    assert_eq!(dxt.payload.len(), 5);
    let mut r8 = tex_with("r8", 2, 2, vec![0; 4]);
    assert_eq!(r8.parse_to_rgba(), Some(()));
    let mut raw = tex_with("tex", 2, 2, vec![0; 16]);
    assert_eq!(raw.parse_to_rgba(), Some(()));
    let mut short = tex_with("tex", 2, 2, vec![0; 15]);
    assert_eq!(short.parse_to_rgba(), None);
}

#[test]
fn mip_chain_dxt5_sizes_and_idempotence() {
    // 8x4 BC3: level0 2x1 blocks = 32 bytes, level1 4x2 -> 1 block = 16, level2 2x1 -> 16
    let mut payload = vec![1u8; 32];
    payload.extend(vec![2u8; 16]);
    payload.extend(vec![3u8; 16]);
    payload.extend(vec![4u8; 5]);
    let original = payload.clone();
    let mut tex = tex_with("dxt5", 8, 4, payload);
    tex.mipmap_count = 4;
    tex.build_mip_chain();
    assert_eq!(tex.payload, vec![1u8; 32]);
    assert_eq!(tex.mip_levels, vec![vec![2u8; 16], vec![3u8; 16]]);
    assert_eq!(tex.actual_mip_count(), 3);
    assert_eq!(tex.missing_mip_count(), 1);
    assert!(tex.needs_gpu_mip_generation());
    // nothing lost or reordered
    let mut kept = tex.payload.clone();
    for l in &tex.mip_levels {
        kept.extend_from_slice(l);
    }
    assert_eq!(kept[..], original[..kept.len()]);
    // a second build changes nothing
    let before = (tex.payload.clone(), tex.mip_levels.clone(), tex.actual_mip_count);
    tex.build_mip_chain();
    assert_eq!((tex.payload.clone(), tex.mip_levels.clone(), tex.actual_mip_count), before);
}

#[test]
fn mip_chain_payload_shorter_than_level0() {
    let mut tex = tex_with("dxt1", 8, 8, vec![0; 31]);
    tex.mipmap_count = 4;
    tex.build_mip_chain();
    assert_eq!(tex.payload.len(), 31);
    assert!(tex.mip_levels.is_empty());
    assert_eq!(tex.actual_mip_count(), 1);
    assert_eq!(tex.missing_mip_count(), 3);
}

// ── Video ────────────────────────────────────────────────────────────────

fn build_gif(frames: &[[u8; 4]]) -> Vec<u8> {
    let mut buf = Vec::new();
    {
        let mut enc = image::codecs::gif::GifEncoder::new(&mut buf);
        for px in frames {
            let img = image::RgbaImage::from_pixel(2, 1, image::Rgba(*px));
            enc.encode_frame(image::Frame::new(img)).unwrap();
        }
    }
    buf
}

#[test]
fn detects_video_formats() {
    assert_eq!(detect_format(b"\0\0\0\x20ftypisom"), Some(VideoFormat::Mp4));
    assert_eq!(detect_format(&[0x1A, 0x45, 0xDF, 0xA3, 0]), Some(VideoFormat::WebM));
    assert_eq!(detect_format(b"GIF87a"), Some(VideoFormat::Gif));
    assert_eq!(detect_format(b"GIF89"), None);
    assert_eq!(detect_format(b"\x89PNG\r\n\x1a\n"), None);
    let v = Video::new(b"\0\0\0\x20ftypisom").unwrap();
    assert!(v.is_video());
    assert!(!v.is_gif());
    assert_eq!(v.dimensions, None);
    assert_eq!(v.frame_count, None);
    assert_eq!(v.extract_frame(0), None);
    assert_eq!(v.extract_all_frames(), None);
    assert!(Video::new(b"not a video").is_none());
}

#[test]
fn gif_info_and_frames() {
    let gif = build_gif(&[[255, 0, 0, 255], [0, 0, 255, 255]]);
    let v = Video::new(&gif).expect("gif parses");
    assert!(v.is_gif());
    assert!(!v.is_video());
    assert_eq!(v.format, VideoFormat::Gif);
    assert_eq!(v.data, gif);
    assert_eq!(v.dimensions, Some((2, 1)));
    assert_eq!(v.frame_count, Some(2));
    let f0 = v.extract_frame(0).expect("frame 0");
    assert_eq!(f0, vec![255, 0, 0, 255, 255, 0, 0, 255]);
    let f1 = v.extract_frame(1).expect("frame 1");
    assert_eq!(f1, vec![0, 0, 255, 255, 0, 0, 255, 255]);
    assert_eq!(v.extract_frame(2), None);
    assert_eq!(v.extract_all_frames(), Some(vec![f0, f1]));
    // a truncated GIF still has a header but its frames do not decode
    let broken = Video::new(&gif[..13]).expect("header detected");
    assert!(broken.extract_all_frames().is_none());
}

#[test]
fn gif_frames_saved_as_png() {
    let gif = build_gif(&[[1, 2, 3, 255], [4, 5, 6, 255], [7, 8, 9, 255]]);
    let saved = save_gif_frames(&gif, "anim").expect("frames encoded");
    assert_eq!(saved.len(), 3);
    assert_eq!(saved[0].1, "anim_frame_0000.png");
    assert_eq!(saved[2].1, "anim_frame_0002.png");
    let (w, h, px) = decode_png(&saved[1].0);
    assert_eq!((w, h), (2, 1));
    assert_eq!(px, vec![4, 5, 6, 255, 4, 5, 6, 255]);
    assert!(save_gif_frames(b"GIF89a", "x").is_none());
}

// ── PKG ──────────────────────────────────────────────────────────────────

fn build_pkg(entries: &[(&[u8], u32, u32)], blob: &[u8]) -> Vec<u8> {
    let mut out = Vec::new();
    le32(&mut out, 8);
    out.extend_from_slice(b"PKGV0022");
    le32(&mut out, entries.len() as u32);
    for (path, offset, size) in entries {
        le32(&mut out, path.len() as u32);
        out.extend_from_slice(path);
        le32(&mut out, *offset);
        le32(&mut out, *size);
    }
    out.extend_from_slice(blob);
    out
}

fn file<'a>(pkg: &'a Pkg, path: &str) -> Option<&'a Vec<u8>> {
    pkg.files.iter().find(|(p, _)| p == path).map(|(_, d)| d)
}

#[test]
fn pkg_archive_files() {
    let bytes = build_pkg(
        &[(b"scene.json", 0, 3), (b"a/b.tex", 3, 2), (b"empty", 5, 0)],
        b"abcXY",
    );
    let pkg = Pkg::parse(&bytes).expect("archive parses");
    assert_eq!(pkg.header.version, "PKGV0022");
    assert_eq!(pkg.header.file_count, 3);
    assert_eq!(pkg.files.len(), 3);
    assert_eq!(file(&pkg, "scene.json"), Some(&b"abc".to_vec()));
    assert_eq!(file(&pkg, "a/b.tex"), Some(&b"XY".to_vec()));
    assert_eq!(file(&pkg, "empty"), Some(&Vec::new()));
}

#[test]
fn pkg_duplicate_path_keeps_greatest_offset() {
    let bytes = build_pkg(&[(b"f", 2, 1), (b"f", 0, 2), (b"g", 1, 1), (b"g", 1, 2)], b"pqr");
    let pkg = Pkg::parse(&bytes).expect("archive parses");
    assert_eq!(pkg.files.len(), 2);
    assert_eq!(file(&pkg, "f"), Some(&b"r".to_vec()));
    // equal offsets: the later table entry wins
    assert_eq!(file(&pkg, "g"), Some(&b"qr".to_vec()));
}

#[test]
fn pkg_rejects_bad_archives() {
    // data beyond the end
    assert!(Pkg::parse(&build_pkg(&[(b"f", 1, 5)], b"abc")).is_none());
    // invalid UTF-8 path
    assert!(Pkg::parse(&build_pkg(&[(&[0xFF], 0, 1)], b"a")).is_none());
    // truncated table
    let bytes = build_pkg(&[(b"f", 0, 1)], b"");
    assert!(Pkg::parse(&bytes[..bytes.len() - 2]).is_none());
    // truncated header
    assert!(Pkg::parse(&[8, 0, 0, 0, b'P']).is_none());
    let (header, pos) = Pkg::read_header(&build_pkg(&[], b"")).unwrap();
    assert_eq!((header.version.as_str(), header.file_count, pos), ("PKGV0022", 0, 16));
}

#[test]
fn extraction_kinds() {
    assert_eq!(file_kind("tex", true, true, true), FileKind::Texture);
    assert_eq!(file_kind("tex", false, true, true), FileKind::Plain);
    assert_eq!(file_kind("webm", true, true, true), FileKind::Video);
    assert_eq!(file_kind("gif", true, false, true), FileKind::Plain);
    assert_eq!(file_kind("mdl", true, true, true), FileKind::Model);
    assert_eq!(file_kind("json", true, true, true), FileKind::Plain);
}

#[test]
fn frame_names_are_zero_padded() {
    assert_eq!(frame_file_name("anim", 0), "anim_frame_0000.png");
    assert_eq!(frame_file_name("anim", 7), "anim_frame_0007.png");
    assert_eq!(frame_file_name("x", 12345), "x_frame_12345.png");
    assert_eq!(frame_file_name("", 42), "_frame_0042.png");
}

// ── Paths and extraction ─────────────────────────────────────────────────

#[test]
fn path_helpers() {
    assert_eq!(file_stem("fx/anim.gif"), "anim");
    assert_eq!(file_stem("a/b.tar.gz"), "b.tar");
    assert_eq!(file_stem(".bashrc"), ".bashrc");
    assert_eq!(file_stem("dir/noext"), "noext");
    assert_eq!(file_stem("x/a.gif/"), "a");
    assert_eq!(file_stem("x/.."), "");
    assert_eq!(with_extension("a/b.tex", "png"), "a/b.png");
    assert_eq!(with_extension("a/b", "png"), "a/b.png");
    assert_eq!(with_extension("a/b.tar.gz", ""), "a/b.tar");
    assert_eq!(with_extension("m/p.mdl", "mdl.json"), "m/p.mdl.json");
    assert_eq!(with_extension("a.d/file", "png"), "a.d/file.png");
    assert_eq!(with_extension("x/a.tex/", "png"), "x/a.png");
    assert_eq!(with_extension("x/a.tex/./", "png"), "x/a.png");
    assert_eq!(with_extension("", "png"), "");
    assert_eq!(with_extension("x/..", "png"), "x/..");
    assert_eq!(with_file_name("a/b.gif", "x.png"), "a/x.png");
    assert_eq!(with_file_name("b.gif", "x"), "x");
    assert_eq!(with_file_name("a//b.gif/", "x"), "a/x");
    assert_eq!(with_file_name("./b.gif", "x"), "./x");
    assert_eq!(with_file_name("x/..", "y"), "x/../y");
    assert!(extension_is("A/B.TeX", "tex"));
    assert!(extension_is("x.mp4", "mp4"));
    assert!(extension_is("x/a.tex/", "tex"));
    assert!(!extension_is("x.tex.bak", "tex"));
    assert!(!extension_is(".tex", "tex"));
    assert!(!extension_is("a.tex/b", "tex"));
}

#[test]
fn path_helpers_agree_with_std_path() {
    let paths = [
        "fx/anim.gif", "x/a.tex/", "x/a.tex/.", "x/a.tex//./", "a/./b.gif", "./b.gif", ".", "..",
        "x/..", "/", "", "/a.gif", ".bashrc", "a/.bashrc", "foo.", "a.b.c", "a//b.tar.gz", "./",
        "a/b/", "x/../y.mdl", "..gif", "//", "/.", "a/.", "A/B.TEX", "a./b",
    ];
    for p in paths {
        let std_ext = Path::new(p).extension().unwrap_or_default().to_str().unwrap().to_lowercase();
        for lit in ["tex", "gif", "gz", "c", "", "mdl"] {
            assert_eq!(extension_is(p, lit), std_ext == lit, "extension of {:?}", p);
        }
        let std_stem = Path::new(p).file_stem().map(|s| s.to_str().unwrap()).unwrap_or("");
        assert_eq!(file_stem(p), std_stem, "stem of {:?}", p);
        for ext in ["png", "", "mdl.json"] {
            let mut buf = PathBuf::from(p);
            buf.set_extension(ext);
            assert_eq!(with_extension(p, ext), buf.to_str().unwrap(), "{:?} with extension {:?}", p, ext);
        }
        for name in ["x.png", "", "/abs"] {
            let std_named = Path::new(p).with_file_name(name);
            assert_eq!(with_file_name(p, name), std_named.to_str().unwrap(), "{:?} with name {:?}", p, name);
        }
    }
}

fn r8_tex(w: u32, h: u32, payload: &[u8]) -> Vec<u8> {
    build_tex(&TexSpec {
        texb: b"TEXB0003",
        format: 9,
        width: w,
        height: h,
        mipmaps: 0,
        lz4: false,
        decompressed: 0,
        payload,
    })
}

#[test]
fn extraction_writes_plain_files_under_the_same_path() {
    let (writes, json) = extraction_writes("dir/readme.txt", b"hi", true, true, true);
    assert_eq!(writes, vec![("dir/readme.txt".to_string(), b"hi".to_vec())]);
    assert_eq!(json, None);
    // an option switched off leaves the file as it is
    let tex = r8_tex(1, 1, &[5]);
    let (writes, _) = extraction_writes("t/a.tex", &tex, false, true, true);
    assert_eq!(writes, vec![("t/a.tex".to_string(), tex.clone())]);
}

#[test]
fn extraction_converts_textures() {
    let tex = r8_tex(2, 1, &[10, 200]);
    let (writes, json) = extraction_writes("materials/skin.tex", &tex, true, false, false);
    assert_eq!(json, None);
    assert_eq!(writes.len(), 1);
    assert_eq!(writes[0].0, "materials/skin.png");
    assert_eq!(decode_png(&writes[0].1), (2, 1, vec![10, 10, 10, 255, 200, 200, 200, 255]));
    // the extension is matched without regard to case
    let (writes, _) = extraction_writes("materials/SKIN.TEX", &tex, true, false, false);
    assert_eq!(writes[0].0, "materials/SKIN.png");
    // a texture that does not parse writes nothing
    let (writes, json) = extraction_writes("materials/bad.tex", b"TEXV", true, true, true);
    assert!(writes.is_empty());
    assert_eq!(json, None);
    // the extension is that of the last component, trailing separators aside
    let (writes, _) = extraction_writes("x/a.tex/", b"TEXV", true, true, true);
    assert!(writes.is_empty());
    let (writes, _) = extraction_writes("x/skin.tex/", &tex, true, true, true);
    assert_eq!(writes[0].0, "x/skin.png");
    // nor does one whose pixels cannot be converted
    let short = r8_tex(2, 2, &[1]);
    let (writes, _) = extraction_writes("materials/short.tex", &short, true, true, true);
    assert!(writes.is_empty());
}

#[test]
fn extraction_of_videos_and_gif_frames() {
    let mp4 = b"\0\0\0\x20ftypisom".to_vec();
    let (writes, json) = extraction_writes("v/clip.mp4", &mp4, true, true, true);
    assert_eq!(writes, vec![("v/clip.mp4".to_string(), mp4.clone())]);
    assert_eq!(json, None);
    // an unrecognised video writes nothing
    let (writes, _) = extraction_writes("v/clip.webm", b"nothing", true, true, true);
    assert!(writes.is_empty());

    let gif = build_gif(&[[1, 2, 3, 255], [4, 5, 6, 255]]);
    let (writes, _) = extraction_writes("fx/anim.gif", &gif, true, true, true);
    assert_eq!(writes.len(), 3);
    assert_eq!(writes[0], ("fx/anim.gif".to_string(), gif.clone()));
    assert_eq!(writes[1].0, "fx/anim_frame_0000.png");
    assert_eq!(writes[2].0, "fx/anim_frame_0001.png");
    assert_eq!(decode_png(&writes[2].1), (2, 1, vec![4, 5, 6, 255, 4, 5, 6, 255]));
    // with videos not parsed the GIF is copied only
    let (writes, _) = extraction_writes("fx/anim.gif", &gif, true, false, true);
    assert_eq!(writes, vec![("fx/anim.gif".to_string(), gif)]);
}

#[test]
fn extraction_of_models() {
    let bytes = build_mdl(&MdlSpec {
        material: "materials/puppet.json",
        signed: true,
        records: 3,
        triangles: &[(0, 1, 2)],
    });
    let (writes, json) = extraction_writes("models/puppet.mdl", &bytes, true, true, true);
    assert_eq!(writes, vec![("models/puppet.mdl".to_string(), bytes.clone())]);
    assert_eq!(json.as_deref(), Some("models/puppet.mdl.json"));
    // a model that does not parse is still written, without JSON
    let (writes, json) = extraction_writes("models/broken.mdl", b"MDLV", true, true, true);
    assert_eq!(writes, vec![("models/broken.mdl".to_string(), b"MDLV".to_vec())]);
    assert_eq!(json, None);
    // with models not parsed there is no JSON either
    let (_, json) = extraction_writes("models/puppet.mdl", &bytes, true, true, false);
    assert_eq!(json, None);
}
