use binsplit::digest::digest_of;
use binsplit::manifest::{Manifest, ManifestError, Segment, SegmentFormat, parse_format};
use binsplit::merge::{MergeError, merge_artifacts, merge_plan};
use binsplit::paths::{
    gap_artifact_path, listing_path, pass_through_dump_path, segment_artifact_path,
};
use binsplit::listings::split_listings;
use binsplit::split::{Piece, PieceKey, SplitError, split_image};
use binsplit::symbols::SymbolTable;

fn seg(start: u64, size: u64, name: &str, format: SegmentFormat) -> Segment {
    Segment {
        start,
        size,
        name: name.to_string(),
        path: None,
        format,
        group: None,
    }
}

fn manifest_for(image: &Vec<u8>, segments: Vec<Segment>) -> Manifest {
    Manifest {
        name: "image".to_string(),
        digest: digest_of(image),
        vram_offset: 0,
        segments,
    }
}

#[test]
fn split_covers_one_raw_segment_with_gaps() {
    let image: Vec<u8> = (0u8..0x20).collect();
    let m = manifest_for(&image, vec![seg(0x10, 0x8, "foo", SegmentFormat::Raw)]);

    let pieces = split_image(&m, &image).unwrap();
    assert_eq!(pieces.len(), 3);

    assert_eq!(pieces[0].key, PieceKey::Gap { start: 0 });
    assert_eq!(pieces[0].bytes, image[0x0..0x10].to_vec());
    assert_eq!(pieces[1].key, PieceKey::Seg { index: 0 });
    assert_eq!(pieces[1].bytes, image[0x10..0x18].to_vec());
    assert_eq!(pieces[2].key, PieceKey::Gap { start: 0x18 });
    assert_eq!(pieces[2].bytes, image[0x18..0x20].to_vec());

    assert_eq!(gap_artifact_path(0), "bin/bin_0.bin");
    assert_eq!(gap_artifact_path(0x18), "bin/bin_18.bin");
    assert_eq!(segment_artifact_path(&m.segments[0]), "bin/foo.bin");
}

#[test]
fn merge_rebuilds_the_image_byte_for_byte() {
    let image: Vec<u8> = (0u8..0x20).collect();
    let m = manifest_for(&image, vec![seg(0x10, 0x8, "foo", SegmentFormat::Raw)]);

    let pieces = split_image(&m, &image).unwrap();
    let out = merge_artifacts(&m, &pieces).unwrap();
    assert_eq!(out, image);
}

#[test]
fn round_trip_with_several_segments_and_no_gaps() {
    let image: Vec<u8> = (0u8..0x40).map(|x| x.wrapping_mul(7)).collect();
    let m = manifest_for(
        &image,
        vec![
            seg(0x0, 0x10, "head", SegmentFormat::Raw),
            seg(0x10, 0x0, "empty", SegmentFormat::Raw),
            seg(0x20, 0x20, "tail", SegmentFormat::Raw),
        ],
    );

    let pieces = split_image(&m, &image).unwrap();
    assert_eq!(pieces.len(), 4);
    assert_eq!(pieces[2].key, PieceKey::Gap { start: 0x10 });
    let out = merge_artifacts(&m, &pieces).unwrap();
    assert_eq!(out, image);
}

#[test]
fn split_refuses_a_wrong_digest() {
    let image: Vec<u8> = (0u8..0x20).collect();
    let mut m = manifest_for(&image, vec![seg(0x10, 0x8, "foo", SegmentFormat::Raw)]);
    m.digest = "0000000000000000000000000000000000000000".to_string();

    assert_eq!(split_image(&m, &image), Err(SplitError::ChecksumMismatch));
}

#[test]
fn split_refuses_a_disordered_layout() {
    let image: Vec<u8> = vec![0; 0x20];
    let m = manifest_for(
        &image,
        vec![
            seg(0x10, 0x8, "a", SegmentFormat::Raw),
            seg(0x8, 0x8, "b", SegmentFormat::Raw),
        ],
    );
    assert_eq!(split_image(&m, &image), Err(SplitError::OverlapOrDisorder));
}

#[test]
fn split_refuses_a_segment_beyond_the_image() {
    let image: Vec<u8> = vec![0; 0x10];
    let m = manifest_for(&image, vec![seg(0x8, 0x10, "a", SegmentFormat::Raw)]);
    assert_eq!(split_image(&m, &image), Err(SplitError::ReadBeyondImage));
}

#[test]
fn merge_checks_artifact_sizes() {
    let image: Vec<u8> = vec![1; 0x10];
    let m = manifest_for(&image, vec![seg(0x0, 0x10, "a", SegmentFormat::Raw)]);
    let pieces = vec![Piece {
        key: PieceKey::Seg { index: 0 },
        bytes: vec![1; 0x8],
    }];
    assert_eq!(
        merge_artifacts(&m, &pieces),
        Err(MergeError::SizeMismatch {
            expected: 0x10,
            actual: 0x8
        })
    );
}

#[test]
fn merge_reports_missing_wrong_and_trailing_artifacts() {
    let image: Vec<u8> = vec![1; 0x10];
    let m = manifest_for(&image, vec![seg(0x0, 0x10, "a", SegmentFormat::Raw)]);

    assert_eq!(merge_artifacts(&m, &vec![]), Err(MergeError::MissingArtifact));

    let wrong = vec![Piece {
        key: PieceKey::Gap { start: 0 },
        bytes: vec![1; 0x10],
    }];
    assert_eq!(merge_artifacts(&m, &wrong), Err(MergeError::WrongArtifact));

    let trailing = vec![
        Piece {
            key: PieceKey::Seg { index: 0 },
            bytes: vec![1; 0x10],
        },
        Piece {
            key: PieceKey::Seg { index: 0 },
            bytes: vec![],
        },
    ];
    assert_eq!(merge_artifacts(&m, &trailing), Err(MergeError::TrailingArtifact));
}

#[test]
fn merge_refuses_an_overlapping_layout() {
    let image: Vec<u8> = vec![1; 0x10];
    let m = manifest_for(
        &image,
        vec![
            seg(0x0, 0x10, "a", SegmentFormat::Raw),
            seg(0x8, 0x8, "b", SegmentFormat::Raw),
        ],
    );
    let pieces = vec![
        Piece {
            key: PieceKey::Seg { index: 0 },
            bytes: vec![1; 0x10],
        },
        Piece {
            key: PieceKey::Seg { index: 1 },
            bytes: vec![1; 0x8],
        },
    ];
    assert_eq!(merge_artifacts(&m, &pieces), Err(MergeError::OverlapOrDisorder));
}

#[test]
fn merge_plan_names_every_artifact_in_order() {
    let image: Vec<u8> = vec![0; 0x20];
    let m = manifest_for(&image, vec![seg(0x10, 0x8, "foo", SegmentFormat::Raw)]);
    let (keys, end) = merge_plan(&m).unwrap();
    assert_eq!(keys, vec![PieceKey::Gap { start: 0 }, PieceKey::Seg { index: 0 }]);
    assert_eq!(end, 0x18);

    let bad = manifest_for(
        &image,
        vec![
            seg(0x10, 0x10, "a", SegmentFormat::Raw),
            seg(0x8, 0x8, "b", SegmentFormat::Raw),
        ],
    );
    assert_eq!(merge_plan(&bad), Err(MergeError::OverlapOrDisorder));
}

#[test]
fn format_tags_parse_and_unknown_tags_are_malformed() {
    assert_eq!(parse_format("raw"), Ok(SegmentFormat::Raw));
    assert_eq!(parse_format("disassemble"), Ok(SegmentFormat::Disassemble));
    assert_eq!(parse_format("object"), Ok(SegmentFormat::Object));
    assert_eq!(parse_format("pass-through"), Ok(SegmentFormat::PassThrough));
    assert_eq!(parse_format("elf"), Err(ManifestError::MalformedManifest));
}

#[test]
fn artifact_paths_follow_the_format_layout() {
    let mut s = seg(0, 8, "boot", SegmentFormat::Raw);
    assert_eq!(segment_artifact_path(&s), "bin/boot.bin");
    s.path = Some("sys".to_string());
    assert_eq!(segment_artifact_path(&s), "sys/boot.bin");

    let d = seg(0, 8, "main", SegmentFormat::Disassemble);
    assert_eq!(segment_artifact_path(&d), "asm/main.bin");
    assert_eq!(listing_path(&d), "asm/main.s");

    let o = seg(0, 8, "unit", SegmentFormat::Object);
    assert_eq!(segment_artifact_path(&o), "obj/unit.bin");
    assert_eq!(listing_path(&o), "matching/unit.s");

    let mut p = seg(0, 8, "crt0", SegmentFormat::PassThrough);
    assert_eq!(segment_artifact_path(&p), "build/crt0.bin");
    assert_eq!(pass_through_dump_path(&p), "matching/crt0.bin");
    assert_eq!(listing_path(&p), "matching/crt0.s");
    p.group = Some("boot".to_string());
    assert_eq!(segment_artifact_path(&p), "build/crt0.boot.bin");
}

#[test]
fn digest_of_matches_a_known_vector() {
    let data = b"abc".to_vec();
    assert_eq!(digest_of(&data), "a9993e364706816aba3e25717850c26c9cd0d89d");
    let empty: Vec<u8> = Vec::new();
    assert_eq!(digest_of(&empty), "da39a3ee5e6b4b0d3255bfef95601890afd80709");
}

#[test]
fn split_listings_annotate_disassemble_segments() {
    // `li r3, 1` and `blr`, big endian
    let image: Vec<u8> = vec![0x38, 0x60, 0x00, 0x01, 0x4e, 0x80, 0x00, 0x20];
    let mut m = manifest_for(&image, vec![seg(0x0, 0x8, "main", SegmentFormat::Disassemble)]);
    m.vram_offset = 0x82000000;

    let pieces = split_image(&m, &image).unwrap();
    let syms = SymbolTable::from_lines(&vec!["82000000 start_here".to_string()]).unwrap();
    let listings = split_listings(&m, &pieces, &syms).unwrap();
    assert_eq!(listings.len(), 1);
    assert_eq!(listings[0].index, 0);
    assert_eq!(listings[0].lines.len(), 3);
    assert_eq!(listings[0].lines[0], "start_here:");
    assert!(listings[0].lines[2].starts_with("0x82000004: blr"));

    // a raw-only manifest calls for no listing
    let raw = manifest_for(&image, vec![seg(0x0, 0x8, "main", SegmentFormat::Raw)]);
    let pieces = split_image(&raw, &image).unwrap();
    let listings = split_listings(&raw, &pieces, &syms).unwrap();
    assert_eq!(listings.len(), 0);
}

#[test]
fn round_trip_covers_every_segment_format() {
    let image: Vec<u8> = (0u8..0x40).map(|x| x.wrapping_mul(3)).collect();
    let mut grouped = seg(0x30, 0x8, "src_unit", SegmentFormat::PassThrough);
    grouped.group = Some("boot".to_string());
    let m = manifest_for(
        &image,
        vec![
            seg(0x0, 0x10, "head", SegmentFormat::Raw),
            seg(0x10, 0x8, "code", SegmentFormat::Disassemble),
            seg(0x20, 0x10, "unit", SegmentFormat::Object),
            grouped,
        ],
    );

    let pieces = split_image(&m, &image).unwrap();
    // one gap between the second and third segment, one trailing gap
    assert_eq!(pieces.len(), 6);
    assert_eq!(pieces[2].key, PieceKey::Gap { start: 0x18 });
    assert_eq!(pieces[5].key, PieceKey::Gap { start: 0x38 });

    // every artifact reconstructed unchanged rebuilds the image exactly
    let out = merge_artifacts(&m, &pieces).unwrap();
    assert_eq!(out, image);
}
