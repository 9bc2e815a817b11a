use hoolamike::io_hook::IoHook;
use hoolamike::texconv::ExtensionConfig;
use hoolamike::ttw_manifest::{AssetRaw, AssetRawKind, Check, DebugAndRelease, FileAttr, Gui,
    Location, PostCommand, Tag, Variable};

#[test]
fn asset_kind_codes_round_trip() {
    let kinds = [
        AssetRawKind::Copy,
        AssetRawKind::New,
        AssetRawKind::Patch,
        AssetRawKind::XwmaFuz,
        AssetRawKind::OggEnc2,
        AssetRawKind::AudioEnc,
    ];
    for (i, k) in kinds.iter().enumerate() {
        assert_eq!(k.code(), i as u8);
        assert_eq!(AssetRawKind::from_code(i as u8), Some(*k));
    }
    assert_eq!(AssetRawKind::from_code(6), None);
    assert_eq!(AssetRawKind::from_code(255), None);
}

#[test]
fn asset_rows_expose_their_kind() {
    let a = AssetRaw::A(1, AssetRawKind::Patch, String::from("p"), 0, 0, 0, String::from("x"));
    let b = AssetRaw::B(
        1,
        AssetRawKind::Copy,
        String::from("p"),
        0,
        0,
        0,
        String::from("x"),
        String::from("y"),
    );
    assert_eq!(a.kind(), AssetRawKind::Patch);
    assert_eq!(b.kind(), AssetRawKind::Copy);
}

#[test]
fn debug_and_release_sides() {
    let pair: DebugAndRelease<u32> = DebugAndRelease((vec![1, 2], vec![3]));
    assert_eq!(pair.debug(), &vec![1, 2]);
    assert_eq!(pair.release(), &vec![3]);
}

#[test]
fn manifest_records_hold_their_fields() {
    let v = Variable {
        name: String::from("FO3Path"),
        kind: 1,
        exclude_delimiter: false,
        value: Some(String::from("C:\\Games\\FO3")),
    };
    assert_eq!(v.name, "FO3Path");
    let l = Location {
        name: String::from("TTW"),
        kind: 0,
        value: String::from("out"),
        create_folder: true,
        archive_type: Some(2),
        archive_flags: None,
        files_flags: None,
        archive_compressed: Some(true),
    };
    assert!(l.create_folder);
    let t = Tag {
        name: String::from("main"),
        id: 7,
        text_color: String::from("#fff"),
        back_color: String::from("#000"),
    };
    assert_eq!(t.id, 7);
    let c = Check {
        kind: 0,
        inverted: false,
        loc: 1,
        file: String::from("Fallout3.esm"),
        custom_message: String::from("missing base game"),
        checksums: None,
        free_size: Some(1024),
    };
    assert_eq!(c.free_size, Some(1024));
    let f = FileAttr { value: String::from("a"), last_modified: String::from("2020") };
    assert_eq!(f.last_modified, "2020");
    let p = PostCommand { value: String::from("sort.exe"), wait: true, hidden: false };
    assert!(p.wait);
    let g = Gui { files: String::from("gui"), width: 640, height: 480, borderless: false };
    assert_eq!((g.width, g.height), (640, 480));
}

#[test]
fn io_hook_pairs_stream_and_callback() {
    let hook = IoHook::new(vec![1u8, 2, 3], 42u32);
    assert_eq!(hook.inner, vec![1, 2, 3]);
    assert_eq!(hook.callback, 42);
}

#[test]
fn extension_config_holds_paths() {
    let cfg = ExtensionConfig {
        proton_path: String::from("/usr/bin/proton"),
        prefix_dir: String::from("/tmp/pfx"),
        steam_path: String::from("/home/user/.steam"),
        texconv_path: String::from("/opt/texconv.exe"),
    };
    assert_eq!(cfg.texconv_path, "/opt/texconv.exe");
}
