use hoolamike::texconv::{BcFlag, FeatureLevel, FileType, ImageFilter, NmapFlag, RecursiveMode,
    RotateColor, TexconvBuilder};
use hoolamike::texture::{match_dxgi_format, DXGIFormat, TextureFormat};

#[test]
fn enum_spellings() {
    assert_eq!(FileType::Dds.as_str(), "dds");
    assert_eq!(FileType::Tiff.as_str(), "tiff");
    assert_eq!(ImageFilter::Triangle.as_str(), "TRIANGLE");
    assert_eq!(ImageFilter::PointDitherDiffusion.as_str(), "POINT_DITHER_DIFFUSION");
    assert_eq!(RotateColor::Rec709ToHdr10.as_str(), "709toHDR10");
    assert_eq!(BcFlag::Quick.as_str(), "q");
    assert_eq!(NmapFlag::Luminance.as_str(), "l");
    assert_eq!(FeatureLevel::Fl11_0.as_str(), "11.0");
}

#[test]
fn a_full_conversion_command_line() {
    let mut b = TexconvBuilder::new(String::from("/pfx/texconv.exe"));
    b.output_dir = Some(String::from("Z:\\out"));
    b.file_type = Some(FileType::Dds);
    b.format = Some(String::from("BC7_UNORM"));
    b.width = Some(1024);
    b.height = Some(512);
    b.mip_levels = Some(11);
    b.image_filter = Some(ImageFilter::Triangle);
    b.permissive = true;
    b.no_logo = true;
    b.single_proc = true;
    let b = b
        .maybe_bc_flag(Some(BcFlag::Quick))
        .input_file(String::from("Z:\\in\\tex.dds"));
    let args = b.command_args();
    assert_eq!(
        args,
        vec![
            "-o",
            "Z:\\out",
            "--file-type",
            "dds",
            "--format",
            "BC7_UNORM",
            "--width",
            "1024",
            "--height",
            "512",
            "--mip-levels",
            "11",
            "--image-filter",
            "TRIANGLE",
            "--single-proc",
            "--block-compress",
            "q",
            "--permissive",
            "-nologo",
            "Z:\\in\\tex.dds",
        ]
    );
}

#[test]
fn flags_join_into_one_argument() {
    let b = TexconvBuilder::new(String::from("texconv"))
        .bc_flag(BcFlag::Uniform)
        .bc_flag(BcFlag::Dither)
        .nmap_flag(NmapFlag::Red)
        .nmap_flag(NmapFlag::Occlusion);
    let args = b.command_args();
    assert_eq!(args, vec!["--block-compress", "ud", "--normal-map", "ro"]);
}

#[test]
fn maybe_bc_flag_none_adds_nothing() {
    let b = TexconvBuilder::new(String::from("texconv")).maybe_bc_flag(None);
    assert_eq!(b.command_args(), Vec::<String>::new());
}

#[test]
fn recursive_mode_spells_two_arguments() {
    let mut b = TexconvBuilder::new(String::from("texconv"));
    b.recursive = Some(RecursiveMode::Keep);
    assert_eq!(b.command_args(), vec!["-r", ":keep"]);
    let mut b = TexconvBuilder::new(String::from("texconv"));
    b.recursive = Some(RecursiveMode::Flatten);
    assert_eq!(b.command_args(), vec!["-r", ":flatten"]);
}

#[test]
fn dxgi_mapping_samples() {
    assert_eq!(match_dxgi_format(DXGIFormat::BC7_UNORM), Some(TextureFormat::BC7RgbaUnorm));
    assert_eq!(match_dxgi_format(DXGIFormat::R8_UNORM), Some(TextureFormat::R8Unorm));
    assert_eq!(
        match_dxgi_format(DXGIFormat::B8G8R8A8_UNORM_SRGB),
        Some(TextureFormat::Bgra8UnormSrgb)
    );
    // Typeless and depth formats are unsupported.
    assert_eq!(match_dxgi_format(DXGIFormat::BC7_TYPELESS), None);
    assert_eq!(match_dxgi_format(DXGIFormat::D32_FLOAT), None);
    assert_eq!(match_dxgi_format(DXGIFormat::UNKNOWN), None);
}
