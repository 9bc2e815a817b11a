//! Building the texture converter's command line.
//!
//! The recompression backend is an external tool; what belongs to this
//! crate is the exact argument list for a conversion: which flags appear,
//! in which order, with which values. The builder collects the options a
//! conversion needs and spells them out; spawning the tool is the caller's
//! business.

use vstd::prelude::*;
use crate::text::{decimal_of, u64_to_decimal};
use crate::hash_path::{views_of, lemma_views_push};

verus! {

/// Output file types the converter accepts.
#[derive(Clone, Copy, PartialEq, Eq, Structural, Debug)]
pub enum FileType {
    Bmp,
    Jpg,
    Jpeg,
    Png,
    Dds,
    Ddx,
    Tga,
    Hdr,
    Tif,
    Tiff,
    Wdp,
    Hdp,
    Jxr,
    Ppm,
    Pfm,
}

/// The spelling of each file type on the command line.
pub open spec fn spec_file_type_str(t: FileType) -> Seq<char> {
    match t {
        FileType::Bmp => "bmp"@,
        FileType::Jpg => "jpg"@,
        FileType::Jpeg => "jpeg"@,
        FileType::Png => "png"@,
        FileType::Dds => "dds"@,
        FileType::Ddx => "ddx"@,
        FileType::Tga => "tga"@,
        FileType::Hdr => "hdr"@,
        FileType::Tif => "tif"@,
        FileType::Tiff => "tiff"@,
        FileType::Wdp => "wdp"@,
        FileType::Hdp => "hdp"@,
        FileType::Jxr => "jxr"@,
        FileType::Ppm => "ppm"@,
        FileType::Pfm => "pfm"@,
    }
}

impl FileType {
    pub fn as_str(&self) -> (r: &'static str)
        ensures
            r@ == spec_file_type_str(*self),
    {
        match self {
            FileType::Bmp => "bmp",
            FileType::Jpg => "jpg",
            FileType::Jpeg => "jpeg",
            FileType::Png => "png",
            FileType::Dds => "dds",
            FileType::Ddx => "ddx",
            FileType::Tga => "tga",
            FileType::Hdr => "hdr",
            FileType::Tif => "tif",
            FileType::Tiff => "tiff",
            FileType::Wdp => "wdp",
            FileType::Hdp => "hdp",
            FileType::Jxr => "jxr",
            FileType::Ppm => "ppm",
            FileType::Pfm => "pfm",
        }
    }
}

/// Resampling filters.
#[derive(Clone, Copy, PartialEq, Eq, Structural, Debug)]
pub enum ImageFilter {
    Point,
    Linear,
    Cubic,
    Fant,
    Box,
    Triangle,
    PointDither,
    LinearDither,
    CubicDither,
    FantDither,
    BoxDither,
    TriangleDither,
    PointDitherDiffusion,
    LinearDitherDiffusion,
    CubicDitherDiffusion,
    FantDitherDiffusion,
    BoxDitherDiffusion,
    TriangleDitherDiffusion,
}

pub open spec fn spec_image_filter_str(t: ImageFilter) -> Seq<char> {
    match t {
        ImageFilter::Point => "POINT"@,
        ImageFilter::Linear => "LINEAR"@,
        ImageFilter::Cubic => "CUBIC"@,
        ImageFilter::Fant => "FANT"@,
        ImageFilter::Box => "BOX"@,
        ImageFilter::Triangle => "TRIANGLE"@,
        ImageFilter::PointDither => "POINT_DITHER"@,
        ImageFilter::LinearDither => "LINEAR_DITHER"@,
        ImageFilter::CubicDither => "CUBIC_DITHER"@,
        ImageFilter::FantDither => "FANT_DITHER"@,
        ImageFilter::BoxDither => "BOX_DITHER"@,
        ImageFilter::TriangleDither => "TRIANGLE_DITHER"@,
        ImageFilter::PointDitherDiffusion => "POINT_DITHER_DIFFUSION"@,
        ImageFilter::LinearDitherDiffusion => "LINEAR_DITHER_DIFFUSION"@,
        ImageFilter::CubicDitherDiffusion => "CUBIC_DITHER_DIFFUSION"@,
        ImageFilter::FantDitherDiffusion => "FANT_DITHER_DIFFUSION"@,
        ImageFilter::BoxDitherDiffusion => "BOX_DITHER_DIFFUSION"@,
        ImageFilter::TriangleDitherDiffusion => "TRIANGLE_DITHER_DIFFUSION"@,
    }
}

impl ImageFilter {
    pub fn as_str(&self) -> (r: &'static str)
        ensures
            r@ == spec_image_filter_str(*self),
    {
        match self {
            ImageFilter::Point => "POINT",
            ImageFilter::Linear => "LINEAR",
            ImageFilter::Cubic => "CUBIC",
            ImageFilter::Fant => "FANT",
            ImageFilter::Box => "BOX",
            ImageFilter::Triangle => "TRIANGLE",
            ImageFilter::PointDither => "POINT_DITHER",
            ImageFilter::LinearDither => "LINEAR_DITHER",
            ImageFilter::CubicDither => "CUBIC_DITHER",
            ImageFilter::FantDither => "FANT_DITHER",
            ImageFilter::BoxDither => "BOX_DITHER",
            ImageFilter::TriangleDither => "TRIANGLE_DITHER",
            ImageFilter::PointDitherDiffusion => "POINT_DITHER_DIFFUSION",
            ImageFilter::LinearDitherDiffusion => "LINEAR_DITHER_DIFFUSION",
            ImageFilter::CubicDitherDiffusion => "CUBIC_DITHER_DIFFUSION",
            ImageFilter::FantDitherDiffusion => "FANT_DITHER_DIFFUSION",
            ImageFilter::BoxDitherDiffusion => "BOX_DITHER_DIFFUSION",
            ImageFilter::TriangleDitherDiffusion => "TRIANGLE_DITHER_DIFFUSION",
        }
    }
}

/// Colorspace rotations.
#[derive(Clone, Copy, PartialEq, Eq, Structural, Debug)]
pub enum RotateColor {
    Rec709To2020,
    Rec2020To709,
    Rec709ToHdr10,
    Hdr10ToRec709,
    P3To2020,
    P3ToHdr10,
    Rec709ToDisplayP3,
    DisplayP3ToRec709,
}

pub open spec fn spec_rotate_color_str(t: RotateColor) -> Seq<char> {
    match t {
        RotateColor::Rec709To2020 => "709to2020"@,
        RotateColor::Rec2020To709 => "2020to709"@,
        RotateColor::Rec709ToHdr10 => "709toHDR10"@,
        RotateColor::Hdr10ToRec709 => "HDR10to709"@,
        RotateColor::P3To2020 => "P3to2020"@,
        RotateColor::P3ToHdr10 => "P3toHDR10"@,
        RotateColor::Rec709ToDisplayP3 => "709toDisplayP3"@,
        RotateColor::DisplayP3ToRec709 => "DisplayP3to709"@,
    }
}

impl RotateColor {
    pub fn as_str(&self) -> (r: &'static str)
        ensures
            r@ == spec_rotate_color_str(*self),
    {
        match self {
            RotateColor::Rec709To2020 => "709to2020",
            RotateColor::Rec2020To709 => "2020to709",
            RotateColor::Rec709ToHdr10 => "709toHDR10",
            RotateColor::Hdr10ToRec709 => "HDR10to709",
            RotateColor::P3To2020 => "P3to2020",
            RotateColor::P3ToHdr10 => "P3toHDR10",
            RotateColor::Rec709ToDisplayP3 => "709toDisplayP3",
            RotateColor::DisplayP3ToRec709 => "DisplayP3to709",
        }
    }
}

/// Block-compression tuning flags.
#[derive(Clone, Copy, PartialEq, Eq, Structural, Debug)]
pub enum BcFlag {
    Uniform,
    Dither,
    Quick,
    Exhaustive,
}

pub open spec fn spec_bc_flag_str(t: BcFlag) -> Seq<char> {
    match t {
        BcFlag::Uniform => "u"@,
        BcFlag::Dither => "d"@,
        BcFlag::Quick => "q"@,
        BcFlag::Exhaustive => "x"@,
    }
}

impl BcFlag {
    pub fn as_str(&self) -> (r: &'static str)
        ensures
            r@ == spec_bc_flag_str(*self),
    {
        match self {
            BcFlag::Uniform => "u",
            BcFlag::Dither => "d",
            BcFlag::Quick => "q",
            BcFlag::Exhaustive => "x",
        }
    }
}

/// Normal-map generation flags.
#[derive(Clone, Copy, PartialEq, Eq, Structural, Debug)]
pub enum NmapFlag {
    Red,
    Green,
    Blue,
    Alpha,
    Luminance,
    MirrorUv,
    MirrorU,
    MirrorV,
    InvertSign,
    Occlusion,
}

pub open spec fn spec_nmap_flag_str(t: NmapFlag) -> Seq<char> {
    match t {
        NmapFlag::Red => "r"@,
        NmapFlag::Green => "g"@,
        NmapFlag::Blue => "b"@,
        NmapFlag::Alpha => "a"@,
        NmapFlag::Luminance => "l"@,
        NmapFlag::MirrorUv => "m"@,
        NmapFlag::MirrorU => "u"@,
        NmapFlag::MirrorV => "v"@,
        NmapFlag::InvertSign => "i"@,
        NmapFlag::Occlusion => "o"@,
    }
}

impl NmapFlag {
    pub fn as_str(&self) -> (r: &'static str)
        ensures
            r@ == spec_nmap_flag_str(*self),
    {
        match self {
            NmapFlag::Red => "r",
            NmapFlag::Green => "g",
            NmapFlag::Blue => "b",
            NmapFlag::Alpha => "a",
            NmapFlag::Luminance => "l",
            NmapFlag::MirrorUv => "m",
            NmapFlag::MirrorU => "u",
            NmapFlag::MirrorV => "v",
            NmapFlag::InvertSign => "i",
            NmapFlag::Occlusion => "o",
        }
    }
}

/// Direct3D feature levels, fixing the largest texture size.
#[derive(Clone, Copy, PartialEq, Eq, Structural, Debug)]
pub enum FeatureLevel {
    Fl9_1,
    Fl9_2,
    Fl9_3,
    Fl10_0,
    Fl10_1,
    Fl11_0,
    Fl11_1,
    Fl12_0,
    Fl12_1,
    Fl12_2,
}

pub open spec fn spec_feature_level_str(t: FeatureLevel) -> Seq<char> {
    match t {
        FeatureLevel::Fl9_1 => "9.1"@,
        FeatureLevel::Fl9_2 => "9.2"@,
        FeatureLevel::Fl9_3 => "9.3"@,
        FeatureLevel::Fl10_0 => "10.0"@,
        FeatureLevel::Fl10_1 => "10.1"@,
        FeatureLevel::Fl11_0 => "11.0"@,
        FeatureLevel::Fl11_1 => "11.1"@,
        FeatureLevel::Fl12_0 => "12.0"@,
        FeatureLevel::Fl12_1 => "12.1"@,
        FeatureLevel::Fl12_2 => "12.2"@,
    }
}

impl FeatureLevel {
    pub fn as_str(&self) -> (r: &'static str)
        ensures
            r@ == spec_feature_level_str(*self),
    {
        match self {
            FeatureLevel::Fl9_1 => "9.1",
            FeatureLevel::Fl9_2 => "9.2",
            FeatureLevel::Fl9_3 => "9.3",
            FeatureLevel::Fl10_0 => "10.0",
            FeatureLevel::Fl10_1 => "10.1",
            FeatureLevel::Fl11_0 => "11.0",
            FeatureLevel::Fl11_1 => "11.1",
            FeatureLevel::Fl12_0 => "12.0",
            FeatureLevel::Fl12_1 => "12.1",
            FeatureLevel::Fl12_2 => "12.2",
        }
    }
}

/// How subdirectories of recursive inputs map to the output directory.
#[derive(Clone, Copy, PartialEq, Eq, Structural, Debug)]
pub enum RecursiveMode {
    Flatten,
    Keep,
}

/// Configuration of the external texture-conversion extension: where the
/// runtime and the converter live.
pub struct ExtensionConfig {
    pub proton_path: String,
    pub prefix_dir: String,
    pub steam_path: String,
    pub texconv_path: String,
}

/// The options of one conversion, gathered before the argument list is
/// spelled out.
pub struct TexconvBuilder {
    pub texconv_path: String,
    pub input_files: Vec<String>,
    pub bc_flags: Vec<BcFlag>,
    pub nmap_flags: Vec<NmapFlag>,
    pub recursive: Option<RecursiveMode>,
    pub output_dir: Option<String>,
    pub to_lowercase: bool,
    pub overwrite: bool,
    pub file_type: Option<FileType>,
    pub format: Option<String>,
    pub width: Option<u32>,
    pub height: Option<u32>,
    pub mip_levels: Option<u32>,
    pub image_filter: Option<ImageFilter>,
    pub rotate_color: Option<RotateColor>,
    pub feature_level: Option<FeatureLevel>,
    pub permissive: bool,
    pub single_proc: bool,
    pub no_logo: bool,
    pub timing: bool,
}

/// Every option of a builder except the three growing lists.
pub open spec fn spec_options(b: TexconvBuilder) -> (
    Seq<char>,
    Option<RecursiveMode>,
    Option<Seq<char>>,
    bool,
    bool,
    Option<FileType>,
    Option<Seq<char>>,
    Option<u32>,
    Option<u32>,
    Option<u32>,
    Option<ImageFilter>,
    Option<RotateColor>,
    Option<FeatureLevel>,
    bool,
    bool,
    bool,
    bool,
) {
    (
        b.texconv_path@,
        b.recursive,
        match b.output_dir {
            Some(d) => Some(d@),
            None => None,
        },
        b.to_lowercase,
        b.overwrite,
        b.file_type,
        match b.format {
            Some(f) => Some(f@),
            None => None,
        },
        b.width,
        b.height,
        b.mip_levels,
        b.image_filter,
        b.rotate_color,
        b.feature_level,
        b.permissive,
        b.single_proc,
        b.no_logo,
        b.timing,
    )
}

impl TexconvBuilder {
    /// A builder with no options set, for the tool at the given path.
    pub fn new(texconv_path: String) -> (s: Self)
        ensures
            s.texconv_path == texconv_path,
            s.input_files@.len() == 0,
            s.bc_flags@.len() == 0,
            s.nmap_flags@.len() == 0,
            s.recursive is None && s.output_dir is None && s.file_type is None && s.format
                is None && s.width is None && s.height is None && s.mip_levels is None
                && s.image_filter is None && s.rotate_color is None && s.feature_level is None,
            !s.to_lowercase && !s.overwrite && !s.permissive && !s.single_proc && !s.no_logo
                && !s.timing,
    {
        TexconvBuilder {
            texconv_path,
            input_files: Vec::new(),
            bc_flags: Vec::new(),
            nmap_flags: Vec::new(),
            recursive: None,
            output_dir: None,
            to_lowercase: false,
            overwrite: false,
            file_type: None,
            format: None,
            width: None,
            height: None,
            mip_levels: None,
            image_filter: None,
            rotate_color: None,
            feature_level: None,
            permissive: false,
            single_proc: false,
            no_logo: false,
            timing: false,
        }
    }

    /// Add an input file to process.
    pub fn input_file(self, input_file: String) -> (s: Self)
        ensures
            s.input_files@ == self.input_files@.push(input_file),
            s.bc_flags@ == self.bc_flags@,
            s.nmap_flags@ == self.nmap_flags@,
            spec_options(s) == spec_options(self),
    {
        let mut s = self;
        s.input_files.push(input_file);
        s
    }

    /// Add a block-compression flag.
    pub fn bc_flag(self, bc_flag: BcFlag) -> (s: Self)
        ensures
            s.bc_flags@ == self.bc_flags@.push(bc_flag),
            s.input_files@ == self.input_files@,
            s.nmap_flags@ == self.nmap_flags@,
            spec_options(s) == spec_options(self),
    {
        let mut s = self;
        s.bc_flags.push(bc_flag);
        s
    }

    /// Add a block-compression flag, if one is given.
    pub fn maybe_bc_flag(self, bc_flag: Option<BcFlag>) -> (s: Self)
        ensures
            bc_flag matches Some(f) ==> s.bc_flags@ == self.bc_flags@.push(f),
            bc_flag is None ==> s.bc_flags@ == self.bc_flags@,
            s.input_files@ == self.input_files@,
            s.nmap_flags@ == self.nmap_flags@,
            spec_options(s) == spec_options(self),
    {
        match bc_flag {
            Some(f) => self.bc_flag(f),
            None => self,
        }
    }

    /// Add a normal-map generation flag.
    pub fn nmap_flag(self, nmap_flag: NmapFlag) -> (s: Self)
        ensures
            s.nmap_flags@ == self.nmap_flags@.push(nmap_flag),
            s.input_files@ == self.input_files@,
            s.bc_flags@ == self.bc_flags@,
            spec_options(s) == spec_options(self),
    {
        let mut s = self;
        s.nmap_flags.push(nmap_flag);
        s
    }
}

/// The one-string spelling of the block-compression flags, in order.
pub open spec fn spec_join_bc(flags: Seq<BcFlag>) -> Seq<char>
    decreases flags.len(),
{
    if flags.len() == 0 {
        Seq::empty()
    } else {
        spec_join_bc(flags.drop_last()) + spec_bc_flag_str(flags.last())
    }
}

/// The one-string spelling of the normal-map flags, in order.
pub open spec fn spec_join_nmap(flags: Seq<NmapFlag>) -> Seq<char>
    decreases flags.len(),
{
    if flags.len() == 0 {
        Seq::empty()
    } else {
        spec_join_nmap(flags.drop_last()) + spec_nmap_flag_str(flags.last())
    }
}

/// The leading options: recursion mode, output directory, case folding,
/// overwrite, file type.
pub open spec fn spec_args_a(b: TexconvBuilder) -> Seq<Seq<char>> {
    (match b.recursive {
        None => Seq::empty(),
        Some(RecursiveMode::Keep) => seq!["-r"@, ":keep"@],
        Some(RecursiveMode::Flatten) => seq!["-r"@, ":flatten"@],
    }) + (match b.output_dir {
        None => Seq::empty(),
        Some(d) => seq!["-o"@, d@],
    }) + (if b.to_lowercase {
        seq!["-l"@]
    } else {
        Seq::empty()
    }) + (if b.overwrite {
        seq!["-y"@]
    } else {
        Seq::empty()
    }) + (match b.file_type {
        None => Seq::empty(),
        Some(t) => seq!["--file-type"@, spec_file_type_str(t)],
    })
}

/// The geometry options: format, width, height, mip levels, filter.
pub open spec fn spec_args_b(b: TexconvBuilder) -> Seq<Seq<char>> {
    (match b.format {
        None => Seq::empty(),
        Some(f) => seq!["--format"@, f@],
    }) + (match b.width {
        None => Seq::empty(),
        Some(w) => seq!["--width"@, decimal_of(w as nat)],
    }) + (match b.height {
        None => Seq::empty(),
        Some(h) => seq!["--height"@, decimal_of(h as nat)],
    }) + (match b.mip_levels {
        None => Seq::empty(),
        Some(m) => seq!["--mip-levels"@, decimal_of(m as nat)],
    }) + (match b.image_filter {
        None => Seq::empty(),
        Some(f) => seq!["--image-filter"@, spec_image_filter_str(f)],
    })
}

/// The encoder options: color rotation, process count, compression flags.
pub open spec fn spec_args_c(b: TexconvBuilder) -> Seq<Seq<char>> {
    (match b.rotate_color {
        None => Seq::empty(),
        Some(c) => seq!["--rotate-color"@, spec_rotate_color_str(c)],
    }) + (if b.single_proc {
        seq!["--single-proc"@]
    } else {
        Seq::empty()
    }) + (if b.bc_flags@.len() > 0 {
        seq!["--block-compress"@, spec_join_bc(b.bc_flags@)]
    } else {
        Seq::empty()
    }) + (if b.nmap_flags@.len() > 0 {
        seq!["--normal-map"@, spec_join_nmap(b.nmap_flags@)]
    } else {
        Seq::empty()
    })
}

/// The trailing options: permissive reading, feature level, banner, timing.
pub open spec fn spec_args_d(b: TexconvBuilder) -> Seq<Seq<char>> {
    (if b.permissive {
        seq!["--permissive"@]
    } else {
        Seq::empty()
    }) + (match b.feature_level {
        None => Seq::empty(),
        Some(l) => seq!["--feature-level"@, spec_feature_level_str(l)],
    }) + (if b.no_logo {
        seq!["-nologo"@]
    } else {
        Seq::empty()
    }) + (if b.timing {
        seq!["--timing"@]
    } else {
        Seq::empty()
    })
}

/// The full argument list a builder spells: each option that is set, in the
/// converter's fixed order, then every input file.
pub open spec fn spec_args(b: TexconvBuilder) -> Seq<Seq<char>> {
    spec_args_a(b) + spec_args_b(b) + spec_args_c(b) + spec_args_d(b) + views_of(b.input_files@)
}

fn push_str(args: &mut Vec<String>, s: &str)
    ensures
        views_of(final(args)@) == views_of(old(args)@).push(s@),
{
    let ghost before = args@;
    let owned = s.to_owned();
    proof {
        lemma_views_push(before, owned);
    }
    args.push(owned);
}

fn push_string(args: &mut Vec<String>, s: String)
    ensures
        views_of(final(args)@) == views_of(old(args)@).push(s@),
{
    let ghost before = args@;
    proof {
        lemma_views_push(before, s);
    }
    args.push(s);
}

fn append_one(args: &mut Vec<String>, a: &str)
    ensures
        views_of(final(args)@) == views_of(old(args)@) + seq![a@],
{
    let ghost before = views_of(args@);
    push_str(args, a);
    proof {
        assert(before.push(a@) =~= before + seq![a@]);
    }
}

fn append_pair_str(args: &mut Vec<String>, k: &str, v: &str)
    ensures
        views_of(final(args)@) == views_of(old(args)@) + seq![k@, v@],
{
    let ghost before = views_of(args@);
    push_str(args, k);
    push_str(args, v);
    proof {
        assert(before.push(k@).push(v@) =~= before + seq![k@, v@]);
    }
}

fn append_pair_string(args: &mut Vec<String>, k: &str, v: String)
    ensures
        views_of(final(args)@) == views_of(old(args)@) + seq![k@, v@],
{
    let ghost before = views_of(args@);
    let ghost vv = v@;
    push_str(args, k);
    push_string(args, v);
    proof {
        assert(before.push(k@).push(vv) =~= before + seq![k@, vv]);
    }
}

fn join_bc_flags(flags: &Vec<BcFlag>) -> (r: String)
    ensures
        r@ == spec_join_bc(flags@),
{
    let mut out: Vec<char> = Vec::new();
    let mut i: usize = 0;
    while i < flags.len()
        invariant
            i <= flags@.len(),
            out@ == spec_join_bc(flags@.take(i as int)),
        decreases flags@.len() - i,
    {
        let s = flags[i].as_str();
        let chars = crate::text::str_to_chars(s);
        let ghost out0 = out@;
        let mut j: usize = 0;
        while j < chars.len()
            invariant
                j <= chars@.len(),
                out@ == out0 + chars@.take(j as int),
                chars@ == spec_bc_flag_str(flags@[i as int]),
            decreases chars@.len() - j,
        {
            out.push(chars[j]);
            proof {
                assert(out0 + chars@.take(j + 1) =~= (out0 + chars@.take(j as int)).push(
                    chars@[j as int],
                ));
            }
            j = j + 1;
        }
        proof {
            assert(chars@.take(chars@.len() as int) =~= chars@);
            assert(flags@.take(i + 1).drop_last() =~= flags@.take(i as int));
            assert(flags@.take(i + 1).last() == flags@[i as int]);
        }
        i = i + 1;
    }
    proof {
        assert(flags@.take(flags@.len() as int) =~= flags@);
    }
    crate::text::chars_to_string(out.as_slice())
}

fn join_nmap_flags(flags: &Vec<NmapFlag>) -> (r: String)
    ensures
        r@ == spec_join_nmap(flags@),
{
    let mut out: Vec<char> = Vec::new();
    let mut i: usize = 0;
    while i < flags.len()
        invariant
            i <= flags@.len(),
            out@ == spec_join_nmap(flags@.take(i as int)),
        decreases flags@.len() - i,
    {
        let s = flags[i].as_str();
        let chars = crate::text::str_to_chars(s);
        let ghost out0 = out@;
        let mut j: usize = 0;
        while j < chars.len()
            invariant
                j <= chars@.len(),
                out@ == out0 + chars@.take(j as int),
                chars@ == spec_nmap_flag_str(flags@[i as int]),
            decreases chars@.len() - j,
        {
            out.push(chars[j]);
            proof {
                assert(out0 + chars@.take(j + 1) =~= (out0 + chars@.take(j as int)).push(
                    chars@[j as int],
                ));
            }
            j = j + 1;
        }
        proof {
            assert(chars@.take(chars@.len() as int) =~= chars@);
            assert(flags@.take(i + 1).drop_last() =~= flags@.take(i as int));
            assert(flags@.take(i + 1).last() == flags@[i as int]);
        }
        i = i + 1;
    }
    proof {
        assert(flags@.take(flags@.len() as int) =~= flags@);
    }
    crate::text::chars_to_string(out.as_slice())
}

impl TexconvBuilder {
    fn append_args_a(&self, args: &mut Vec<String>)
        ensures
            views_of(final(args)@) == views_of(old(args)@) + spec_args_a(*self),
    {
        let ghost a0 = views_of(args@);
        match &self.recursive {
            None => {},
            Some(RecursiveMode::Keep) => append_pair_str(args, "-r", ":keep"),
            Some(RecursiveMode::Flatten) => append_pair_str(args, "-r", ":flatten"),
        }
        let ghost a1 = views_of(args@);
        proof {
            assert(a0 + Seq::<Seq<char>>::empty() =~= a0);
        }
        match &self.output_dir {
            None => {},
            Some(d) => append_pair_string(args, "-o", d.clone()),
        }
        let ghost a2 = views_of(args@);
        proof {
            assert(a1 + Seq::<Seq<char>>::empty() =~= a1);
        }
        if self.to_lowercase {
            append_one(args, "-l");
        }
        let ghost a3 = views_of(args@);
        proof {
            assert(a2 + Seq::<Seq<char>>::empty() =~= a2);
        }
        if self.overwrite {
            append_one(args, "-y");
        }
        let ghost a4 = views_of(args@);
        proof {
            assert(a3 + Seq::<Seq<char>>::empty() =~= a3);
        }
        match &self.file_type {
            None => {},
            Some(t) => append_pair_str(args, "--file-type", t.as_str()),
        }
        proof {
            assert(a4 + Seq::<Seq<char>>::empty() =~= a4);
            assert(views_of(args@) == a0 + spec_args_a(*self));
        }
    }

    fn append_args_b(&self, args: &mut Vec<String>)
        ensures
            views_of(final(args)@) == views_of(old(args)@) + spec_args_b(*self),
    {
        let ghost a0 = views_of(args@);
        match &self.format {
            None => {},
            Some(f) => append_pair_string(args, "--format", f.clone()),
        }
        let ghost a1 = views_of(args@);
        proof {
            assert(a0 + Seq::<Seq<char>>::empty() =~= a0);
        }
        match self.width {
            None => {},
            Some(w) => append_pair_string(args, "--width", u64_to_decimal(w as u64)),
        }
        let ghost a2 = views_of(args@);
        proof {
            assert(a1 + Seq::<Seq<char>>::empty() =~= a1);
        }
        match self.height {
            None => {},
            Some(h) => append_pair_string(args, "--height", u64_to_decimal(h as u64)),
        }
        let ghost a3 = views_of(args@);
        proof {
            assert(a2 + Seq::<Seq<char>>::empty() =~= a2);
        }
        match self.mip_levels {
            None => {},
            Some(m) => append_pair_string(args, "--mip-levels", u64_to_decimal(m as u64)),
        }
        let ghost a4 = views_of(args@);
        proof {
            assert(a3 + Seq::<Seq<char>>::empty() =~= a3);
        }
        match &self.image_filter {
            None => {},
            Some(f) => append_pair_str(args, "--image-filter", f.as_str()),
        }
        proof {
            assert(a4 + Seq::<Seq<char>>::empty() =~= a4);
            assert(views_of(args@) == a0 + spec_args_b(*self));
        }
    }

    fn append_args_c(&self, args: &mut Vec<String>)
        ensures
            views_of(final(args)@) == views_of(old(args)@) + spec_args_c(*self),
    {
        let ghost a0 = views_of(args@);
        match &self.rotate_color {
            None => {},
            Some(c) => append_pair_str(args, "--rotate-color", c.as_str()),
        }
        let ghost a1 = views_of(args@);
        proof {
            assert(a0 + Seq::<Seq<char>>::empty() =~= a0);
        }
        if self.single_proc {
            append_one(args, "--single-proc");
        }
        let ghost a2 = views_of(args@);
        proof {
            assert(a1 + Seq::<Seq<char>>::empty() =~= a1);
        }
        if self.bc_flags.len() > 0 {
            append_pair_string(args, "--block-compress", join_bc_flags(&self.bc_flags));
        }
        let ghost a3 = views_of(args@);
        proof {
            assert(a2 + Seq::<Seq<char>>::empty() =~= a2);
        }
        if self.nmap_flags.len() > 0 {
            append_pair_string(args, "--normal-map", join_nmap_flags(&self.nmap_flags));
        }
        proof {
            assert(a3 + Seq::<Seq<char>>::empty() =~= a3);
            assert(views_of(args@) == a0 + spec_args_c(*self));
        }
    }

    fn append_args_d(&self, args: &mut Vec<String>)
        ensures
            views_of(final(args)@) == views_of(old(args)@) + spec_args_d(*self),
    {
        let ghost a0 = views_of(args@);
        if self.permissive {
            append_one(args, "--permissive");
        }
        let ghost a1 = views_of(args@);
        proof {
            assert(a0 + Seq::<Seq<char>>::empty() =~= a0);
        }
        match &self.feature_level {
            None => {},
            Some(l) => append_pair_str(args, "--feature-level", l.as_str()),
        }
        let ghost a2 = views_of(args@);
        proof {
            assert(a1 + Seq::<Seq<char>>::empty() =~= a1);
        }
        if self.no_logo {
            append_one(args, "-nologo");
        }
        let ghost a3 = views_of(args@);
        proof {
            assert(a2 + Seq::<Seq<char>>::empty() =~= a2);
        }
        if self.timing {
            append_one(args, "--timing");
        }
        proof {
            assert(a3 + Seq::<Seq<char>>::empty() =~= a3);
            assert(views_of(args@) == a0 + spec_args_d(*self));
        }
    }

    /// Spell the whole argument list for this conversion.
    pub fn command_args(&self) -> (r: Vec<String>)
        ensures
            views_of(r@) == spec_args(*self),
    {
        let mut args: Vec<String> = Vec::new();
        let ghost a0 = views_of(args@);
        self.append_args_a(&mut args);
        self.append_args_b(&mut args);
        self.append_args_c(&mut args);
        self.append_args_d(&mut args);
        let ghost base = views_of(args@);
        let mut i: usize = 0;
        while i < self.input_files.len()
            invariant
                i <= self.input_files@.len(),
                views_of(args@) == base + views_of(self.input_files@.take(i as int)),
            decreases self.input_files@.len() - i,
        {
            push_string(&mut args, self.input_files[i].clone());
            proof {
                assert(views_of(args@) =~= base + views_of(self.input_files@.take(i + 1)));
            }
            i = i + 1;
        }
        proof {
            assert(self.input_files@.take(self.input_files@.len() as int)
                =~= self.input_files@);
            assert(a0 + spec_args_a(*self) =~= spec_args_a(*self));
            assert(views_of(args@) == spec_args(*self));
        }
        args
    }
}

} // verus!
