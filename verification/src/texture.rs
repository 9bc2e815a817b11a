//! Texture formats: the DXGI format named by the manifest, and the encoder
//! format the recompression backend understands.
//!
//! Only the mapping between the two is logic of this crate; the actual
//! resampling and block compression are the backend's work.

use vstd::prelude::*;

verus! {

/// DXGI pixel formats as the manifest spells them.
#[derive(Clone, Copy, PartialEq, Eq, Structural, Debug)]
#[allow(non_camel_case_types)]
pub enum DXGIFormat {
    UNKNOWN,
    R8_UNORM,
    R8_SNORM,
    R8G8_UNORM,
    R8G8_SNORM,
    R8G8B8A8_UNORM,
    R8G8B8A8_UNORM_SRGB,
    R8G8B8A8_SNORM,
    R16_UNORM,
    R16_SNORM,
    R16G16_UNORM,
    R16G16_SNORM,
    R16G16B16A16_UNORM,
    R16G16B16A16_SNORM,
    R16_FLOAT,
    R16G16_FLOAT,
    R32_FLOAT,
    R32G32_FLOAT,
    R32G32B32_FLOAT,
    R32G32B32A32_FLOAT,
    R16G16B16A16_FLOAT,
    B8G8R8A8_UNORM,
    B8G8R8A8_UNORM_SRGB,
    B4G4R4A4_UNORM,
    B5G5R5A1_UNORM,
    BC1_TYPELESS,
    BC1_UNORM,
    BC1_UNORM_SRGB,
    BC2_UNORM,
    BC2_UNORM_SRGB,
    BC3_UNORM,
    BC3_UNORM_SRGB,
    BC4_UNORM,
    BC4_SNORM,
    BC5_UNORM,
    BC5_SNORM,
    BC6H_UF16,
    BC6H_SF16,
    BC7_TYPELESS,
    BC7_UNORM,
    BC7_UNORM_SRGB,
    D32_FLOAT,
}

/// Encoder-side formats the recompression backend accepts.
#[derive(Clone, Copy, PartialEq, Eq, Structural, Debug)]
pub enum TextureFormat {
    R8Unorm,
    R8Snorm,
    Rg8Unorm,
    Rg8Snorm,
    Rgba8Unorm,
    Rgba8UnormSrgb,
    Rgba8Snorm,
    R16Unorm,
    R16Snorm,
    Rg16Unorm,
    Rg16Snorm,
    Rgba16Unorm,
    Rgba16Snorm,
    R16Float,
    Rg16Float,
    R32Float,
    Rg32Float,
    Rgb32Float,
    Rgba32Float,
    Rgba16Float,
    Bgra8Unorm,
    Bgra8UnormSrgb,
    Bgra4Unorm,
    Bgr5A1Unorm,
    BC1RgbaUnorm,
    BC1RgbaUnormSrgb,
    BC2RgbaUnorm,
    BC2RgbaUnormSrgb,
    BC3RgbaUnorm,
    BC3RgbaUnormSrgb,
    BC4RUnorm,
    BC4RSnorm,
    BC5RgUnorm,
    BC5RgSnorm,
    BC6hRgbUfloat,
    BC6hRgbSfloat,
    BC7RgbaUnorm,
    BC7RgbaUnormSrgb,
}

/// The encoder format for each DXGI format; `None` for typeless,
/// depth-stencil and other unsupported formats.
pub open spec fn spec_match_dxgi_format(format: DXGIFormat) -> Option<TextureFormat> {
    match format {
        DXGIFormat::R8_UNORM => Some(TextureFormat::R8Unorm),
        DXGIFormat::R8_SNORM => Some(TextureFormat::R8Snorm),
        DXGIFormat::R8G8_UNORM => Some(TextureFormat::Rg8Unorm),
        DXGIFormat::R8G8_SNORM => Some(TextureFormat::Rg8Snorm),
        DXGIFormat::R8G8B8A8_UNORM => Some(TextureFormat::Rgba8Unorm),
        DXGIFormat::R8G8B8A8_UNORM_SRGB => Some(TextureFormat::Rgba8UnormSrgb),
        DXGIFormat::R8G8B8A8_SNORM => Some(TextureFormat::Rgba8Snorm),
        DXGIFormat::R16_UNORM => Some(TextureFormat::R16Unorm),
        DXGIFormat::R16_SNORM => Some(TextureFormat::R16Snorm),
        DXGIFormat::R16G16_UNORM => Some(TextureFormat::Rg16Unorm),
        DXGIFormat::R16G16_SNORM => Some(TextureFormat::Rg16Snorm),
        DXGIFormat::R16G16B16A16_UNORM => Some(TextureFormat::Rgba16Unorm),
        DXGIFormat::R16G16B16A16_SNORM => Some(TextureFormat::Rgba16Snorm),
        DXGIFormat::R16_FLOAT => Some(TextureFormat::R16Float),
        DXGIFormat::R16G16_FLOAT => Some(TextureFormat::Rg16Float),
        DXGIFormat::R32_FLOAT => Some(TextureFormat::R32Float),
        DXGIFormat::R32G32_FLOAT => Some(TextureFormat::Rg32Float),
        DXGIFormat::R32G32B32_FLOAT => Some(TextureFormat::Rgb32Float),
        DXGIFormat::R32G32B32A32_FLOAT => Some(TextureFormat::Rgba32Float),
        DXGIFormat::R16G16B16A16_FLOAT => Some(TextureFormat::Rgba16Float),
        DXGIFormat::B8G8R8A8_UNORM => Some(TextureFormat::Bgra8Unorm),
        DXGIFormat::B8G8R8A8_UNORM_SRGB => Some(TextureFormat::Bgra8UnormSrgb),
        DXGIFormat::B4G4R4A4_UNORM => Some(TextureFormat::Bgra4Unorm),
        DXGIFormat::B5G5R5A1_UNORM => Some(TextureFormat::Bgr5A1Unorm),
        DXGIFormat::BC1_UNORM => Some(TextureFormat::BC1RgbaUnorm),
        DXGIFormat::BC1_UNORM_SRGB => Some(TextureFormat::BC1RgbaUnormSrgb),
        DXGIFormat::BC2_UNORM => Some(TextureFormat::BC2RgbaUnorm),
        DXGIFormat::BC2_UNORM_SRGB => Some(TextureFormat::BC2RgbaUnormSrgb),
        DXGIFormat::BC3_UNORM => Some(TextureFormat::BC3RgbaUnorm),
        DXGIFormat::BC3_UNORM_SRGB => Some(TextureFormat::BC3RgbaUnormSrgb),
        DXGIFormat::BC4_UNORM => Some(TextureFormat::BC4RUnorm),
        DXGIFormat::BC4_SNORM => Some(TextureFormat::BC4RSnorm),
        DXGIFormat::BC5_UNORM => Some(TextureFormat::BC5RgUnorm),
        DXGIFormat::BC5_SNORM => Some(TextureFormat::BC5RgSnorm),
        DXGIFormat::BC6H_UF16 => Some(TextureFormat::BC6hRgbUfloat),
        DXGIFormat::BC6H_SF16 => Some(TextureFormat::BC6hRgbSfloat),
        DXGIFormat::BC7_UNORM => Some(TextureFormat::BC7RgbaUnorm),
        DXGIFormat::BC7_UNORM_SRGB => Some(TextureFormat::BC7RgbaUnormSrgb),
        _ => None,
    }
}

/// Map a manifest format to the encoder format.
pub fn match_dxgi_format(format: DXGIFormat) -> (r: Option<TextureFormat>)
    ensures
        r == spec_match_dxgi_format(format),
{
    match format {
        DXGIFormat::R8_UNORM => Some(TextureFormat::R8Unorm),
        DXGIFormat::R8_SNORM => Some(TextureFormat::R8Snorm),
        DXGIFormat::R8G8_UNORM => Some(TextureFormat::Rg8Unorm),
        DXGIFormat::R8G8_SNORM => Some(TextureFormat::Rg8Snorm),
        DXGIFormat::R8G8B8A8_UNORM => Some(TextureFormat::Rgba8Unorm),
        DXGIFormat::R8G8B8A8_UNORM_SRGB => Some(TextureFormat::Rgba8UnormSrgb),
        DXGIFormat::R8G8B8A8_SNORM => Some(TextureFormat::Rgba8Snorm),
        DXGIFormat::R16_UNORM => Some(TextureFormat::R16Unorm),
        DXGIFormat::R16_SNORM => Some(TextureFormat::R16Snorm),
        DXGIFormat::R16G16_UNORM => Some(TextureFormat::Rg16Unorm),
        DXGIFormat::R16G16_SNORM => Some(TextureFormat::Rg16Snorm),
        DXGIFormat::R16G16B16A16_UNORM => Some(TextureFormat::Rgba16Unorm),
        DXGIFormat::R16G16B16A16_SNORM => Some(TextureFormat::Rgba16Snorm),
        DXGIFormat::R16_FLOAT => Some(TextureFormat::R16Float),
        DXGIFormat::R16G16_FLOAT => Some(TextureFormat::Rg16Float),
        DXGIFormat::R32_FLOAT => Some(TextureFormat::R32Float),
        DXGIFormat::R32G32_FLOAT => Some(TextureFormat::Rg32Float),
        DXGIFormat::R32G32B32_FLOAT => Some(TextureFormat::Rgb32Float),
        DXGIFormat::R32G32B32A32_FLOAT => Some(TextureFormat::Rgba32Float),
        DXGIFormat::R16G16B16A16_FLOAT => Some(TextureFormat::Rgba16Float),
        DXGIFormat::B8G8R8A8_UNORM => Some(TextureFormat::Bgra8Unorm),
        DXGIFormat::B8G8R8A8_UNORM_SRGB => Some(TextureFormat::Bgra8UnormSrgb),
        DXGIFormat::B4G4R4A4_UNORM => Some(TextureFormat::Bgra4Unorm),
        DXGIFormat::B5G5R5A1_UNORM => Some(TextureFormat::Bgr5A1Unorm),
        DXGIFormat::BC1_UNORM => Some(TextureFormat::BC1RgbaUnorm),
        DXGIFormat::BC1_UNORM_SRGB => Some(TextureFormat::BC1RgbaUnormSrgb),
        DXGIFormat::BC2_UNORM => Some(TextureFormat::BC2RgbaUnorm),
        DXGIFormat::BC2_UNORM_SRGB => Some(TextureFormat::BC2RgbaUnormSrgb),
        DXGIFormat::BC3_UNORM => Some(TextureFormat::BC3RgbaUnorm),
        DXGIFormat::BC3_UNORM_SRGB => Some(TextureFormat::BC3RgbaUnormSrgb),
        DXGIFormat::BC4_UNORM => Some(TextureFormat::BC4RUnorm),
        DXGIFormat::BC4_SNORM => Some(TextureFormat::BC4RSnorm),
        DXGIFormat::BC5_UNORM => Some(TextureFormat::BC5RgUnorm),
        DXGIFormat::BC5_SNORM => Some(TextureFormat::BC5RgSnorm),
        DXGIFormat::BC6H_UF16 => Some(TextureFormat::BC6hRgbUfloat),
        DXGIFormat::BC6H_SF16 => Some(TextureFormat::BC6hRgbSfloat),
        DXGIFormat::BC7_UNORM => Some(TextureFormat::BC7RgbaUnorm),
        DXGIFormat::BC7_UNORM_SRGB => Some(TextureFormat::BC7RgbaUnormSrgb),
        _ => None,
    }
}

} // verus!
