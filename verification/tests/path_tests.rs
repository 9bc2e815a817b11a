use hoolamike::paths::{host_to_pfx_path, is_whitelisted_by_path, MaybeWindowsPath};
use hoolamike::preheat::{chunk_by_size, chunk_while};
use hoolamike::text::{obfuscate_value, u64_to_decimal};
use std::iter::repeat_n;

#[test]
fn into_path_normalizes_backslashes() {
    assert_eq!(MaybeWindowsPath(String::from("a\\b\\c")).into_path(), "a/b/c");
    assert_eq!(MaybeWindowsPath(String::from("a\\\\b")).into_path(), "a/b");
    assert_eq!(MaybeWindowsPath(String::from("plain/unix/path")).into_path(), "plain/unix/path");
    assert_eq!(MaybeWindowsPath(String::from("")).into_path(), "");
    assert_eq!(MaybeWindowsPath(String::from("mixed\\\\dir\\file.txt")).into_path(), "mixed/dir/file.txt");
}

#[test]
fn whitelist_is_case_insensitive_on_extension() {
    assert!(is_whitelisted_by_path("textures/Foo.dds"));
    assert!(is_whitelisted_by_path("textures/Foo.DDS"));
    assert!(is_whitelisted_by_path("textures/Foo.DdS"));
    assert!(!is_whitelisted_by_path("textures/Foo.png"));
    assert!(!is_whitelisted_by_path("textures/Foo"));
    assert!(!is_whitelisted_by_path("textures/dds"));
}

#[test]
fn whitelist_wants_a_real_extension() {
    // A file name that is nothing but an extension has no extension.
    assert!(!is_whitelisted_by_path(".dds"));
    assert!(!is_whitelisted_by_path("dir/.dds"));
}

#[test]
fn test_chunk_while() {
    assert_eq!(
        chunk_while(repeat_n(1u8, 6).collect(), |chunk: &[u8]| chunk.len() == 2),
        vec![vec![1u8, 1], vec![1u8, 1], vec![1u8, 1]]
    );
}

#[test]
fn chunk_while_keeps_everything() {
    let chunks = chunk_while(vec![1u32, 2, 3, 4, 5], |chunk: &[u32]| chunk.len() == 3);
    let flat: Vec<u32> = chunks.clone().into_iter().flatten().collect();
    assert_eq!(flat, vec![1, 2, 3, 4, 5]);
    // The trailing run stays, shorter than the boundary asks.
    assert_eq!(chunks, vec![vec![1u32, 2, 3], vec![4u32, 5]]);
}

#[test]
fn chunk_while_of_nothing_is_one_empty_run() {
    let chunks = chunk_while(Vec::<u8>::new(), |chunk: &[u8]| chunk.len() == 2);
    assert_eq!(chunks, vec![Vec::<u8>::new()]);
}

#[test]
fn chunk_by_size_bounds_each_chunk() {
    let chunks = chunk_by_size(vec![1u8, 2, 3, 4, 5], 2);
    assert_eq!(chunks, vec![vec![1u8, 2], vec![3u8, 4], vec![5u8]]);
    for c in &chunks {
        assert!(c.len() <= 2);
    }
}

#[test]
fn decimal_rendering() {
    assert_eq!(u64_to_decimal(0), "0");
    assert_eq!(u64_to_decimal(7), "7");
    assert_eq!(u64_to_decimal(10), "10");
    assert_eq!(u64_to_decimal(12345), "12345");
    assert_eq!(u64_to_decimal(u64::MAX), u64::MAX.to_string());
}

#[test]
fn obfuscation_masks_the_middle() {
    assert_eq!(obfuscate_value("secretvalue"), "s*********e");
    assert_eq!(obfuscate_value("abc"), "a*c");
    assert_eq!(obfuscate_value("ab"), "**");
    assert_eq!(obfuscate_value(""), "");
}

#[test]
fn host_paths_map_under_the_emulated_drive() {
    assert_eq!(host_to_pfx_path("/home/user/textures/a.dds"), "Z:\\home\\user\\textures\\a.dds");
    assert_eq!(host_to_pfx_path("/"), "Z:\\");
    assert_eq!(host_to_pfx_path(""), "Z:\\");
    // Redundant and relative steps resolve.
    assert_eq!(host_to_pfx_path("/a//b/./c"), "Z:\\a\\b\\c");
    assert_eq!(host_to_pfx_path("/a/b/../c"), "Z:\\a\\c");
    // Past the root, a parent step vanishes.
    assert_eq!(host_to_pfx_path("/../a"), "Z:\\a");
}
