//! The directive model: the units of install work a manifest describes.
//!
//! A directive turns a resolved source into one file of the install tree.
//! Directives are immutable values, consumed once each, and are dispatched
//! in priority order: cheap, independent kinds first, then texture
//! transforms, then archive creation, which assumes earlier outputs already
//! on disk — so lower tiers are fully drained before the later ones start.

use vstd::prelude::*;
use crate::hash_path::ArchiveHashPath;
use crate::paths::MaybeWindowsPath;
use crate::texture::DXGIFormat;
use vstd::seq_lib::lemma_multiset_commutative;
use vstd::multiset::Multiset;

verus! {

/// Image parameters of a texture transform.
pub struct ImageState {
    pub format: DXGIFormat,
    pub height: u32,
    pub mip_levels: u32,
    pub perceptual_hash: String,
    pub width: u32,
}

/// Copy one entry out of a resolved archive.
pub struct FromArchiveDirective {
    pub hash: String,
    pub size: u64,
    pub to: MaybeWindowsPath,
    pub archive_hash_path: ArchiveHashPath,
}

/// Write a file carried inline in the manifest archive.
pub struct InlineFileDirective {
    pub hash: String,
    pub size: u64,
    pub source_data_id: String,
    pub to: MaybeWindowsPath,
}

/// Reconstruct a file from an archive entry plus a delta patch.
pub struct PatchedFromArchiveDirective {
    pub hash: String,
    pub size: u64,
    pub to: MaybeWindowsPath,
    pub archive_hash_path: ArchiveHashPath,
    pub from_hash: String,
    pub patch_id: String,
}

/// Write an inline file after remapping its path placeholders.
pub struct RemappedInlineFileDirective {
    pub hash: String,
    pub size: u64,
    pub source_data_id: String,
    pub to: MaybeWindowsPath,
}

/// Recompress a texture from an archive entry.
pub struct TransformedTextureDirective {
    pub hash: String,
    pub size: u64,
    pub image_state: ImageState,
    pub to: MaybeWindowsPath,
    pub archive_hash_path: ArchiveHashPath,
}

/// Bundle previously installed files into a game archive. The archive
/// layout itself is the writer backend's business; the dispatcher only
/// needs the declared size and destination.
pub struct CreateBSADirective {
    pub hash: String,
    pub size: u64,
    pub to: MaybeWindowsPath,
}

/// One unit of install work.
pub enum Directive {
    CreateBSA(CreateBSADirective),
    FromArchive(FromArchiveDirective),
    InlineFile(InlineFileDirective),
    PatchedFromArchive(PatchedFromArchiveDirective),
    RemappedInlineFile(RemappedInlineFileDirective),
    TransformedTexture(TransformedTextureDirective),
}

/// The kinds of directive, payload-free.
#[derive(Clone, Copy, PartialEq, Eq, Structural, Debug)]
pub enum DirectiveKind {
    CreateBSA,
    FromArchive,
    InlineFile,
    PatchedFromArchive,
    RemappedInlineFile,
    TransformedTexture,
}

/// The declared output size of a directive.
pub open spec fn spec_size(d: Directive) -> u64 {
    match d {
        Directive::CreateBSA(x) => x.size,
        Directive::FromArchive(x) => x.size,
        Directive::InlineFile(x) => x.size,
        Directive::PatchedFromArchive(x) => x.size,
        Directive::RemappedInlineFile(x) => x.size,
        Directive::TransformedTexture(x) => x.size,
    }
}

/// The dispatch priority of a directive kind: cheap, independent kinds run
/// first; texture transforms and archive creation run last, and archive
/// creation depends on every earlier tier's files being on disk.
pub open spec fn spec_priority(d: Directive) -> u64 {
    match d {
        Directive::InlineFile(_) => 10,
        Directive::FromArchive(_) => 11,
        Directive::PatchedFromArchive(_) => 12,
        Directive::RemappedInlineFile(_) => 13,
        Directive::TransformedTexture(_) => 240,
        Directive::CreateBSA(_) => 250,
    }
}

/// The hash path a directive reads from, for the kinds that have one.
pub open spec fn spec_archive_path(d: Directive) -> Option<ArchiveHashPath> {
    match d {
        Directive::FromArchive(x) => Some(x.archive_hash_path),
        Directive::PatchedFromArchive(x) => Some(x.archive_hash_path),
        Directive::TransformedTexture(x) => Some(x.archive_hash_path),
        _ => None,
    }
}

impl Directive {
    pub fn size(&self) -> (r: u64)
        ensures
            r == spec_size(*self),
    {
        match self {
            Directive::CreateBSA(x) => x.size,
            Directive::FromArchive(x) => x.size,
            Directive::InlineFile(x) => x.size,
            Directive::PatchedFromArchive(x) => x.size,
            Directive::RemappedInlineFile(x) => x.size,
            Directive::TransformedTexture(x) => x.size,
        }
    }

    pub fn priority(&self) -> (r: u64)
        ensures
            r == spec_priority(*self),
    {
        match self {
            Directive::InlineFile(_) => 10,
            Directive::FromArchive(_) => 11,
            Directive::PatchedFromArchive(_) => 12,
            Directive::RemappedInlineFile(_) => 13,
            Directive::TransformedTexture(_) => 240,
            Directive::CreateBSA(_) => 250,
        }
    }

    pub fn directive_kind(&self) -> (r: DirectiveKind)
        ensures
            r == spec_kind(*self),
    {
        match self {
            Directive::CreateBSA(_) => DirectiveKind::CreateBSA,
            Directive::FromArchive(_) => DirectiveKind::FromArchive,
            Directive::InlineFile(_) => DirectiveKind::InlineFile,
            Directive::PatchedFromArchive(_) => DirectiveKind::PatchedFromArchive,
            Directive::RemappedInlineFile(_) => DirectiveKind::RemappedInlineFile,
            Directive::TransformedTexture(_) => DirectiveKind::TransformedTexture,
        }
    }

    /// The hash path this directive reads from, if its kind has one.
    pub fn archive_path(&self) -> (r: Option<&ArchiveHashPath>)
        ensures
            r matches Some(p) ==> spec_archive_path(*self) == Some(*p),
            r is Some <==> spec_archive_path(*self) is Some,
    {
        match self {
            Directive::FromArchive(x) => Some(&x.archive_hash_path),
            Directive::PatchedFromArchive(x) => Some(&x.archive_hash_path),
            Directive::TransformedTexture(x) => Some(&x.archive_hash_path),
            _ => None,
        }
    }
}

/// The kind of a directive.
pub open spec fn spec_kind(d: Directive) -> DirectiveKind {
    match d {
        Directive::CreateBSA(_) => DirectiveKind::CreateBSA,
        Directive::FromArchive(_) => DirectiveKind::FromArchive,
        Directive::InlineFile(_) => DirectiveKind::InlineFile,
        Directive::PatchedFromArchive(_) => DirectiveKind::PatchedFromArchive,
        Directive::RemappedInlineFile(_) => DirectiveKind::RemappedInlineFile,
        Directive::TransformedTexture(_) => DirectiveKind::TransformedTexture,
    }
}

fn push_directive(v: &mut Vec<Directive>, d: Directive)
    ensures
        final(v)@ == old(v)@.push(d),
        final(v)@.to_multiset() == old(v)@.to_multiset().insert(d),
{
    let ghost before = v@;
    v.push(d);
    proof {
        let pushed = before.push(d);
        vstd::seq_lib::to_multiset_build(before, d);
        assert(v@ == pushed);
    }
}

fn drain_append(dst: &mut Vec<Directive>, src: Vec<Directive>)
    ensures
        final(dst)@ == old(dst)@ + src@,
{
    let ghost all = src@;
    let mut src = src;
    let total: usize = src.len();
    let mut i: usize = 0;
    proof {
        assert(old(dst)@ + all.take(0) =~= old(dst)@);
        assert(all.skip(0) =~= all);
    }
    while src.len() > 0
        invariant
            i <= all.len(),
            all.len() == total,
            src@ == all.skip(i as int),
            dst@ == old(dst)@ + all.take(i as int),
        decreases src@.len(),
    {
        let d = src.remove(0);
        proof {
            assert(all.skip(i as int)[0] == all[i as int]);
            assert(all.skip(i as int).remove(0) =~= all.skip(i + 1));
            assert(old(dst)@ + all.take(i + 1) =~= (old(dst)@ + all.take(i as int)).push(
                all[i as int],
            ));
        }
        dst.push(d);
        i = i + 1;
    }
    proof {
        assert(all.skip(i as int).len() == 0);
        assert(i == all.len());
        assert(all.take(all.len() as int) =~= all);
    }
}

/// Sort directives into dispatch order.
///
/// The result holds exactly the given directives — same multiset — with
/// priorities ascending, so every directive of a lower tier stands before
/// every directive of a higher one.
pub fn sort_directives(input: Vec<Directive>) -> (out: Vec<Directive>)
    ensures
        out@.to_multiset() == input@.to_multiset(),
        out@.len() == input@.len(),
        forall|i: int, j: int|
            0 <= i < j < out@.len() ==> spec_priority(#[trigger] out@[i]) <= spec_priority(
                #[trigger] out@[j],
            ),
{
    broadcast use vstd::seq_lib::group_to_multiset_ensures;
    broadcast use vstd::multiset::group_multiset_axioms;

    let ghost all = input@;
    let mut input = input;
    let total: usize = input.len();
    let mut inline_files: Vec<Directive> = Vec::new();
    let mut from_archives: Vec<Directive> = Vec::new();
    let mut patched: Vec<Directive> = Vec::new();
    let mut remapped: Vec<Directive> = Vec::new();
    let mut textures: Vec<Directive> = Vec::new();
    let mut bsas: Vec<Directive> = Vec::new();
    let mut i: usize = 0;
    proof {
        assert(all.take(0).to_multiset() =~= Multiset::<Directive>::empty());
        assert(all.skip(0) =~= all);
    }
    while input.len() > 0
        invariant
            i <= all.len(),
            all.len() == total,
            input@ == all.skip(i as int),
            all.take(i as int).to_multiset() =~= inline_files@.to_multiset().add(
                from_archives@.to_multiset(),
            ).add(patched@.to_multiset()).add(remapped@.to_multiset()).add(
                textures@.to_multiset(),
            ).add(bsas@.to_multiset()),
            forall|k: int|
                0 <= k < inline_files@.len() ==> spec_priority(#[trigger] inline_files@[k]) == 10,
            forall|k: int|
                0 <= k < from_archives@.len() ==> spec_priority(#[trigger] from_archives@[k])
                    == 11,
            forall|k: int| 0 <= k < patched@.len() ==> spec_priority(#[trigger] patched@[k]) == 12,
            forall|k: int|
                0 <= k < remapped@.len() ==> spec_priority(#[trigger] remapped@[k]) == 13,
            forall|k: int|
                0 <= k < textures@.len() ==> spec_priority(#[trigger] textures@[k]) == 240,
            forall|k: int| 0 <= k < bsas@.len() ==> spec_priority(#[trigger] bsas@[k]) == 250,
            inline_files@.len() + from_archives@.len() + patched@.len() + remapped@.len()
                + textures@.len() + bsas@.len() == i,
        decreases input@.len(),
    {
        let d = input.remove(0);
        let ghost m10 = inline_files@.to_multiset();
        let ghost m11 = from_archives@.to_multiset();
        let ghost m12 = patched@.to_multiset();
        let ghost m13 = remapped@.to_multiset();
        let ghost m240 = textures@.to_multiset();
        let ghost m250 = bsas@.to_multiset();
        proof {
            assert(all.skip(i as int)[0] == all[i as int]);
            assert(all.skip(i as int).remove(0) =~= all.skip(i + 1));
            let pushed = all.take(i as int).push(all[i as int]);
            vstd::seq_lib::to_multiset_build(all.take(i as int), all[i as int]);
            assert(all.take(i + 1) =~= pushed);
            assert(all.take(i + 1).to_multiset() == all.take(i as int).to_multiset().insert(
                all[i as int],
            ));
        }
        match &d {
            Directive::InlineFile(_) => push_directive(&mut inline_files, d),
            Directive::FromArchive(_) => push_directive(&mut from_archives, d),
            Directive::PatchedFromArchive(_) => push_directive(&mut patched, d),
            Directive::RemappedInlineFile(_) => push_directive(&mut remapped, d),
            Directive::TransformedTexture(_) => push_directive(&mut textures, d),
            Directive::CreateBSA(_) => push_directive(&mut bsas, d),
        }
        proof {
            assert(all.take(i + 1).to_multiset() =~= inline_files@.to_multiset().add(
                from_archives@.to_multiset(),
            ).add(patched@.to_multiset()).add(remapped@.to_multiset()).add(
                textures@.to_multiset(),
            ).add(bsas@.to_multiset())) by {
                assert(all.take(i as int).to_multiset() =~= m10.add(m11).add(m12).add(m13).add(
                    m240,
                ).add(m250));
            }
        }
        i = i + 1;
    }
    proof {
        assert(all.skip(i as int).len() == 0);
        assert(i == all.len());
        assert(all.take(all.len() as int) =~= all);
    }
    let ghost g10 = inline_files@;
    let ghost g11 = from_archives@;
    let ghost g12 = patched@;
    let ghost g13 = remapped@;
    let ghost g240 = textures@;
    let ghost g250 = bsas@;
    let mut out = inline_files;
    drain_append(&mut out, from_archives);
    drain_append(&mut out, patched);
    drain_append(&mut out, remapped);
    drain_append(&mut out, textures);
    drain_append(&mut out, bsas);
    proof {
        assert(out@ == ((((g10 + g11) + g12) + g13) + g240) + g250);
        lemma_multiset_commutative(g10, g11);
        lemma_multiset_commutative(g10 + g11, g12);
        lemma_multiset_commutative((g10 + g11) + g12, g13);
        lemma_multiset_commutative(((g10 + g11) + g12) + g13, g240);
        lemma_multiset_commutative((((g10 + g11) + g12) + g13) + g240, g250);
        assert(out@.to_multiset() =~= all.to_multiset()) by {
            assert(all.to_multiset() == g10.to_multiset().add(g11.to_multiset()).add(
                g12.to_multiset(),
            ).add(g13.to_multiset()).add(g240.to_multiset()).add(g250.to_multiset()));
        }
        assert forall|x: int, y: int|
            0 <= x < y < out@.len() implies spec_priority(#[trigger] out@[x]) <= spec_priority(
            #[trigger] out@[y],
        ) by {
            let n10 = g10.len() as int;
            let n11 = n10 + g11.len();
            let n12 = n11 + g12.len();
            let n13 = n12 + g13.len();
            let n240 = n13 + g240.len();
            assert(spec_priority(out@[x]) == if x < n10 {
                10u64
            } else if x < n11 {
                11u64
            } else if x < n12 {
                12u64
            } else if x < n13 {
                13u64
            } else if x < n240 {
                240u64
            } else {
                250u64
            });
            assert(spec_priority(out@[y]) == if y < n10 {
                10u64
            } else if y < n11 {
                11u64
            } else if y < n12 {
                12u64
            } else if y < n13 {
                13u64
            } else if y < n240 {
                240u64
            } else {
                250u64
            });
        }
    }
    out
}

} // verus!
