//! Which cache file a run reads or writes.
//!
//! A video's frames go to an animated frame buffer (`.afb`), a still
//! image's to a static one (`.sfb`), named after the input file.

use vstd::prelude::*;
use crate::text::string_from_chars;

verus! {

/// The two kinds of cache file.
#[derive(Clone, Copy, Debug, PartialEq, Eq, Structural)]
pub enum CacheKind {
    /// Frames of a video, played in a loop.
    Animated,
    /// The frame of a still image, shown once.
    Still,
}

/// What a run does about its cache.
#[derive(Clone, Copy, Debug, PartialEq, Eq, Structural)]
pub enum CacheChoice {
    /// Play the existing cache of this kind.
    Reuse(CacheKind),
    /// Process the source and write a new cache.
    Create,
}

/// Both kinds of cache exist for one input.
#[derive(Clone, Copy, Debug, PartialEq, Eq, Structural)]
pub struct CacheConflict;

pub open spec fn choose_cache_spec(afb_exists: bool, sfb_exists: bool, overwrite: bool) -> Result<CacheChoice, CacheConflict> {
    let afb = afb_exists && !overwrite;
    let sfb = sfb_exists && !overwrite;
    if afb && sfb {
        Err(CacheConflict)
    } else if afb {
        Ok(CacheChoice::Reuse(CacheKind::Animated))
    } else if sfb {
        Ok(CacheChoice::Reuse(CacheKind::Still))
    } else {
        Ok(CacheChoice::Create)
    }
}

/// Decides from the caches on disk whether to reuse one or make a new one.
/// Overwriting ignores the existing caches; two of them conflict.
pub fn choose_cache(afb_exists: bool, sfb_exists: bool, overwrite: bool) -> (r: Result<CacheChoice, CacheConflict>)
    ensures
        r == choose_cache_spec(afb_exists, sfb_exists, overwrite),
{
    let afb = afb_exists && !overwrite;
    let sfb = sfb_exists && !overwrite;
    if afb && sfb {
        Err(CacheConflict)
    } else if afb {
        Ok(CacheChoice::Reuse(CacheKind::Animated))
    } else if sfb {
        Ok(CacheChoice::Reuse(CacheKind::Still))
    } else {
        Ok(CacheChoice::Create)
    }
}

/// The kind of cache for a source of `frame_count` frames.
pub fn kind_for_frames(frame_count: i32) -> (r: CacheKind)
    ensures
        r == (if frame_count == 1 { CacheKind::Still } else { CacheKind::Animated }),
{
    if frame_count == 1 { CacheKind::Still } else { CacheKind::Animated }
}

/// Index just past the last `/` among the first `n` characters of `s`, or 0.
pub open spec fn name_start(s: Seq<char>, n: int) -> int
    decreases n,
{
    if n <= 0 {
        0
    } else if s[n - 1] == '/' {
        n
    } else {
        name_start(s, n - 1)
    }
}

/// The file name of `path`: what follows its last `/`.
pub open spec fn file_name_spec(path: Seq<char>) -> Seq<char> {
    path.skip(name_start(path, path.len() as int))
}

/// The name of a cache file: the input's file name and the kind's extension.
pub open spec fn cache_name_spec(path: Seq<char>, kind: CacheKind) -> Seq<char> {
    file_name_spec(path) + match kind {
        CacheKind::Animated => seq!['.', 'a', 'f', 'b'],
        CacheKind::Still => seq!['.', 's', 'f', 'b'],
    }
}

/// Names the cache file of the input at `path`.
pub fn cache_file_name(path: &str, kind: CacheKind) -> (r: String)
    ensures
        r@ == cache_name_spec(path@, kind),
{
    let v = crate::probe::chars_of(path);
    let mut start: usize = v.len();
    while start > 0 && v[start - 1] != '/'
        invariant
            0 <= start <= v.len(),
            name_start(v@, start as int) == name_start(v@, v.len() as int),
        decreases start,
    {
        start = start - 1;
    }
    let ghost begin = name_start(v@, v.len() as int);
    assert(begin == start as int);
    let mut name: Vec<char> = Vec::new();
    let mut i = start;
    while i < v.len()
        invariant
            start <= i <= v.len(),
            name@ == v@.subrange(start as int, i as int),
        decreases v.len() - i,
    {
        name.push(v[i]);
        assert(name@ =~= v@.subrange(start as int, i + 1));
        i = i + 1;
    }
    name.push('.');
    match kind {
        CacheKind::Animated => name.push('a'),
        CacheKind::Still => name.push('s'),
    }
    name.push('f');
    name.push('b');
    assert(name@ =~= cache_name_spec(path@, kind));
    string_from_chars(&name)
}

} // verus!
